use decimal::{ParseUnsignedIntegerError, Symbol, UnsignedInteger};

#[test]
fn test_interger_from_str_0() {
    assert_eq!(
        UnsignedInteger::from_str("0"),
        Ok(UnsignedInteger::raw(&[Symbol::Zero]))
    );
}

#[test]
fn test_interger_from_str_1() {
    assert_eq!(
        UnsignedInteger::from_str("1"),
        Ok(UnsignedInteger::raw(&[Symbol::One]))
    );
}

#[test]
fn test_interger_from_str_2() {
    assert_eq!(
        UnsignedInteger::from_str("2"),
        Ok(UnsignedInteger::raw(&[Symbol::Two]))
    );
}

#[test]
fn test_interger_from_str_3() {
    assert_eq!(
        UnsignedInteger::from_str("3"),
        Ok(UnsignedInteger::raw(&[Symbol::Three]))
    );
}

#[test]
fn test_interger_from_str_4() {
    assert_eq!(
        UnsignedInteger::from_str("4"),
        Ok(UnsignedInteger::raw(&[Symbol::Four]))
    );
}

#[test]
fn test_interger_from_str_5() {
    assert_eq!(
        UnsignedInteger::from_str("5"),
        Ok(UnsignedInteger::raw(&[Symbol::Five]))
    );
}

#[test]
fn test_interger_from_str_6() {
    assert_eq!(
        UnsignedInteger::from_str("6"),
        Ok(UnsignedInteger::raw(&[Symbol::Six]))
    );
}

#[test]
fn test_interger_from_str_7() {
    assert_eq!(
        UnsignedInteger::from_str("7"),
        Ok(UnsignedInteger::raw(&[Symbol::Seven]))
    );
}

#[test]
fn test_interger_from_str_8() {
    assert_eq!(
        UnsignedInteger::from_str("8"),
        Ok(UnsignedInteger::raw(&[Symbol::Eight]))
    );
}

#[test]
fn test_interger_from_str_9() {
    assert_eq!(
        UnsignedInteger::from_str("9"),
        Ok(UnsignedInteger::raw(&[Symbol::Nine]))
    );
}

#[test]
fn test_interger_from_str_10() {
    assert_eq!(
        UnsignedInteger::from_str("10"),
        Ok(UnsignedInteger::raw(&[Symbol::Zero, Symbol::One]))
    );
}

#[test]
fn test_interger_from_str_empty() {
    assert_eq!(
        UnsignedInteger::from_str(""),
        Err(ParseUnsignedIntegerError::EmptyString)
    );
}

#[test]
fn test_interger_from_str_not_a_number() {
    assert_eq!(
        UnsignedInteger::from_str("Hello World"),
        Err(ParseUnsignedIntegerError::NotANumber)
    );
}

#[test]
fn test_interger_from_str_minus_1() {
    assert_eq!(
        UnsignedInteger::from_str("-1"),
        Err(ParseUnsignedIntegerError::NotANumber)
    );
}

#[test]
fn test_interger_from_str_minus_10() {
    assert_eq!(
        UnsignedInteger::from_str("-10"),
        Err(ParseUnsignedIntegerError::NotANumber)
    );
}

#[test]
fn test_interger_from_str_plus_10() {
    assert_eq!(
        UnsignedInteger::from_str("+10"),
        Err(ParseUnsignedIntegerError::NotANumber)
    );
}

#[test]
fn test_interger_from_str_minus_000010() {
    assert_eq!(
        UnsignedInteger::from_str("-000010"),
        Err(ParseUnsignedIntegerError::NotANumber)
    );
}

#[test]
fn test_interger_from_str_plus_000010() {
    assert_eq!(
        UnsignedInteger::from_str("+000010"),
        Err(ParseUnsignedIntegerError::NotANumber)
    );
}

#[test]
fn test_interger_from_str_minus_0() {
    assert_eq!(
        UnsignedInteger::from_str("-0"),
        Err(ParseUnsignedIntegerError::NotANumber)
    );
}

#[test]
fn test_interger_from_str_plus_0() {
    assert_eq!(
        UnsignedInteger::from_str("+0"),
        Err(ParseUnsignedIntegerError::NotANumber)
    );
}

#[test]
fn test_interger_from_str_plus_00000() {
    assert_eq!(
        UnsignedInteger::from_str("+00000"),
        Err(ParseUnsignedIntegerError::NotANumber)
    );
}

#[test]
fn test_interger_from_str_dashes_centre() {
    assert_eq!(
        UnsignedInteger::from_str("125-12"),
        Err(ParseUnsignedIntegerError::NotANumber)
    );
}

#[test]
fn test_interger_from_str_pluses_centre() {
    assert_eq!(
        UnsignedInteger::from_str("125+12"),
        Err(ParseUnsignedIntegerError::NotANumber)
    );
}

#[test]
fn test_display() {
    assert_eq!(
        UnsignedInteger::from_str("12512").unwrap().render(),
        "12512".to_string()
    );
}

#[test]
fn test_from_str_strips_leading_zeros() {
    assert_eq!(
        UnsignedInteger::from_str("000123"),
        Ok(UnsignedInteger::raw(&[Symbol::Three, Symbol::Two, Symbol::One]))
    );
}

#[test]
fn test_from_str_all_zeros_is_zero() {
    assert_eq!(
        UnsignedInteger::from_str("0000"),
        Ok(UnsignedInteger::raw(&[Symbol::Zero]))
    );
    assert_eq!(UnsignedInteger::from_str("0000").unwrap().render(), "0");
    assert_eq!(UnsignedInteger::from_str("0").unwrap().render(), "0");
}

#[test]
fn test_from_str_letter_in_middle() {
    assert_eq!(
        UnsignedInteger::from_str("12a34"),
        Err(ParseUnsignedIntegerError::NotANumber)
    );
}

#[test]
fn test_render_inverse_of_parse_no_leading_zeros() {
    for s in ["1", "42", "905", "1000", "123456789012345678901234567890"] {
        assert_eq!(UnsignedInteger::from_str(s).unwrap().render(), s);
    }
}

#[test]
fn test_from_char() {
    assert_eq!(Symbol::from_char(&'0'), Some(Symbol::Zero));
    assert_eq!(Symbol::from_char(&'7'), Some(Symbol::Seven));
    assert_eq!(Symbol::from_char(&'9'), Some(Symbol::Nine));
    assert_eq!(Symbol::from_char(&'a'), None);
    assert_eq!(Symbol::from_char(&'-'), None);
    assert_eq!(Symbol::from_char(&' '), None);
}

#[test]
fn test_raw_render_order() {
    // Digits are stored least-significant first.
    let v = UnsignedInteger::raw(&[Symbol::Zero, Symbol::One]);
    assert_eq!(v.render(), "10");
}
