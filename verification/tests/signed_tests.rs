use decimal::{Integer, ParseUnsignedIntegerError};

#[test]
fn test_signed_zero_collapse() {
    // "-0" and "+0" both parse to the canonical zero and render as "0".
    assert_eq!(Integer::from_str("-0").unwrap().render(), "0");
    assert_eq!(Integer::from_str("+0").unwrap().render(), "0");
    assert_eq!(Integer::from_str("0").unwrap().render(), "0");
    assert_eq!(Integer::from_str("-0000").unwrap().render(), "0");
    assert_eq!(Integer::from_str("-0"), Integer::from_str("+0"));
    assert_eq!(Integer::from_str("-0"), Integer::from_str("0"));
}

#[test]
fn test_signed_parse_and_render() {
    assert_eq!(Integer::from_str("-1").unwrap().render(), "-1");
    assert_eq!(Integer::from_str("-10").unwrap().render(), "-10");
    assert_eq!(Integer::from_str("+10").unwrap().render(), "10");
    assert_eq!(Integer::from_str("42").unwrap().render(), "42");
    assert_eq!(Integer::from_str("-000010").unwrap().render(), "-10");
    assert_eq!(Integer::from_str("+000010").unwrap().render(), "10");
}

#[test]
fn test_signed_empty() {
    assert_eq!(
        Integer::from_str(""),
        Err(ParseUnsignedIntegerError::EmptyString)
    );
}

#[test]
fn test_signed_sign_alone() {
    assert_eq!(
        Integer::from_str("-"),
        Err(ParseUnsignedIntegerError::NotANumber)
    );
    assert_eq!(
        Integer::from_str("+"),
        Err(ParseUnsignedIntegerError::NotANumber)
    );
}

#[test]
fn test_signed_sign_not_at_front() {
    // A sign-like character anywhere but position 0 is rejected.
    assert_eq!(
        Integer::from_str("12-34"),
        Err(ParseUnsignedIntegerError::NotANumber)
    );
    assert_eq!(
        Integer::from_str("12+34"),
        Err(ParseUnsignedIntegerError::NotANumber)
    );
    assert_eq!(
        Integer::from_str("--1"),
        Err(ParseUnsignedIntegerError::NotANumber)
    );
}

#[test]
fn test_signed_not_a_number() {
    assert_eq!(
        Integer::from_str("12a34"),
        Err(ParseUnsignedIntegerError::NotANumber)
    );
    assert_eq!(
        Integer::from_str("-12a34"),
        Err(ParseUnsignedIntegerError::NotANumber)
    );
}
