//! The decimal digit: a closed enumeration of the ten digit values,
//! their numeric meaning, and their correspondence with the characters
//! `'0'` through `'9'`.

use vstd::prelude::*;

verus! {

/// One decimal digit.
#[derive(Clone, Copy, Debug, PartialEq, Eq, Structural)]
pub enum Symbol {
    Zero,
    One,
    Two,
    Three,
    Four,
    Five,
    Six,
    Seven,
    Eight,
    Nine,
}

/// The numeric value of a digit.
pub open spec fn digit_val(d: Symbol) -> nat {
    match d {
        Symbol::Zero => 0,
        Symbol::One => 1,
        Symbol::Two => 2,
        Symbol::Three => 3,
        Symbol::Four => 4,
        Symbol::Five => 5,
        Symbol::Six => 6,
        Symbol::Seven => 7,
        Symbol::Eight => 8,
        Symbol::Nine => 9,
    }
}

/// The digit with a given numeric value; values ten and above fall
/// together with nine and are never used.
pub open spec fn digit_of_val(v: nat) -> Symbol {
    if v == 0 {
        Symbol::Zero
    } else if v == 1 {
        Symbol::One
    } else if v == 2 {
        Symbol::Two
    } else if v == 3 {
        Symbol::Three
    } else if v == 4 {
        Symbol::Four
    } else if v == 5 {
        Symbol::Five
    } else if v == 6 {
        Symbol::Six
    } else if v == 7 {
        Symbol::Seven
    } else if v == 8 {
        Symbol::Eight
    } else {
        Symbol::Nine
    }
}

/// `digit_of_val` inverts `digit_val`, so digits with equal values are equal.
pub proof fn lemma_digit_of_val_inverse(d: Symbol)
    ensures
        digit_of_val(digit_val(d)) == d,
        digit_val(d) <= 9,
{
}

/// Whether a character is an ASCII decimal digit.
pub open spec fn is_digit_char(c: char) -> bool {
    c == '0' || c == '1' || c == '2' || c == '3' || c == '4' || c == '5' || c == '6' || c == '7'
        || c == '8' || c == '9'
}

/// The numeric value of a digit character; other characters fall
/// together with `'9'` and are never used.
pub open spec fn char_digit_val(c: char) -> nat {
    if c == '0' {
        0
    } else if c == '1' {
        1
    } else if c == '2' {
        2
    } else if c == '3' {
        3
    } else if c == '4' {
        4
    } else if c == '5' {
        5
    } else if c == '6' {
        6
    } else if c == '7' {
        7
    } else if c == '8' {
        8
    } else {
        9
    }
}

/// The character that writes a digit.
pub open spec fn digit_char(d: Symbol) -> char {
    match d {
        Symbol::Zero => '0',
        Symbol::One => '1',
        Symbol::Two => '2',
        Symbol::Three => '3',
        Symbol::Four => '4',
        Symbol::Five => '5',
        Symbol::Six => '6',
        Symbol::Seven => '7',
        Symbol::Eight => '8',
        Symbol::Nine => '9',
    }
}

/// Reading a digit character and writing it back is the identity.
pub proof fn lemma_digit_char_roundtrip(c: char)
    requires
        is_digit_char(c),
    ensures
        char_digit_val(c) <= 9,
        digit_char(digit_of_val(char_digit_val(c))) == c,
{
}

impl Symbol {
    /// The digit a character stands for, or nothing when the character
    /// is not an ASCII decimal digit.
    pub fn from_char(c: &char) -> (r: Option<Symbol>)
        ensures
            match r {
                Some(d) => is_digit_char(*c) && digit_val(d) == char_digit_val(*c),
                None => !is_digit_char(*c),
            },
    {
        if *c == '0' {
            Some(Symbol::Zero)
        } else if *c == '1' {
            Some(Symbol::One)
        } else if *c == '2' {
            Some(Symbol::Two)
        } else if *c == '3' {
            Some(Symbol::Three)
        } else if *c == '4' {
            Some(Symbol::Four)
        } else if *c == '5' {
            Some(Symbol::Five)
        } else if *c == '6' {
            Some(Symbol::Six)
        } else if *c == '7' {
            Some(Symbol::Seven)
        } else if *c == '8' {
            Some(Symbol::Eight)
        } else if *c == '9' {
            Some(Symbol::Nine)
        } else {
            None
        }
    }

    /// The numeric value of the digit, as a machine integer.
    pub fn value(&self) -> (r: u8)
        ensures
            r as nat == digit_val(*self),
            r <= 9,
    {
        match self {
            Symbol::Zero => 0,
            Symbol::One => 1,
            Symbol::Two => 2,
            Symbol::Three => 3,
            Symbol::Four => 4,
            Symbol::Five => 5,
            Symbol::Six => 6,
            Symbol::Seven => 7,
            Symbol::Eight => 8,
            Symbol::Nine => 9,
        }
    }

    /// The digit with a given numeric value.
    pub fn from_value(v: u8) -> (r: Symbol)
        requires
            v <= 9,
        ensures
            digit_val(r) == v as nat,
            r == digit_of_val(v as nat),
    {
        if v == 0 {
            Symbol::Zero
        } else if v == 1 {
            Symbol::One
        } else if v == 2 {
            Symbol::Two
        } else if v == 3 {
            Symbol::Three
        } else if v == 4 {
            Symbol::Four
        } else if v == 5 {
            Symbol::Five
        } else if v == 6 {
            Symbol::Six
        } else if v == 7 {
            Symbol::Seven
        } else if v == 8 {
            Symbol::Eight
        } else {
            Symbol::Nine
        }
    }
}

/// The one-character text of a digit.
pub fn digit_str(d: &Symbol) -> (r: &'static str)
    ensures
        r@ =~= seq![digit_char(*d)],
{
    match d {
        Symbol::Zero => {
            proof {
                reveal_strlit("0");
            }
            "0"
        },
        Symbol::One => {
            proof {
                reveal_strlit("1");
            }
            "1"
        },
        Symbol::Two => {
            proof {
                reveal_strlit("2");
            }
            "2"
        },
        Symbol::Three => {
            proof {
                reveal_strlit("3");
            }
            "3"
        },
        Symbol::Four => {
            proof {
                reveal_strlit("4");
            }
            "4"
        },
        Symbol::Five => {
            proof {
                reveal_strlit("5");
            }
            "5"
        },
        Symbol::Six => {
            proof {
                reveal_strlit("6");
            }
            "6"
        },
        Symbol::Seven => {
            proof {
                reveal_strlit("7");
            }
            "7"
        },
        Symbol::Eight => {
            proof {
                reveal_strlit("8");
            }
            "8"
        },
        Symbol::Nine => {
            proof {
                reveal_strlit("9");
            }
            "9"
        },
    }
}

/// Pairwise digit addition: the unit digit and the carry digit of the sum.
/// The carry is always zero or one.
pub fn half_add_unit(a: &Symbol, b: &Symbol) -> (r: (Symbol, Symbol))
    ensures
        digit_val(r.0) + 10 * digit_val(r.1) == digit_val(*a) + digit_val(*b),
        digit_val(r.1) <= 1,
{
    let s = a.value() + b.value();
    (Symbol::from_value(s % 10), Symbol::from_value(s / 10))
}

} // verus!
