//! The signed variant: a sign paired with a canonical digit sequence.
//! An optional leading `+` or `-` is accepted when parsing; a magnitude
//! of exactly zero always carries the zero sign, never a positive or
//! negative one, so `-0` and `+0` collapse to the same canonical zero.

use crate::canon::{canonical, lemma_canonical_zero, seq_val};
use crate::digit::Symbol;
use crate::text::{all_digits, render_digits, spec_render, str_val};
use crate::unsigned::{ParseUnsignedIntegerError, UnsignedInteger};
use vstd::prelude::*;

verus! {

/// The sign of a signed value. Exactly the zero value carries `Zero`.
#[derive(Clone, Copy, Debug, PartialEq, Eq, Structural)]
pub enum Sign {
    Positive,
    Negative,
    Zero,
}

/// Whether a character marks a sign.
pub open spec fn is_sign_char(c: char) -> bool {
    c == '+' || c == '-'
}

/// The digit part of a signed numeral: what follows one optional
/// leading sign character.
pub open spec fn spec_body(s: Seq<char>) -> Seq<char> {
    if s.len() >= 1 && is_sign_char(s[0]) {
        s.skip(1)
    } else {
        s
    }
}

/// A well-formed signed numeral: at most one leading sign character,
/// then one or more decimal digits and nothing else.
pub open spec fn signed_valid(s: Seq<char>) -> bool {
    spec_body(s).len() >= 1 && all_digits(spec_body(s))
}

/// The sign a numeral denotes: zero collapses any written sign, a
/// leading `-` on a nonzero magnitude is negative, all else positive.
pub open spec fn spec_sign(s: Seq<char>) -> Sign {
    if str_val(spec_body(s)) == 0 {
        Sign::Zero
    } else if s.len() >= 1 && s[0] == '-' {
        Sign::Negative
    } else {
        Sign::Positive
    }
}

/// A signed value is a sign and a canonical magnitude, and the sign is
/// the zero marker exactly when the magnitude is zero.
pub open spec fn signed_well_formed(v: (Sign, Seq<Symbol>)) -> bool {
    &&& canonical(v.1)
    &&& (seq_val(v.1) == 0 <==> v.0 == Sign::Zero)
}

/// A signed integer of unbounded magnitude: a sign and a canonical
/// digit sequence, least-significant digit first.
#[derive(Debug, Clone)]
pub struct Integer {
    sign: Sign,
    symbols: Vec<Symbol>,
}

impl View for Integer {
    type V = (Sign, Seq<Symbol>);

    closed spec fn view(&self) -> (Sign, Seq<Symbol>) {
        (self.sign, self.symbols@)
    }
}

impl vstd::std_specs::cmp::PartialEqSpecImpl for Integer {
    open spec fn obeys_eq_spec() -> bool {
        true
    }

    open spec fn eq_spec(&self, other: &Self) -> bool {
        self@ == other@
    }
}

impl PartialEq for Integer {
    /// Equality is equality of the signs and of the digit sequences; on
    /// well-formed values that is equality of the denoted integers.
    fn eq(&self, other: &Self) -> (r: bool) {
        if self.sign != other.sign {
            return false;
        }
        if self.symbols.len() != other.symbols.len() {
            return false;
        }
        let mut i: usize = 0;
        while i < self.symbols.len()
            invariant
                i <= self.symbols.len(),
                self@.1.len() == other@.1.len(),
                forall|j: int| 0 <= j < i ==> self@.1[j] == other@.1[j],
            decreases self.symbols.len() - i,
        {
            if self.symbols[i] != other.symbols[i] {
                return false;
            }
            i = i + 1;
        }
        proof {
            assert(self@.1 =~= other@.1);
        }
        true
    }
}

/// The text of a signed value: `-` before the digits of a negative
/// value, the bare digits otherwise.
pub open spec fn spec_render_signed(v: (Sign, Seq<Symbol>)) -> Seq<char> {
    if v.0 == Sign::Negative {
        seq!['-'] + spec_render(v.1)
    } else {
        spec_render(v.1)
    }
}

impl Integer {
    /// Parse a decimal string with one optional leading `+` or `-` into
    /// its canonical signed value; `-0` and `+0` parse to the zero value
    /// with the zero sign. The empty string and any string that is not
    /// an optionally signed digit string are rejected, each with its
    /// own error.
    pub fn from_str(s: &str) -> (r: Result<Integer, ParseUnsignedIntegerError>)
        ensures
            match r {
                Ok(v) => s@.len() >= 1 && signed_valid(s@) && signed_well_formed(v@) && seq_val(
                    v@.1,
                ) == str_val(spec_body(s@)) && v@.0 == spec_sign(s@),
                Err(ParseUnsignedIntegerError::EmptyString) => s@.len() == 0,
                Err(ParseUnsignedIntegerError::NotANumber) => s@.len() >= 1 && !signed_valid(s@),
            },
    {
        let n = s.unicode_len();
        if n == 0 {
            return Err(ParseUnsignedIntegerError::EmptyString);
        }
        let c0 = s.get_char(0);
        let negative = c0 == '-';
        let has_sign = negative || c0 == '+';
        let start: usize = if has_sign {
            1
        } else {
            0
        };
        if start == n {
            return Err(ParseUnsignedIntegerError::NotANumber);
        }
        proof {
            if has_sign {
                assert(spec_body(s@) == s@.skip(1));
            } else {
                assert(spec_body(s@) =~= s@.skip(0));
            }
        }
        match UnsignedInteger::digits_from(s, start) {
            None => Err(ParseUnsignedIntegerError::NotANumber),
            Some(v) => {
                let is_zero = v.len() == 1 && v[0] == Symbol::Zero;
                proof {
                    if is_zero {
                        assert(v@ =~= seq![Symbol::Zero]);
                        assert(seq_val(seq![Symbol::Zero].skip(1)) == 0) by {
                            assert(seq![Symbol::Zero].skip(1) =~= Seq::<Symbol>::empty());
                        }
                    } else {
                        if seq_val(v@) == 0 {
                            lemma_canonical_zero(v@);
                            assert(false);
                        }
                    }
                }
                let sign = if is_zero {
                    Sign::Zero
                } else if negative {
                    Sign::Negative
                } else {
                    Sign::Positive
                };
                Ok(Integer { sign, symbols: v })
            },
        }
    }

    /// The decimal text of the value: the sign character for a negative
    /// value, nothing otherwise, then the digits most-significant first.
    pub fn render(&self) -> (r: String)
        ensures
            r@ == spec_render_signed(self@),
    {
        let digits = render_digits(&self.symbols);
        if let Sign::Negative = self.sign {
            let mut r = String::new();
            proof {
                reveal_strlit("-");
            }
            r.append("-");
            r.append(digits.as_str());
            proof {
                assert(r@ =~= spec_render_signed(self@));
            }
            r
        } else {
            digits
        }
    }
}

} // verus!
