//! A non-negative integer of unbounded magnitude, stored as its
//! canonical digit sequence, least-significant digit first. Parsing is
//! the sole way callers obtain one, so every value is canonical; adding
//! two values propagates carries across the whole length and keeps the
//! result canonical.

use crate::canon::{
    canonical, lemma_prefix_val_full, lemma_prefix_val_step, lemma_seq_val_lower,
    lemma_seq_val_snoc, lemma_seq_val_upper, padded_digit, pow10, prefix_val, seq_val,
};
use crate::digit::{is_digit_char, Symbol};
use crate::text::{all_digits, lemma_str_val_cons, render_digits, spec_render, str_val};
use vstd::prelude::*;
use vstd::slice::slice_to_vec;

verus! {

/// Why a string failed to parse: it was empty, or it held a character
/// that is not an ASCII decimal digit.
#[derive(Debug, PartialEq, Eq, Structural)]
pub enum ParseUnsignedIntegerError {
    EmptyString,
    NotANumber,
}

/// A non-negative integer as a canonical digit sequence,
/// least-significant digit first.
#[derive(Debug, Clone)]
pub struct UnsignedInteger {
    symbols: Vec<Symbol>,
}

impl View for UnsignedInteger {
    type V = Seq<Symbol>;

    closed spec fn view(&self) -> Seq<Symbol> {
        self.symbols@
    }
}

impl vstd::std_specs::cmp::PartialEqSpecImpl for UnsignedInteger {
    open spec fn obeys_eq_spec() -> bool {
        true
    }

    open spec fn eq_spec(&self, other: &Self) -> bool {
        self@ == other@
    }
}

impl PartialEq for UnsignedInteger {
    /// Equality is pointwise equality of the digit sequences; on
    /// canonical values that is equality of the denoted integers.
    fn eq(&self, other: &Self) -> (r: bool) {
        if self.symbols.len() != other.symbols.len() {
            return false;
        }
        let mut i: usize = 0;
        while i < self.symbols.len()
            invariant
                i <= self.symbols.len(),
                self@.len() == other@.len(),
                forall|j: int| 0 <= j < i ==> self@[j] == other@[j],
            decreases self.symbols.len() - i,
        {
            if self.symbols[i] != other.symbols[i] {
                return false;
            }
            i = i + 1;
        }
        proof {
            assert(self@ =~= other@);
        }
        true
    }
}

impl UnsignedInteger {
    /// A value taken digit for digit from a slice, least-significant
    /// first; the caller is responsible for canonical form.
    pub fn raw(ss: &[Symbol]) -> (r: UnsignedInteger)
        ensures
            r@ == ss@,
    {
        UnsignedInteger { symbols: slice_to_vec(ss) }
    }

    /// The digits of `s` from position `start` on, read most-significant
    /// first into a canonical least-significant-first sequence, or
    /// nothing when a character there is not a decimal digit.
    pub(crate) fn digits_from(s: &str, start: usize) -> (r: Option<Vec<Symbol>>)
        requires
            start < s@.len(),
        ensures
            match r {
                Some(v) => all_digits(s@.skip(start as int)) && canonical(v@) && seq_val(v@)
                    == str_val(s@.skip(start as int)),
                None => !all_digits(s@.skip(start as int)),
            },
    {
        let n = s.unicode_len();
        let mut out: Vec<Symbol> = Vec::new();
        let mut i: usize = n;
        while i > start
            invariant
                start <= i <= n,
                n == s@.len(),
                out@.len() == n - i,
                seq_val(out@) == str_val(s@.subrange(i as int, n as int)),
                forall|j: int| i <= j < n ==> is_digit_char(#[trigger] s@[j]),
            decreases i,
        {
            i = i - 1;
            let c = s.get_char(i);
            match Symbol::from_char(&c) {
                None => {
                    proof {
                        assert(s@.skip(start as int)[i - start] == s@[i as int]);
                    }
                    return None;
                },
                Some(d) => {
                    proof {
                        let tail = s@.subrange(i + 1, n as int);
                        lemma_seq_val_snoc(out@, d);
                        lemma_str_val_cons(s@.subrange(i as int, n as int));
                        assert(s@.subrange(i as int, n as int).skip(1) =~= tail);
                        assert(s@.subrange(i as int, n as int)[0] == s@[i as int]);
                    }
                    out.push(d);
                },
            }
        }
        proof {
            assert(s@.subrange(start as int, n as int) =~= s@.skip(start as int));
            assert forall|j: int| 0 <= j < s@.skip(start as int).len() implies is_digit_char(
                #[trigger] s@.skip(start as int)[j],
            ) by {
                assert(s@.skip(start as int)[j] == s@[j + start]);
            }
        }
        // Strip most-significant zero digits down to canonical form;
        // they do not change the value.
        while out.len() > 1 && out[out.len() - 1] == Symbol::Zero
            invariant
                out@.len() >= 1,
                seq_val(out@) == str_val(s@.skip(start as int)),
            decreases out@.len(),
        {
            proof {
                assert(out@ =~= out@.drop_last().push(Symbol::Zero));
                lemma_seq_val_snoc(out@.drop_last(), Symbol::Zero);
            }
            let _ = out.pop();
        }
        Some(out)
    }

    /// Parse a decimal string, most-significant digit first, into its
    /// canonical value. The empty string and any string with a
    /// non-digit character are rejected, each with its own error.
    pub fn from_str(s: &str) -> (r: Result<UnsignedInteger, ParseUnsignedIntegerError>)
        ensures
            match r {
                Ok(v) => s@.len() >= 1 && all_digits(s@) && canonical(v@) && seq_val(v@) == str_val(
                    s@,
                ),
                Err(ParseUnsignedIntegerError::EmptyString) => s@.len() == 0,
                Err(ParseUnsignedIntegerError::NotANumber) => s@.len() >= 1 && !all_digits(s@),
            },
    {
        let n = s.unicode_len();
        if n == 0 {
            return Err(ParseUnsignedIntegerError::EmptyString);
        }
        proof {
            assert(s@.skip(0) =~= s@);
        }
        match Self::digits_from(s, 0) {
            None => Err(ParseUnsignedIntegerError::NotANumber),
            Some(v) => Ok(UnsignedInteger { symbols: v }),
        }
    }

    /// The decimal text of the value: the stored digits written
    /// most-significant first.
    pub fn render(&self) -> (r: String)
        ensures
            r@ == spec_render(self@),
    {
        render_digits(&self.symbols)
    }

    /// The sum of two canonical values: digits are added pairwise from
    /// the least-significant end, the shorter operand padded with zero
    /// digits, and each carry propagates to the next position; the
    /// result is canonical and denotes the exact sum.
    pub fn add(&self, other: &UnsignedInteger) -> (r: UnsignedInteger)
        requires
            canonical(self@),
            canonical(other@),
        ensures
            canonical(r@),
            seq_val(r@) == seq_val(self@) + seq_val(other@),
    {
        let alen = self.symbols.len();
        let blen = other.symbols.len();
        let n = if alen < blen {
            blen
        } else {
            alen
        };
        let mut out: Vec<Symbol> = Vec::new();
        let mut carry: u8 = 0;
        let mut i: usize = 0;
        proof {
            assert(self@.subrange(0, 0) =~= Seq::<Symbol>::empty());
            assert(other@.subrange(0, 0) =~= Seq::<Symbol>::empty());
        }
        while i < n
            invariant
                i <= n,
                alen == self@.len(),
                blen == other@.len(),
                n == (if alen < blen {
                    blen
                } else {
                    alen
                }),
                carry <= 1,
                out@.len() == i,
                seq_val(out@) + (carry as nat) * pow10(i as nat) == prefix_val(self@, i as int)
                    + prefix_val(other@, i as int),
            decreases n - i,
        {
            let da: u8 = if i < alen {
                self.symbols[i].value()
            } else {
                0
            };
            let db: u8 = if i < blen {
                other.symbols[i].value()
            } else {
                0
            };
            let sum: u8 = da + db + carry;
            let unit: u8 = sum % 10;
            let c2: u8 = sum / 10;
            let d = Symbol::from_value(unit);
            proof {
                lemma_seq_val_snoc(out@, d);
                lemma_prefix_val_step(self@, i as int);
                lemma_prefix_val_step(other@, i as int);
                assert(da as nat == padded_digit(self@, i as int));
                assert(db as nat == padded_digit(other@, i as int));
                let p = pow10(i as nat);
                assert(pow10((i + 1) as nat) == 10 * p);
                assert((unit as nat) * p + (c2 as nat) * (10 * p) == (da as nat) * p + (db as nat)
                    * p + (carry as nat) * p) by (nonlinear_arith)
                    requires
                        unit as nat + 10 * (c2 as nat) == da as nat + db as nat + carry as nat,
                ;
            }
            out.push(d);
            carry = c2;
            i = i + 1;
        }
        proof {
            lemma_prefix_val_full(self@, n as int);
            lemma_prefix_val_full(other@, n as int);
        }
        if carry == 1 {
            proof {
                lemma_seq_val_snoc(out@, Symbol::One);
                assert(1 * pow10(n as nat) == pow10(n as nat)) by (nonlinear_arith);
            }
            out.push(Symbol::One);
            UnsignedInteger { symbols: out }
        } else {
            proof {
                assert((carry as nat) * pow10(n as nat) == 0) by (nonlinear_arith)
                    requires
                        carry as nat == 0,
                ;
                // The most-significant digit cannot be zero: the longer
                // operand alone reaches the second-highest power of ten.
                if n >= 2 && out@.last() == Symbol::Zero {
                    assert(out@ =~= out@.drop_last().push(Symbol::Zero));
                    lemma_seq_val_snoc(out@.drop_last(), Symbol::Zero);
                    lemma_seq_val_upper(out@.drop_last());
                    if alen >= blen {
                        lemma_seq_val_lower(self@);
                    } else {
                        lemma_seq_val_lower(other@);
                    }
                    assert(false);
                }
            }
            UnsignedInteger { symbols: out }
        }
    }
}

} // verus!

