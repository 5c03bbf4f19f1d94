//! The textual side of the model: the value a digit string denotes,
//! the rendering of a digit sequence as text, and how the two relate.
//! Text is most-significant digit first; stored sequences are
//! least-significant first, so rendering and reading reverse the order.

use crate::canon::{pow10, seq_val};
use crate::digit::{char_digit_val, digit_char, digit_of_val, digit_str, is_digit_char, Symbol};
use vstd::prelude::*;

verus! {

/// Whether every character of a string is an ASCII decimal digit.
pub open spec fn all_digits(s: Seq<char>) -> bool {
    forall|i: int| 0 <= i < s.len() ==> is_digit_char(#[trigger] s[i])
}

/// The non-negative integer a digit string denotes, read
/// most-significant digit first.
pub open spec fn str_val(s: Seq<char>) -> nat
    decreases s.len(),
{
    if s.len() == 0 {
        0
    } else {
        10 * str_val(s.drop_last()) + char_digit_val(s.last())
    }
}

/// The text of a digit sequence: the stored least-significant-first
/// digits written in reverse, most-significant digit first.
pub open spec fn spec_render(s: Seq<Symbol>) -> Seq<char> {
    Seq::new(s.len(), |i: int| digit_char(s[s.len() - 1 - i]))
}

/// The digit sequence a digit string denotes, least-significant first:
/// the string reversed, each character read as a digit.
pub open spec fn digits_of_chars(s: Seq<char>) -> Seq<Symbol> {
    Seq::new(s.len(), |i: int| digit_of_val(char_digit_val(s[s.len() - 1 - i])))
}

/// Write a stored digit sequence as text, most-significant digit first.
pub(crate) fn render_digits(v: &Vec<Symbol>) -> (r: String)
    ensures
        r@ == spec_render(v@),
{
    let n = v.len();
    let mut r = String::new();
    let mut i: usize = n;
    while i > 0
        invariant
            i <= n,
            n == v@.len(),
            r@ == Seq::new((n - i) as nat, |k: int| digit_char(v@[n - 1 - k])),
        decreases i,
    {
        i = i - 1;
        let ds = digit_str(&v[i]);
        r.append(ds);
        proof {
            assert(r@ =~= Seq::new((n - i) as nat, |k: int| digit_char(v@[n - 1 - k])));
        }
    }
    proof {
        assert(r@ =~= spec_render(v@));
    }
    r
}

/// Peeling the most-significant character off a digit string takes its
/// value at the highest power of ten.
pub proof fn lemma_str_val_cons(s: Seq<char>)
    requires
        s.len() >= 1,
    ensures
        str_val(s) == char_digit_val(s[0]) * pow10((s.len() - 1) as nat) + str_val(s.skip(1)),
    decreases s.len(),
{
    if s.len() == 1 {
        assert(s.drop_last() =~= Seq::<char>::empty());
        assert(s.skip(1) =~= Seq::<char>::empty());
        assert(pow10((s.len() - 1) as nat) == 1);
        assert(char_digit_val(s[0]) * pow10((s.len() - 1) as nat) == char_digit_val(s[0]))
            by (nonlinear_arith)
            requires
                pow10((s.len() - 1) as nat) == 1,
        ;
        assert(s[0] == s.last());
    } else {
        let t = s.drop_last();
        lemma_str_val_cons(t);
        assert(s.skip(1).drop_last() =~= t.skip(1));
        let c0 = char_digit_val(s[0]);
        let p = pow10((s.len() - 2) as nat);
        assert(10 * (c0 * p + str_val(t.skip(1))) == c0 * (10 * p) + 10 * str_val(t.skip(1)))
            by (nonlinear_arith);
        assert(pow10((s.len() - 1) as nat) == 10 * p);
        assert(s.skip(1).last() == s.last());
    }
}

/// A string of zero characters denotes zero.
pub proof fn lemma_str_val_zeros(s: Seq<char>)
    requires
        forall|i: int| 0 <= i < s.len() ==> #[trigger] s[i] == '0',
    ensures
        str_val(s) == 0,
    decreases s.len(),
{
    if s.len() > 0 {
        lemma_str_val_zeros(s.drop_last());
    }
}

/// Reading a digit string into a digit sequence preserves the value.
pub proof fn lemma_digits_of_chars_val(s: Seq<char>)
    ensures
        seq_val(digits_of_chars(s)) == str_val(s),
    decreases s.len(),
{
    if s.len() == 0 {
        assert(digits_of_chars(s) =~= Seq::<Symbol>::empty());
    } else {
        let t = s.drop_last();
        lemma_digits_of_chars_val(t);
        let d = digits_of_chars(s);
        assert(d.skip(1) =~= digits_of_chars(t));
        assert(d[0] == digit_of_val(char_digit_val(s.last())));
    }
}

} // verus!
