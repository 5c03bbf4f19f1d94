//! The library's general guarantees, each stated over the contracts of
//! `from_str`, `render` and `add` and proved once for all inputs.

use crate::canon::{
    canonical, dec_chars_of, digits_of_nat, lemma_canonical_unique, lemma_canonical_zero,
    lemma_digits_of_nat, seq_val,
};
use crate::digit::{char_digit_val, digit_of_val, lemma_digit_char_roundtrip, Symbol};
use crate::text::{
    all_digits, digits_of_chars, lemma_digits_of_chars_val, lemma_str_val_zeros, spec_render,
    str_val,
};
use vstd::prelude::*;

verus! {

/// Canonicalization: a string of one or more zero characters parses to
/// a value whose rendering is exactly `"0"`. The hypotheses on `d` are
/// what `from_str` ensures of its result on such a string.
pub proof fn lemma_parse_zeros_renders_zero(s: Seq<char>, d: Seq<Symbol>)
    requires
        s.len() >= 1,
        forall|i: int| 0 <= i < s.len() ==> #[trigger] s[i] == '0',
        canonical(d),
        seq_val(d) == str_val(s),
    ensures
        spec_render(d) == seq!['0'],
{
    lemma_str_val_zeros(s);
    lemma_canonical_zero(d);
    assert(spec_render(d) =~= seq!['0']);
}

/// No leading zeros: a valid decimal string without a leading zero
/// (or the single digit `"0"`) renders back to itself after parsing.
/// The hypotheses on `d` are what `from_str` ensures of its result.
pub proof fn lemma_render_parse_roundtrip(s: Seq<char>, d: Seq<Symbol>)
    requires
        s.len() >= 1,
        all_digits(s),
        s.len() == 1 || s[0] != '0',
        canonical(d),
        seq_val(d) == str_val(s),
    ensures
        spec_render(d) == s,
{
    let e = digits_of_chars(s);
    lemma_digits_of_chars_val(s);
    if s.len() >= 2 {
        assert(e.last() == digit_of_val(char_digit_val(s[0])));
        assert(char_digit_val(s[0]) >= 1);
        assert(e.last() != Symbol::Zero);
    }
    lemma_canonical_unique(d, e);
    assert forall|i: int| 0 <= i < s.len() implies spec_render(e)[i] == s[i] by {
        lemma_digit_char_roundtrip(s[i]);
    }
    assert(spec_render(d) =~= s);
}

/// Round trip under addition: a canonical sequence renders as the
/// decimal numeral of its value. With the contracts of `from_str` and
/// `add`, the rendering of `add(parse(x), parse(y))` is therefore the
/// numeral of the exact sum of the two parsed values.
pub proof fn lemma_render_of_value(d: Seq<Symbol>, n: nat)
    requires
        canonical(d),
        seq_val(d) == n,
    ensures
        spec_render(d) == dec_chars_of(n),
{
    lemma_digits_of_nat(n);
    lemma_canonical_unique(d, digits_of_nat(n));
}

/// Commutativity: any results meeting `add`'s contract for `(a, b)` and
/// for `(b, a)` are the same value, so `add(a, b) == add(b, a)`.
pub proof fn lemma_add_commutative(a: Seq<Symbol>, b: Seq<Symbol>, r1: Seq<Symbol>, r2: Seq<Symbol>)
    requires
        canonical(r1),
        seq_val(r1) == seq_val(a) + seq_val(b),
        canonical(r2),
        seq_val(r2) == seq_val(b) + seq_val(a),
    ensures
        r1 == r2,
{
    lemma_canonical_unique(r1, r2);
}

/// Identity: the canonical zero produced by `parse("0")` is the single
/// zero digit, and adding it to any canonical value gives that value
/// back unchanged, so `add(a, parse("0")) == a`.
pub proof fn lemma_add_identity(a: Seq<Symbol>, z: Seq<Symbol>, r: Seq<Symbol>)
    requires
        canonical(a),
        canonical(z),
        seq_val(z) == 0,
        canonical(r),
        seq_val(r) == seq_val(a) + seq_val(z),
    ensures
        r == a,
        z == seq![Symbol::Zero],
{
    lemma_canonical_zero(z);
    lemma_canonical_unique(r, a);
}

} // verus!
