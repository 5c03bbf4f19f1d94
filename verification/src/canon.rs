//! The mathematical model of a digit sequence: the non-negative integer
//! it denotes, canonical form, and the fact that canonical form is the
//! unique representation of each value.

use crate::digit::{digit_char, digit_of_val, digit_val, lemma_digit_of_val_inverse, Symbol};
use crate::text::spec_render;
use vstd::arithmetic::div_mod::lemma_fundamental_div_mod;
use vstd::prelude::*;

verus! {

/// Ten raised to a power.
pub open spec fn pow10(n: nat) -> nat
    decreases n,
{
    if n == 0 {
        1
    } else {
        10 * pow10((n - 1) as nat)
    }
}

/// The non-negative integer denoted by a digit sequence stored
/// least-significant first: index 0 holds the units digit.
pub open spec fn seq_val(s: Seq<Symbol>) -> nat
    decreases s.len(),
{
    if s.len() == 0 {
        0
    } else {
        digit_val(s[0]) + 10 * seq_val(s.skip(1))
    }
}

/// Canonical form: non-empty, and the most-significant digit is nonzero
/// except for the single-digit zero.
pub open spec fn canonical(s: Seq<Symbol>) -> bool {
    s.len() >= 1 && (s.len() == 1 || s.last() != Symbol::Zero)
}

pub proof fn lemma_pow10_positive(n: nat)
    ensures
        pow10(n) >= 1,
    decreases n,
{
    if n > 0 {
        lemma_pow10_positive((n - 1) as nat);
    }
}

pub proof fn lemma_pow10_increases(m: nat, n: nat)
    requires
        m <= n,
    ensures
        pow10(m) <= pow10(n),
    decreases n,
{
    if m < n {
        lemma_pow10_increases(m, (n - 1) as nat);
        lemma_pow10_positive((n - 1) as nat);
    }
}

/// Appending a most-significant digit adds its value at the next power of ten.
pub proof fn lemma_seq_val_snoc(s: Seq<Symbol>, d: Symbol)
    ensures
        seq_val(s.push(d)) == seq_val(s) + digit_val(d) * pow10(s.len()),
    decreases s.len(),
{
    if s.len() == 0 {
        assert(s.push(d) =~= seq![d]);
        assert(seq_val(seq![d].skip(1)) == 0) by {
            assert(seq![d].skip(1) =~= Seq::<Symbol>::empty());
        }
        assert(pow10(s.len()) == 1);
        assert(digit_val(d) * pow10(s.len()) == digit_val(d)) by (nonlinear_arith)
            requires
                pow10(s.len()) == 1,
        ;
    } else {
        assert(s.push(d).skip(1) =~= s.skip(1).push(d));
        lemma_seq_val_snoc(s.skip(1), d);
        let p = pow10(s.skip(1).len());
        let dv = digit_val(d);
        assert(10 * (seq_val(s.skip(1)) + dv * p) == 10 * seq_val(s.skip(1)) + dv * (10 * p))
            by (nonlinear_arith);
        assert(pow10(s.len()) == 10 * p);
        assert(seq_val(s.push(d)) == digit_val(s[0]) + 10 * seq_val(s.skip(1).push(d)));
        assert(seq_val(s.push(d)) == seq_val(s) + dv * pow10(s.len()));
    }
}

/// A digit sequence of length `n` denotes a value below ten to the `n`.
pub proof fn lemma_seq_val_upper(s: Seq<Symbol>)
    ensures
        seq_val(s) < pow10(s.len()),
    decreases s.len(),
{
    if s.len() == 0 {
    } else {
        lemma_seq_val_upper(s.skip(1));
        lemma_digit_of_val_inverse(s[0]);
        assert(pow10(s.len()) == 10 * pow10((s.len() - 1) as nat));
    }
}

/// A sequence with a nonzero most-significant digit denotes at least
/// ten to the length less one.
pub proof fn lemma_seq_val_lower(s: Seq<Symbol>)
    requires
        s.len() >= 1,
        s.last() != Symbol::Zero,
    ensures
        seq_val(s) >= pow10((s.len() - 1) as nat),
    decreases s.len(),
{
    if s.len() == 1 {
        assert(digit_val(s[0]) >= 1) by {
            lemma_digit_of_val_inverse(s[0]);
        }
    } else {
        assert(s.skip(1).last() == s.last());
        lemma_seq_val_lower(s.skip(1));
        assert(pow10((s.len() - 1) as nat) == 10 * pow10((s.len() - 2) as nat));
    }
}

/// The canonical sequence of value zero is the single zero digit.
pub proof fn lemma_canonical_zero(s: Seq<Symbol>)
    requires
        canonical(s),
        seq_val(s) == 0,
    ensures
        s =~= seq![Symbol::Zero],
{
    if s.len() >= 2 {
        lemma_seq_val_lower(s);
        lemma_pow10_positive((s.len() - 1) as nat);
    } else {
        lemma_digit_of_val_inverse(s[0]);
        assert(seq_val(s.skip(1)) >= 0);
    }
}

/// Canonical form is unique: two canonical sequences of equal value are equal.
pub proof fn lemma_canonical_unique(a: Seq<Symbol>, b: Seq<Symbol>)
    requires
        canonical(a),
        canonical(b),
        seq_val(a) == seq_val(b),
    ensures
        a =~= b,
    decreases a.len(),
{
    if seq_val(a) == 0 {
        lemma_canonical_zero(a);
        lemma_canonical_zero(b);
    } else {
        if a.len() < b.len() {
            lemma_seq_val_lower(b);
            lemma_seq_val_upper(a);
            lemma_pow10_increases(a.len(), (b.len() - 1) as nat);
        }
        if b.len() < a.len() {
            lemma_seq_val_lower(a);
            lemma_seq_val_upper(b);
            lemma_pow10_increases(b.len(), (a.len() - 1) as nat);
        }
        assert(a.len() == b.len());
        lemma_digit_of_val_inverse(a[0]);
        lemma_digit_of_val_inverse(b[0]);
        if a.len() == 1 {
            assert(seq_val(a.skip(1)) == 0);
            assert(seq_val(b.skip(1)) == 0);
            assert(a[0] == b[0]);
            assert(a =~= b);
        } else {
            assert(digit_val(a[0]) == digit_val(b[0]) && seq_val(a.skip(1)) == seq_val(b.skip(1)));
            assert(a.skip(1).last() == a.last());
            assert(b.skip(1).last() == b.last());
            lemma_canonical_unique(a.skip(1), b.skip(1));
            assert forall|i: int| 0 <= i < a.len() implies a[i] == b[i] by {
                if i > 0 {
                    assert(a.skip(1)[i - 1] == b.skip(1)[i - 1]);
                }
            }
            assert(a =~= b);
        }
    }
}

/// The digit at a position, with zero beyond the end: the shorter
/// operand of an addition behaves as if padded with zero digits.
pub open spec fn padded_digit(s: Seq<Symbol>, i: int) -> nat {
    if 0 <= i < s.len() {
        digit_val(s[i])
    } else {
        0
    }
}

/// The value of the first `i` digits, or of the whole sequence when it
/// is shorter than `i`.
pub open spec fn prefix_val(s: Seq<Symbol>, i: int) -> nat {
    if i <= s.len() {
        seq_val(s.subrange(0, i))
    } else {
        seq_val(s)
    }
}

/// Extending a prefix by one position adds the padded digit there.
pub proof fn lemma_prefix_val_step(s: Seq<Symbol>, i: int)
    requires
        0 <= i,
    ensures
        prefix_val(s, i + 1) == prefix_val(s, i) + padded_digit(s, i) * pow10(i as nat),
{
    if i < s.len() {
        assert(s.subrange(0, i + 1) =~= s.subrange(0, i).push(s[i]));
        lemma_seq_val_snoc(s.subrange(0, i), s[i]);
    } else {
        if i == s.len() {
            assert(s.subrange(0, i) =~= s);
        }
        assert(padded_digit(s, i) * pow10(i as nat) == 0) by (nonlinear_arith)
            requires
                padded_digit(s, i) == 0,
        ;
    }
}

/// A prefix that covers the whole sequence has its full value.
pub proof fn lemma_prefix_val_full(s: Seq<Symbol>, i: int)
    requires
        i >= s.len(),
    ensures
        prefix_val(s, i) == seq_val(s),
{
    if i == s.len() {
        assert(s.subrange(0, i) =~= s);
    }
}

/// The canonical digit sequence of a non-negative integer,
/// least-significant digit first.
pub open spec fn digits_of_nat(n: nat) -> Seq<Symbol>
    decreases n,
{
    if n < 10 {
        seq![digit_of_val(n)]
    } else {
        seq![digit_of_val(n % 10)] + digits_of_nat(n / 10)
    }
}

/// The decimal numeral of a non-negative integer, most-significant
/// digit first: the reference rendering against which results are stated.
pub open spec fn dec_chars_of(n: nat) -> Seq<char> {
    spec_render(digits_of_nat(n))
}

/// `digits_of_nat` produces the canonical sequence denoting its argument.
pub proof fn lemma_digits_of_nat(n: nat)
    ensures
        canonical(digits_of_nat(n)),
        seq_val(digits_of_nat(n)) == n,
        n >= 1 ==> digits_of_nat(n).last() != Symbol::Zero,
    decreases n,
{
    if n < 10 {
        let s = digits_of_nat(n);
        lemma_digit_of_val_inverse(digit_of_val(n));
        assert(s.skip(1) =~= Seq::<Symbol>::empty());
        assert(digit_val(digit_of_val(n)) == n);
        assert(s[0] == digit_of_val(n));
        assert(seq_val(s) == digit_val(s[0]) + 10 * seq_val(s.skip(1)));
    } else {
        lemma_fundamental_div_mod(n as int, 10);
        lemma_digits_of_nat(n / 10);
        let s = digits_of_nat(n);
        assert(s.skip(1) =~= digits_of_nat(n / 10));
        assert(digit_val(digit_of_val(n % 10)) == n % 10) by {
            lemma_digit_of_val_inverse(digit_of_val(n % 10));
        }
        assert(s[0] == digit_of_val(n % 10));
        assert(seq_val(s) == digit_val(s[0]) + 10 * seq_val(s.skip(1)));
        assert(seq_val(s.skip(1)) == n / 10);
        assert(n % 10 + 10 * (n / 10) == n);
        assert(s.last() == digits_of_nat(n / 10).last());
    }
}

} // verus!
