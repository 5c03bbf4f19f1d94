//! Arbitrary-precision decimal integers.
//!
//! Values are sequences of decimal digits stored least-significant first,
//! kept in canonical form (no most-significant zero digit except for the
//! single-digit zero). The library parses decimal text, renders it back,
//! and adds two numbers with full carry propagation; every operation
//! carries a contract relating it to the mathematical value of the digits.

mod canon;
mod digit;
mod laws;
mod signed;
mod text;
mod unsigned;

pub use canon::{canonical, dec_chars_of, digits_of_nat, pow10, seq_val};
pub use digit::{
    char_digit_val, digit_char, digit_of_val, digit_val, half_add_unit, is_digit_char, Symbol,
};
pub use laws::{
    lemma_add_commutative, lemma_add_identity, lemma_parse_zeros_renders_zero,
    lemma_render_of_value, lemma_render_parse_roundtrip,
};
pub use signed::{
    is_sign_char, signed_valid, signed_well_formed, spec_body, spec_render_signed, spec_sign,
    Integer, Sign,
};
pub use text::{all_digits, digits_of_chars, spec_render, str_val};
pub use unsigned::{ParseUnsignedIntegerError, UnsignedInteger};
