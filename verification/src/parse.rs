//! Turning caller-supplied numerals into assigned field elements: decimal
//! digit strings are parsed into little-endian bytes, bounded, and loaded as
//! witnesses reduced by the field order.

use vstd::prelude::*;
use vstd::arithmetic::div_mod::lemma_small_mod;
use vstd::arithmetic::power2::{lemma2_to64, lemma_pow2_adds, lemma_pow2_strictly_increases, pow2};
use crate::cells::{all_fr, load_le_bytes, val_of, Cell, CircuitCtx};
use crate::field::{fr_order, is_fr};
use num_bigint::BigUint;

verus! {

/// The number a little-endian byte string denotes.
pub open spec fn le_value(bytes: Seq<u8>) -> nat
    decreases bytes.len(),
{
    if bytes.len() == 0 {
        0
    } else {
        (bytes[0] as nat) + 256 * le_value(bytes.skip(1))
    }
}

/// The string is one or more ASCII decimal digits.
pub open spec fn is_dec_digits(s: Seq<u8>) -> bool {
    s.len() > 0 && forall|i: int| 0 <= i < s.len() ==> 48 <= #[trigger] s[i] <= 57
}

/// The number a string of ASCII decimal digits denotes.
pub open spec fn dec_value(s: Seq<u8>) -> nat
    decreases s.len(),
{
    if s.len() == 0 {
        0
    } else {
        (dec_value(s.drop_last()) * 10 + (s.last() - 48)) as nat
    }
}

/// The numeral is well formed and denotes a number small enough to load: less
/// than `2^512`, the widest little-endian value a witness loader accepts.
pub open spec fn dec_loadable(s: Seq<u8>) -> bool {
    is_dec_digits(s) && dec_value(s) < pow2(512)
}

/// Relies on num_bigint's BigUint::parse_bytes (base 10) and to_bytes_le: the
/// result is the little-endian representation of the number the decimal
/// digits denote, with no trailing zero byte (a single zero byte for zero).
#[verifier::external_body]
pub(crate) fn dec_to_bytes_le(digits: &[u8]) -> (r: Vec<u8>)
    requires
        is_dec_digits(digits@),
    ensures
        r@.len() >= 1,
        le_value(r@) == dec_value(digits@),
        r@.len() > 1 ==> r@.last() != 0,
{
    let n = BigUint::parse_bytes(digits, 10).unwrap();
    n.to_bytes_le()
}

/// A little-endian byte string of length `n` denotes less than `2^(8n)`.
pub proof fn lemma_le_value_upper(b: Seq<u8>)
    ensures
        le_value(b) < pow2(8 * b.len()),
    decreases b.len(),
{
    lemma2_to64();
    if b.len() == 0 {
    } else {
        lemma_le_value_upper(b.skip(1));
        lemma_pow2_adds(8, 8 * (b.len() - 1) as nat);
        assert(256 * le_value(b.skip(1)) <= 256 * (pow2(8 * (b.len() - 1) as nat) - 1))
            by (nonlinear_arith)
            requires le_value(b.skip(1)) < pow2(8 * (b.len() - 1) as nat);
    }
}

/// A little-endian byte string whose last byte is not zero denotes at least
/// `2^(8(n-1))`.
pub proof fn lemma_le_value_lower(b: Seq<u8>)
    requires
        b.len() > 0,
        b.last() != 0,
    ensures
        le_value(b) >= pow2(8 * (b.len() - 1) as nat),
    decreases b.len(),
{
    lemma2_to64();
    if b.len() == 1 {
    } else {
        lemma_le_value_lower(b.skip(1));
        lemma_pow2_adds(8, 8 * (b.len() - 2) as nat);
        assert(256 * le_value(b.skip(1)) >= 256 * pow2(8 * (b.len() - 2) as nat))
            by (nonlinear_arith)
            requires le_value(b.skip(1)) >= pow2(8 * (b.len() - 2) as nat);
    }
}

fn check_digits(digits: &[u8]) -> (b: bool)
    ensures
        b == is_dec_digits(digits@),
{
    if digits.len() == 0 {
        return false;
    }
    let mut i: usize = 0;
    while i < digits.len()
        invariant
            i <= digits@.len(),
            forall|j: int| 0 <= j < i ==> 48 <= #[trigger] digits@[j] <= 57,
        decreases digits@.len() - i,
    {
        if digits[i] < 48 || digits[i] > 57 {
            return false;
        }
        i += 1;
    }
    true
}

/// Appending a zero byte does not change the denoted value.
proof fn lemma_le_value_zero_pad(b: Seq<u8>)
    ensures
        le_value(b.push(0)) == le_value(b),
    decreases b.len(),
{
    if b.len() == 0 {
        assert(b.push(0) =~= seq![0u8]);
        assert(b.push(0).skip(1) =~= Seq::<u8>::empty());
        assert(le_value(b.push(0)) == (b.push(0)[0] as nat) + 256 * le_value(b.push(0).skip(1)));
    } else {
        lemma_le_value_zero_pad(b.skip(1));
        assert(b.push(0).skip(1) =~= b.skip(1).push(0));
        assert(b.push(0)[0] == b[0]);
        assert(le_value(b.push(0)) == (b.push(0)[0] as nat) + 256 * le_value(b.push(0).skip(1)));
    }
}

/// Parse a decimal numeral into the 32-byte little-endian form a curve
/// coordinate or wide scalar takes. Returns `None` exactly when the input is
/// not a nonempty string of decimal digits or denotes a number of 33 or more
/// bytes.
pub fn dec_to_coord_bytes(digits: &[u8]) -> (r: Option<Vec<u8>>)
    ensures
        r.is_some() <==> is_dec_digits(digits@) && dec_value(digits@) < pow2(256),
        r.is_some() ==> r.unwrap()@.len() == 32 && le_value(r.unwrap()@) == dec_value(digits@),
{
    if !check_digits(digits) {
        return None;
    }
    let mut bytes = dec_to_bytes_le(digits);
    if bytes.len() > 32 {
        proof {
            lemma_le_value_lower(bytes@);
            if bytes@.len() > 33 {
                lemma_pow2_strictly_increases(256, 8 * (bytes@.len() - 1) as nat);
            }
        }
        return None;
    }
    proof {
        lemma_le_value_upper(bytes@);
        if bytes@.len() < 32 {
            lemma_pow2_strictly_increases(8 * bytes@.len(), 256);
        }
    }
    while bytes.len() < 32
        invariant
            bytes@.len() <= 32,
            le_value(bytes@) == dec_value(digits@),
        decreases 32 - bytes@.len(),
    {
        proof {
            lemma_le_value_zero_pad(bytes@);
        }
        bytes.push(0);
    }
    Some(bytes)
}

/// Parse a decimal numeral and load it as a witness, reduced by the field
/// order. Returns `None` exactly when the input is not a nonempty string of
/// decimal digits or denotes a number of 65 or more bytes.
pub fn load_field_element(cx: &mut CircuitCtx, digits: &[u8]) -> (r: Option<Cell>)
    ensures
        r.is_some() <==> dec_loadable(digits@),
        r.is_some() ==> val_of(r.unwrap()) == dec_value(digits@) % fr_order(),
        r.is_some() ==> is_fr(val_of(r.unwrap())),
{
    if !check_digits(digits) {
        return None;
    }
    let bytes = dec_to_bytes_le(digits);
    if bytes.len() > 64 {
        proof {
            lemma_le_value_lower(bytes@);
            if bytes@.len() > 65 {
                lemma_pow2_strictly_increases(512, 8 * (bytes@.len() - 1) as nat);
            }
        }
        return None;
    }
    proof {
        lemma_le_value_upper(bytes@);
        if bytes@.len() < 64 {
            lemma_pow2_strictly_increases(8 * bytes@.len(), 512);
        }
    }
    Some(load_le_bytes(cx, bytes.as_slice()))
}

/// Load a message as one byte-valued witness cell per byte.
pub fn load_message(cx: &mut CircuitCtx, msg: &[u8]) -> (r: Vec<Cell>)
    ensures
        r@.len() == msg@.len(),
        forall|i: int| 0 <= i < msg@.len() ==> val_of(#[trigger] r@[i]) == msg@[i] as nat,
        all_fr(r@),
{
    let mut out: Vec<Cell> = Vec::new();
    let mut i: usize = 0;
    while i < msg.len()
        invariant
            i <= msg@.len(),
            out@.len() == i,
            forall|j: int| 0 <= j < i ==> val_of(#[trigger] out@[j]) == msg@[j] as nat,
            all_fr(out@),
        decreases msg@.len() - i,
    {
        let mut one: Vec<u8> = Vec::new();
        one.push(msg[i]);
        proof {
            assert(one@ =~= seq![msg@[i as int]]);
            assert(one@.skip(1) =~= Seq::<u8>::empty());
            assert(le_value(one@.skip(1)) == 0);
            assert(le_value(one@) == msg@[i as int] as nat);
            lemma_small_mod(msg@[i as int] as nat, fr_order());
        }
        let c = load_le_bytes(cx, one.as_slice());
        out.push(c);
        i += 1;
    }
    out
}

} // verus!
