//! Value-level model of the proving system's scalar field: arithmetic modulo
//! the field order, and the algebraic blend that the conditional-swap selector
//! gadget computes.

use vstd::prelude::*;
use vstd::arithmetic::div_mod::{lemma_mod_add_multiples_vanish, lemma_small_mod};

verus! {

/// Order of the scalar field of the proving system (the BN254 scalar field).
pub open spec fn fr_order() -> nat {
    0x30644e72e131a029b85045b68181585d2833e84879b9709143e1f593f0000001nat
}

/// A field element in canonical form.
pub open spec fn is_fr(x: nat) -> bool {
    x < fr_order()
}

/// Field addition.
pub open spec fn addm(a: nat, b: nat) -> nat {
    (a + b) % fr_order()
}

/// Field subtraction.
pub open spec fn subm(a: nat, b: nat) -> nat {
    (((a as int) - (b as int)) % (fr_order() as int)) as nat
}

/// Field multiply-and-add: `a * b + c`.
pub open spec fn mul_addm(a: nat, b: nat, c: nat) -> nat {
    (a * b + c) % fr_order()
}

/// A selector value usable as a boolean: exactly 0 or 1.
pub open spec fn is_bit(s: nat) -> bool {
    s == 0 || s == 1
}

/// Left output of the conditional swap on `(a, b)` with selector `s`:
/// `(a - b) * s + b`.
pub open spec fn mux_left(a: nat, b: nat, s: nat) -> nat {
    mul_addm(subm(a, b), s, b)
}

/// Right output of the conditional swap on `(a, b)` with selector `s`:
/// `(b - a) * s + a`.
pub open spec fn mux_right(a: nat, b: nat, s: nat) -> nat {
    mul_addm(subm(b, a), s, a)
}

/// Subtracting and adding back the same canonical element is the identity.
pub proof fn lemma_subm_add_cancel(a: nat, b: nat)
    requires
        is_fr(a),
        is_fr(b),
    ensures
        addm(subm(a, b), b) == a,
{
    let p = fr_order() as int;
    if a >= b {
        lemma_small_mod((a - b) as nat, fr_order());
        lemma_small_mod(a, fr_order());
    } else {
        lemma_mod_add_multiples_vanish((a as int) - (b as int), p);
        lemma_small_mod((a + p - b) as nat, fr_order());
        lemma_mod_add_multiples_vanish(a as int, p);
        lemma_small_mod(a, fr_order());
    }
}

} // verus!
