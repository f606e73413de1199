//! The properties the gadget contracts promise, stated and proved once over
//! the value-level model.

use vstd::prelude::*;
use vstd::arithmetic::div_mod::lemma_small_mod;
use vstd::arithmetic::power2::{lemma2_to64, lemma_pow2_adds, pow2};
use crate::cells::{poseidon_of, vals_of};
use crate::field::{
    fr_order, is_bit, is_fr, lemma_subm_add_cancel, mux_left, mux_right, subm,
};
use crate::gadget::{all_bits, merkle_chain, PublicKey};

verus! {

/// Selector correctness: for canonical field values and a boolean selector,
/// the conditional-swap blend returns `(a, b)` when `s == 1` and `(b, a)`
/// when `s == 0`.
pub proof fn lemma_selector_correct(a: nat, b: nat, s: nat)
    requires
        is_fr(a),
        is_fr(b),
        is_bit(s),
    ensures
        s == 1 ==> mux_left(a, b, s) == a && mux_right(a, b, s) == b,
        s == 0 ==> mux_left(a, b, s) == b && mux_right(a, b, s) == a,
{
    if s == 1 {
        assert(subm(a, b) * 1 == subm(a, b));
        assert(subm(b, a) * 1 == subm(b, a));
        lemma_subm_add_cancel(a, b);
        lemma_subm_add_cancel(b, a);
    } else {
        assert(subm(a, b) * 0 == 0);
        assert(subm(b, a) * 0 == 0);
        lemma_small_mod(a, fr_order());
        lemma_small_mod(b, fr_order());
    }
}

/// Selector soundness: a selector other than 0 and 1 leaves the constraint
/// system unsatisfied after the swap gadget, whatever it held before — the
/// gadget's trace update is `sat && is_bit(s)`, which is then false.
pub proof fn lemma_selector_sound(prior: bool, s: nat)
    requires
        !is_bit(s),
    ensures
        (prior && is_bit(s)) == false,
{
}

/// Depth-0 boundary: with an empty path the recomputed chain is the leaf
/// itself, so the membership constraints hold exactly when the leaf equals
/// the root directly.
pub proof fn lemma_depth_zero(prior: bool, leaf: nat, root: nat)
    ensures
        merkle_chain(leaf, Seq::<nat>::empty(), Seq::<nat>::empty()) == leaf,
        (prior && all_bits(Seq::<nat>::empty()) && merkle_chain(
            leaf,
            Seq::<nat>::empty(),
            Seq::<nat>::empty(),
        ) == root) == (prior && leaf == root),
{
}

/// Leaf-derivation determinism: two public keys whose limb cells carry the
/// same values derive one and the same leaf.
pub proof fn lemma_leaf_deterministic(p1: PublicKey, p2: PublicKey)
    requires
        vals_of(p1.x_limbs@) == vals_of(p2.x_limbs@),
        vals_of(p1.y_limbs@) == vals_of(p2.y_limbs@),
    ensures
        p1.leaf() == p2.leaf(),
{
}

/// One level of a complete binary tree: adjacent pairs hashed in order.
pub open spec fn hash_level(nodes: Seq<nat>) -> Seq<nat> {
    Seq::new(nodes.len() / 2, |k: int| poseidon_of(seq![nodes[2 * k], nodes[2 * k + 1]]))
}

/// The root of the complete binary tree of depth `d` over the nodes.
pub open spec fn tree_root(nodes: Seq<nat>, d: nat) -> nat
    decreases d,
{
    if d == 0 {
        if nodes.len() > 0 {
            nodes[0]
        } else {
            0
        }
    } else {
        tree_root(hash_level(nodes), (d - 1) as nat)
    }
}

/// The selector bits of the path from leaf `i`: a node with even index is the
/// left child of its parent (bit 1), an odd one the right child (bit 0).
pub open spec fn path_bits(i: int, d: nat) -> Seq<nat>
    decreases d,
{
    if d == 0 {
        Seq::empty()
    } else {
        seq![if i % 2 == 0 { 1nat } else { 0nat }] + path_bits(i / 2, (d - 1) as nat)
    }
}

/// The index of a node's sibling.
pub open spec fn sibling_index(i: int) -> int {
    if i % 2 == 0 {
        i + 1
    } else {
        i - 1
    }
}

/// The sibling values along the path from leaf `i` up the tree of depth `d`.
pub open spec fn path_siblings(nodes: Seq<nat>, i: int, d: nat) -> Seq<nat>
    decreases d,
{
    if d == 0 {
        Seq::empty()
    } else {
        seq![nodes[sibling_index(i)]] + path_siblings(hash_level(nodes), i / 2, (d - 1) as nat)
    }
}

/// Every value the hash gadget returns is a canonical field element, as the
/// contract of the hashing operation promises of every cell it assigns.
pub open spec fn hash_canonical() -> bool {
    forall|s: Seq<nat>| is_fr(#[trigger] poseidon_of(s))
}

/// All node values are canonical field elements.
pub open spec fn all_canonical(nodes: Seq<nat>) -> bool {
    forall|i: int| 0 <= i < nodes.len() ==> is_fr(#[trigger] nodes[i])
}

/// Membership completeness: in a tree built over canonical leaf values with
/// the same hash the gadget uses, the true sibling path and selector bits of
/// any leaf reproduce the tree root, and every selector is a bit — so the
/// membership constraints are satisfied by the honest witness.
pub proof fn lemma_membership_complete(leaves: Seq<nat>, i: int, d: nat)
    requires
        hash_canonical(),
        all_canonical(leaves),
        leaves.len() == pow2(d),
        0 <= i < leaves.len(),
    ensures
        all_bits(path_bits(i, d)),
        path_siblings(leaves, i, d).len() == path_bits(i, d).len(),
        merkle_chain(leaves[i], path_siblings(leaves, i, d), path_bits(i, d)) == tree_root(
            leaves,
            d,
        ),
    decreases d,
{
    lemma2_to64();
    let sibs = path_siblings(leaves, i, d);
    let bits = path_bits(i, d);
    if d == 0 {
        assert(sibs =~= Seq::<nat>::empty());
        assert(bits =~= Seq::<nat>::empty());
    } else {
        let next = hash_level(leaves);
        lemma_pow2_adds(1, (d - 1) as nat);
        assert(leaves.len() == 2 * pow2((d - 1) as nat));
        assert(next.len() == pow2((d - 1) as nat));
        assert forall|k: int| 0 <= k < next.len() implies is_fr(#[trigger] next[k]) by {
            assert(next[k] == poseidon_of(seq![leaves[2 * k], leaves[2 * k + 1]]));
        }
        let b0: nat = if i % 2 == 0 { 1 } else { 0 };
        let sib = leaves[sibling_index(i)];
        lemma_selector_correct(leaves[i], sib, b0);
        let parent = poseidon_of(
            seq![mux_left(leaves[i], sib, b0), mux_right(leaves[i], sib, b0)],
        );
        if i % 2 == 0 {
            assert(2 * (i / 2) == i);
            assert(seq![mux_left(leaves[i], sib, b0), mux_right(leaves[i], sib, b0)]
                =~= seq![leaves[2 * (i / 2)], leaves[2 * (i / 2) + 1]]);
        } else {
            assert(2 * (i / 2) == i - 1);
            assert(seq![mux_left(leaves[i], sib, b0), mux_right(leaves[i], sib, b0)]
                =~= seq![leaves[2 * (i / 2)], leaves[2 * (i / 2) + 1]]);
        }
        assert(parent == next[i / 2]);
        assert(sibs[0] == sib);
        assert(bits[0] == b0);
        assert(sibs.skip(1) =~= path_siblings(next, i / 2, (d - 1) as nat));
        assert(bits.skip(1) =~= path_bits(i / 2, (d - 1) as nat));
        assert(0 <= i / 2 < next.len());
        lemma_membership_complete(next, i / 2, (d - 1) as nat);
        assert(merkle_chain(leaves[i], sibs, bits) == merkle_chain(
            parent,
            sibs.skip(1),
            bits.skip(1),
        ));
        assert forall|j: int| 0 <= j < bits.len() implies is_bit(#[trigger] bits[j]) by {
            if j > 0 {
                assert(is_bit(bits.skip(1)[j - 1]));
            }
        }
    }
}

} // verus!
