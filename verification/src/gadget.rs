//! The circuit gadgets: the conditional-swap selector, the Merkle-membership
//! chain, leaf derivation from a public key's coordinate limbs, and the
//! top-level assembly binding them into one constraint system.

use vstd::prelude::*;
use vstd::arithmetic::div_mod::lemma_small_mod;
use vstd::arithmetic::power2::{lemma2_to64, lemma_pow2_adds, pow2};
use crate::cells::{
    all_fr, constrain_equal, gate_assert_bit, gate_mul_add, gate_sub, hash_cells_raw,
    load_le_bytes, poseidon_of, val_of, vals_of, Cell, CircuitCtx, Hasher,
    Trace,
};
use crate::field::{fr_order, is_bit, is_fr, mux_left, mux_right};
use crate::parse::{le_value, lemma_le_value_upper};

verus! {

/// Every value of the sequence is usable as a selector bit.
pub open spec fn all_bits(bits: Seq<nat>) -> bool {
    forall|i: int| 0 <= i < bits.len() ==> is_bit(#[trigger] bits[i])
}

/// The root computed by walking a leaf up a Merkle path: at each level the
/// running value and the sibling are ordered by the selector bit and hashed.
pub open spec fn merkle_chain(leaf: nat, siblings: Seq<nat>, bits: Seq<nat>) -> nat
    decreases siblings.len(),
{
    if siblings.len() == 0 {
        leaf
    } else {
        merkle_chain(
            poseidon_of(
                seq![
                    mux_left(leaf, siblings[0], bits[0]),
                    mux_right(leaf, siblings[0], bits[0]),
                ],
            ),
            siblings.skip(1),
            bits.skip(1),
        )
    }
}

/// The two-input conditional swap: constrains `switch` to be a bit and returns
/// the pair `((a - b) * switch + b, (b - a) * switch + a)`, which is `(a, b)`
/// for `switch == 1` and `(b, a)` for `switch == 0`.
pub fn dual_mux(cx: &mut CircuitCtx, tr: &mut Trace, a: &Cell, b: &Cell, switch: &Cell) -> (r: (
    Cell,
    Cell,
))
    ensures
        final(tr).sat@ == (old(tr).sat@ && is_bit(val_of(*switch))),
        val_of(r.0) == mux_left(val_of(*a), val_of(*b), val_of(*switch)),
        val_of(r.1) == mux_right(val_of(*a), val_of(*b), val_of(*switch)),
        is_fr(val_of(r.0)),
        is_fr(val_of(r.1)),
{
    gate_assert_bit(cx, tr, switch);
    let a_sub_b = gate_sub(cx, a, b);
    let b_sub_a = gate_sub(cx, b, a);
    let left = gate_mul_add(cx, &a_sub_b, switch, b);
    let right = gate_mul_add(cx, &b_sub_a, switch, a);
    (left, right)
}

/// Hash a fixed-length sequence of cells with the shared hash gadget.
pub fn hash_cells(cx: &mut CircuitCtx, hasher: &Hasher, inputs: &Vec<Cell>) -> (r: Cell)
    ensures
        val_of(r) == poseidon_of(vals_of(inputs@)),
        is_fr(val_of(r)),
{
    hash_cells_raw(cx, hasher, inputs)
}

proof fn lemma_all_bits_take_step(s: Seq<nat>, i: int)
    requires
        0 <= i < s.len(),
    ensures
        all_bits(s.take(i + 1)) == (all_bits(s.take(i)) && is_bit(s[i])),
{
    assert(forall|j: int| 0 <= j < i + 1 ==> s.take(i + 1)[j] == s[j]);
    assert(forall|j: int| 0 <= j < i ==> s.take(i)[j] == s[j]);
    if all_bits(s.take(i)) && is_bit(s[i]) {
        assert forall|j: int| 0 <= j < i + 1 implies is_bit(#[trigger] s.take(i + 1)[j]) by {
            if j < i {
                assert(is_bit(s.take(i)[j]));
            }
        }
    }
    if all_bits(s.take(i + 1)) {
        assert forall|j: int| 0 <= j < i implies is_bit(#[trigger] s.take(i)[j]) by {
            assert(is_bit(s.take(i + 1)[j]));
        }
        assert(is_bit(s.take(i + 1)[i]));
    }
}

/// Constrain that walking `leaf` up the path given by the `proof` siblings and
/// the `helper` selector bits reproduces `root`: afterwards the constraint
/// system is satisfied exactly when it was before, every helper value is a
/// bit, and the recomputed chain equals the root.
pub fn verify_membership_proof(
    cx: &mut CircuitCtx,
    hasher: &Hasher,
    tr: &mut Trace,
    root: &Cell,
    leaf: &Cell,
    proof: &[Cell],
    helper: &[Cell],
)
    requires
        proof@.len() == helper@.len(),
    ensures
        final(tr).sat@ == (old(tr).sat@ && all_bits(vals_of(helper@)) && merkle_chain(
            val_of(*leaf),
            vals_of(proof@),
            vals_of(helper@),
        ) == val_of(*root)),
{
    let ghost sv = vals_of(proof@);
    let ghost bv = vals_of(helper@);
    let ghost prior = tr.sat@;
    // the chain starts at the leaf cell itself, never at a fresh witness: a
    // free copy would let a prover open the chain on a value of their choice
    let mut computed = leaf.clone();
    proof {
        assert(sv.skip(0) =~= sv);
        assert(bv.skip(0) =~= bv);
    }
    let n = proof.len();
    let mut i: usize = 0;
    while i < n
        invariant
            n == proof@.len(),
            n == helper@.len(),
            sv == vals_of(proof@),
            bv == vals_of(helper@),
            i <= n,
            tr.sat@ == (prior && all_bits(bv.take(i as int))),
            merkle_chain(val_of(computed), sv.skip(i as int), bv.skip(i as int)) == merkle_chain(
                val_of(*leaf),
                sv,
                bv,
            ),
        decreases n - i,
    {
        let (l, r) = dual_mux(cx, tr, &computed, &proof[i], &helper[i]);
        let mut inp: Vec<Cell> = Vec::new();
        inp.push(l);
        inp.push(r);
        proof {
            lemma_all_bits_take_step(bv, i as int);
            assert(sv.skip(i as int)[0] == sv[i as int]);
            assert(bv.skip(i as int)[0] == bv[i as int]);
            assert(sv.skip(i as int).skip(1) =~= sv.skip(i + 1));
            assert(bv.skip(i as int).skip(1) =~= bv.skip(i + 1));
            assert(vals_of(inp@) =~= seq![
                mux_left(val_of(computed), sv[i as int], bv[i as int]),
                mux_right(val_of(computed), sv[i as int], bv[i as int]),
            ]);
        }
        computed = hash_cells(cx, hasher, &inp);
        i += 1;
    }
    proof {
        assert(bv.take(n as int) =~= bv);
    }
    constrain_equal(cx, tr, &computed, root);
}

/// The limb cells of a public key's two coordinates, in the order the leaf
/// derivation hashes them: all x limbs, then all y limbs.
pub struct PublicKey {
    pub x_limbs: Vec<Cell>,
    pub y_limbs: Vec<Cell>,
}

impl PublicKey {
    /// The leaf the membership check binds this key to: the hash of the x
    /// limbs followed by the y limbs.
    pub open spec fn leaf(&self) -> nat {
        poseidon_of(vals_of(self.x_limbs@) + vals_of(self.y_limbs@))
    }
}

/// The limb values of a coordinate given as 32 little-endian bytes: three
/// limbs of at most 88 bits each, so bytes 0..11, 11..22 and 22..32, least
/// limb first. The offline tree construction must chunk coordinates the same
/// way or its leaves will not match the ones this circuit derives.
pub open spec fn coord_limbs(b: Seq<u8>) -> Seq<nat> {
    seq![
        le_value(b.subrange(0, 11)),
        le_value(b.subrange(11, 22)),
        le_value(b.subrange(22, 32)),
    ]
}

fn sub_bytes(b: &[u8], from: usize, to: usize) -> (r: Vec<u8>)
    requires
        from <= to <= b@.len(),
    ensures
        r@ == b@.subrange(from as int, to as int),
{
    let mut r: Vec<u8> = Vec::new();
    let mut i: usize = from;
    while i < to
        invariant
            from <= i <= to <= b@.len(),
            r@ =~= b@.subrange(from as int, i as int),
        decreases to - i,
    {
        r.push(b[i]);
        proof {
            assert(r@ =~= b@.subrange(from as int, i + 1));
        }
        i += 1;
    }
    r
}

proof fn lemma_limb_small(b: Seq<u8>)
    requires
        b.len() <= 11,
    ensures
        le_value(b) < fr_order(),
        le_value(b) % fr_order() == le_value(b),
{
    lemma_le_value_upper(b);
    lemma2_to64();
    lemma_pow2_adds(64, 24);
    if b.len() < 11 {
        vstd::arithmetic::power2::lemma_pow2_strictly_increases(8 * b.len(), 88);
    }
    assert(pow2(88) < fr_order());
    lemma_small_mod(le_value(b), fr_order());
}

/// Load a public key from the 32-byte little-endian representations of its
/// two coordinates, as one witness cell per 88-bit limb.
pub fn load_public_key(cx: &mut CircuitCtx, x: &[u8], y: &[u8]) -> (r: PublicKey)
    requires
        x@.len() == 32,
        y@.len() == 32,
    ensures
        vals_of(r.x_limbs@) == coord_limbs(x@),
        vals_of(r.y_limbs@) == coord_limbs(y@),
        all_fr(r.x_limbs@),
        all_fr(r.y_limbs@),
{
    let x_limbs = load_coord(cx, x);
    let y_limbs = load_coord(cx, y);
    PublicKey { x_limbs, y_limbs }
}

/// Load a 32-byte little-endian value as one witness cell per 88-bit limb —
/// the form in which coordinates and wide scalars enter the circuit.
pub fn load_coord(cx: &mut CircuitCtx, b: &[u8]) -> (r: Vec<Cell>)
    requires
        b@.len() == 32,
    ensures
        vals_of(r@) == coord_limbs(b@),
        all_fr(r@),
{
    let c0 = sub_bytes(b, 0, 11);
    let c1 = sub_bytes(b, 11, 22);
    let c2 = sub_bytes(b, 22, 32);
    proof {
        lemma_limb_small(c0@);
        lemma_limb_small(c1@);
        lemma_limb_small(c2@);
    }
    let l0 = load_le_bytes(cx, c0.as_slice());
    let l1 = load_le_bytes(cx, c1.as_slice());
    let l2 = load_le_bytes(cx, c2.as_slice());
    let mut r: Vec<Cell> = Vec::new();
    r.push(l0);
    r.push(l1);
    r.push(l2);
    proof {
        assert(vals_of(r@) =~= coord_limbs(b@));
    }
    r
}

/// The limb cells of one curve point's two coordinates.
pub struct PointCells {
    pub x_limbs: Vec<Cell>,
    pub y_limbs: Vec<Cell>,
}

/// The witness structure of one claim: the public root and nullifier claim,
/// the membership path, the message, and the claimant's public key. The
/// nullifier point, the scalar pair `s`/`c` and the message are loaded as
/// witness cells but consumed only by the external nullifier-verification
/// gadget, whose invocation — on the same public-key witness — is pending on
/// its crate; the membership constraints below do not touch them.
pub struct StealthDropInput {
    pub merkle_root: Cell,
    pub nullifier: PointCells,
    pub s: Vec<Cell>,
    pub merkle_proof: Vec<Cell>,
    pub merkle_proof_path: Vec<Cell>,
    pub c: Vec<Cell>,
    pub message: Vec<Cell>,
    pub public_key: PublicKey,
}

impl StealthDropInput {
    /// The sibling path and the selector-bit path pair up level by level.
    pub open spec fn wf(&self) -> bool {
        self.merkle_proof@.len() == self.merkle_proof_path@.len()
    }
}

/// The top-level circuit: derive the leaf from the public key's coordinate
/// limbs with the shared hash gadget, then constrain membership of that leaf
/// under the public root. Afterwards the constraint system is satisfied
/// exactly when it was before, every path selector is a bit, and the chain
/// recomputed from the derived leaf equals the root.
pub fn prove_stealth_drop(
    cx: &mut CircuitCtx,
    hasher: &Hasher,
    tr: &mut Trace,
    input: &StealthDropInput,
)
    requires
        input.wf(),
    ensures
        final(tr).sat@ == (old(tr).sat@ && all_bits(vals_of(input.merkle_proof_path@))
            && merkle_chain(
            input.public_key.leaf(),
            vals_of(input.merkle_proof@),
            vals_of(input.merkle_proof_path@),
        ) == val_of(input.merkle_root)),
{
    let mut preimage: Vec<Cell> = Vec::new();
    let mut i: usize = 0;
    let nx = input.public_key.x_limbs.len();
    while i < nx
        invariant
            i <= nx,
            nx == input.public_key.x_limbs@.len(),
            preimage@ =~= input.public_key.x_limbs@.take(i as int),
        decreases nx - i,
    {
        preimage.push(input.public_key.x_limbs[i].clone());
        i += 1;
    }
    let ny = input.public_key.y_limbs.len();
    let mut j: usize = 0;
    while j < ny
        invariant
            j <= ny,
            ny == input.public_key.y_limbs@.len(),
            preimage@ =~= input.public_key.x_limbs@ + input.public_key.y_limbs@.take(j as int),
        decreases ny - j,
    {
        preimage.push(input.public_key.y_limbs[j].clone());
        j += 1;
    }
    proof {
        assert(preimage@ =~= input.public_key.x_limbs@ + input.public_key.y_limbs@);
        assert(vals_of(preimage@) =~= vals_of(input.public_key.x_limbs@) + vals_of(
            input.public_key.y_limbs@,
        ));
    }
    let leaf = hash_cells(cx, hasher, &preimage);
    verify_membership_proof(
        cx,
        hasher,
        tr,
        &input.merkle_root,
        &leaf,
        input.merkle_proof.as_slice(),
        input.merkle_proof_path.as_slice(),
    );
}

} // verus!
