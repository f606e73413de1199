//! The boundary to the circuit-building library: the shared builder context,
//! assigned cells, arithmetic and hashing operations, and a ghost record of
//! whether the constraints emitted so far hold of the assigned witness
//! values.

use vstd::prelude::*;
use crate::field::{is_bit, is_fr, fr_order, mul_addm, subm};
use crate::parse::le_value;
use halo2_base::gates::circuit::builder::BaseCircuitBuilder;
use halo2_base::gates::{GateChip, GateInstructions};
use halo2_base::halo2_proofs::dev::MockProver;
use halo2_base::halo2_proofs::halo2curves::bn256::Fr;
use halo2_base::halo2_proofs::halo2curves::ff::FromUniformBytes;
use halo2_base::poseidon::hasher::spec::OptimizedPoseidonSpec;
use halo2_base::poseidon::hasher::PoseidonHasher;
use halo2_base::utils::ScalarField;
use halo2_base::AssignedValue;

verus! {

/// The shared constraint-system context every gadget call allocates into: one
/// virtual region of advice cells plus the basic arithmetic gate. Operation
/// order determines cell indices, so one proof instance owns one context, and
/// cells and hashers must only ever be used with the context they were made
/// in: a cell of one context means nothing to the builder of another.
#[verifier::external_body]
pub struct CircuitCtx {
    builder: BaseCircuitBuilder<Fr>,
    gate: GateChip<Fr>,
    k: u32,
}

/// One assigned value in the constraint system.
#[verifier::external_body]
pub struct Cell {
    inner: AssignedValue<Fr>,
}

impl Clone for Cell {
    /// Relies on halo2_base's AssignedValue being a plain copyable value: the
    /// clone is the same cell.
    #[verifier::external_body]
    fn clone(&self) -> (r: Cell)
        ensures
            r == *self,
    {
        Cell { inner: self.inner }
    }
}

/// The field element an assigned cell carries, as a natural number in
/// canonical form. A cell stores its value, so this is a function of the cell
/// alone; the trusted operations below say how the cells they return relate
/// to the cells they were given.
pub uninterp spec fn val_of(a: Cell) -> nat;

/// The values carried by a sequence of cells.
pub open spec fn vals_of(cs: Seq<Cell>) -> Seq<nat> {
    cs.map_values(|c: Cell| val_of(c))
}

/// Every cell of the sequence carries a canonical field element.
pub open spec fn all_fr(cs: Seq<Cell>) -> bool {
    forall|i: int| 0 <= i < cs.len() ==> is_fr(#[trigger] val_of(cs[i]))
}

/// Ghost record of the constraint system built so far: `sat` says whether
/// every constraint emitted up to now holds of the assigned witness values.
pub struct Trace {
    pub sat: Ghost<bool>,
}

impl Trace {
    /// An empty constraint system is satisfied.
    pub fn new() -> (t: Trace)
        ensures
            t.sat@,
    {
        Trace { sat: Ghost(true) }
    }
}

/// What the fixed-arity hash gadget returns on a sequence of input values.
/// Every hasher of this library is initialized with one and the same
/// permutation spec, so the result is a function of the inputs alone.
pub uninterp spec fn poseidon_of(inputs: Seq<nat>) -> nat;

/// The shared hash gadget. The wrapped hasher is private so that it can only
/// come from [`new_hasher`], which always initializes the same permutation.
#[verifier::external_body]
pub struct Hasher {
    inner: PoseidonHasher<Fr, 3, 2>,
}

/// Relies on halo2_base's BaseCircuitBuilder::new/use_k and GateChip::new: a
/// fresh mock-proving builder with `2^k` rows and no constraints yet. Fewer
/// than 16 rows cannot hold the blinding rows the prover reserves, so the
/// satisfiability check would fail on the row arithmetic rather than answer.
#[verifier::external_body]
pub fn new_ctx(k: u32) -> CircuitCtx
    requires
        4 <= k,
{
    let builder = BaseCircuitBuilder::new(false).use_k(k as usize);
    CircuitCtx { builder, gate: GateChip::new(), k }
}

/// Relies on halo2_base's MockProver: whether every constraint emitted into
/// this context holds of the assigned witness values (false also when the
/// circuit does not fit the configured number of rows). Nothing is assumed of
/// the answer; tests hold it against the contracts of the gadgets.
#[verifier::external_body]
pub fn check_satisfied(cx: &mut CircuitCtx) -> bool {
    cx.builder.config_params.lookup_bits = None;
    cx.builder.calculate_params(Some(9));
    match MockProver::run(cx.k, &cx.builder, vec![]) {
        Ok(prover) => prover.verify().is_ok(),
        Err(_) => false,
    }
}

/// Relies on halo2_base's PoseidonHasher::new and initialize_consts: the
/// hasher is built from the standard optimized Poseidon spec with 8 full and
/// 57 partial rounds, and its round constants are loaded once, so every hasher
/// this library hands out computes one and the same permutation.
#[verifier::external_body]
pub fn new_hasher(cx: &mut CircuitCtx) -> Hasher {
    let mut inner = PoseidonHasher::new(OptimizedPoseidonSpec::new::<8, 57, 0>());
    inner.initialize_consts(cx.builder.main(0), &cx.gate);
    Hasher { inner }
}

/// Relies on halo2_base's PoseidonHasher::hash_fix_len_array: the returned
/// cell is assigned the fixed-length Poseidon hash of the input values, and
/// the constraints it emits hold of exactly the values it assigned.
#[verifier::external_body]
pub(crate) fn hash_cells_raw(cx: &mut CircuitCtx, hasher: &Hasher, inputs: &Vec<Cell>) -> (r: Cell)
    ensures
        val_of(r) == poseidon_of(vals_of(inputs@)),
        is_fr(val_of(r)),
{
    let vals: Vec<AssignedValue<Fr>> = inputs.iter().map(|c| c.inner).collect();
    Cell { inner: hasher.inner.hash_fix_len_array(cx.builder.main(0), &cx.gate, &vals) }
}

/// Relies on halo2_base's GateInstructions::sub: the returned cell is assigned
/// the field difference of the inputs, and the constraint it emits holds of
/// exactly the values it assigned.
#[verifier::external_body]
pub(crate) fn gate_sub(cx: &mut CircuitCtx, a: &Cell, b: &Cell) -> (r: Cell)
    ensures
        val_of(r) == subm(val_of(*a), val_of(*b)),
        is_fr(val_of(r)),
{
    Cell { inner: cx.gate.sub(cx.builder.main(0), a.inner, b.inner) }
}

/// Relies on halo2_base's GateInstructions::mul_add: the returned cell is
/// assigned `a * b + c` in the field, and the constraint it emits holds of
/// exactly the values it assigned.
#[verifier::external_body]
pub(crate) fn gate_mul_add(cx: &mut CircuitCtx, a: &Cell, b: &Cell, c: &Cell) -> (r: Cell)
    ensures
        val_of(r) == mul_addm(val_of(*a), val_of(*b), val_of(*c)),
        is_fr(val_of(r)),
{
    Cell { inner: cx.gate.mul_add(cx.builder.main(0), a.inner, b.inner, c.inner) }
}

/// Relies on halo2_base's GateInstructions::assert_bit: it emits the
/// constraint `x * x == x`, which holds in a prime field exactly when the
/// assigned value is 0 or 1.
#[verifier::external_body]
pub(crate) fn gate_assert_bit(cx: &mut CircuitCtx, tr: &mut Trace, x: &Cell)
    ensures
        final(tr).sat@ == (old(tr).sat@ && is_bit(val_of(*x))),
{
    cx.gate.assert_bit(cx.builder.main(0), x.inner);
}

/// Relies on halo2_base's Context::constrain_equal: it emits an equality
/// constraint between the two cells, which holds exactly when their assigned
/// values are equal.
#[verifier::external_body]
pub(crate) fn constrain_equal(cx: &mut CircuitCtx, tr: &mut Trace, a: &Cell, b: &Cell)
    ensures
        final(tr).sat@ == (old(tr).sat@ && val_of(*a) == val_of(*b)),
{
    cx.builder.main(0).constrain_equal(&a.inner, &b.inner);
}

/// Relies on halo2curves' Fr::from_uniform_bytes and halo2_base's
/// Context::load_witness: the returned cell is a fresh, unconstrained witness
/// assigned the little-endian value of the bytes reduced by the field order.
#[verifier::external_body]
pub(crate) fn load_le_bytes(cx: &mut CircuitCtx, bytes: &[u8]) -> (r: Cell)
    requires
        bytes@.len() <= 64,
    ensures
        val_of(r) == le_value(bytes@) % fr_order(),
        is_fr(val_of(r)),
{
    let mut buf = [0u8; 64];
    buf[..bytes.len()].copy_from_slice(bytes);
    let v = Fr::from_uniform_bytes(&buf);
    Cell { inner: cx.builder.main(0).load_witness(v) }
}

/// Relies on halo2_base's ScalarField::to_bytes_le: the canonical 32-byte
/// little-endian representation of the value the cell carries.
#[verifier::external_body]
pub fn cell_value_bytes(c: &Cell) -> (r: Vec<u8>)
    ensures
        r@.len() == 32,
        le_value(r@) == val_of(*c),
{
    c.inner.value().to_bytes_le()
}

} // verus!
