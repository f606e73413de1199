use stealth_drop::cells::{cell_value_bytes, check_satisfied, new_ctx, new_hasher, Cell, CircuitCtx, Hasher, Trace};
use stealth_drop::gadget::{
    dual_mux, hash_cells, load_coord, load_public_key, prove_stealth_drop,
    verify_membership_proof, PointCells, PublicKey, StealthDropInput,
};
use stealth_drop::parse::{load_field_element, load_message};

fn load_dec(cx: &mut CircuitCtx, s: &str) -> Cell {
    load_field_element(cx, s.as_bytes()).expect("numeral must load")
}

/// Build a complete binary tree over the leaves; returns every level, leaves
/// first, so the last level holds the single root cell.
fn build_tree(cx: &mut CircuitCtx, hasher: &Hasher, leaves: Vec<Cell>) -> Vec<Vec<Cell>> {
    let mut levels = vec![leaves];
    while levels.last().unwrap().len() > 1 {
        let prev = levels.last().unwrap();
        let mut next = Vec::new();
        for k in 0..prev.len() / 2 {
            next.push(hash_cells(cx, hasher, &vec![prev[2 * k].clone(), prev[2 * k + 1].clone()]));
        }
        levels.push(next);
    }
    levels
}

/// The sibling cells and selector-bit cells for the given leaf index: an even
/// node is the left child (bit 1), an odd node the right one (bit 0).
fn proof_for(cx: &mut CircuitCtx, levels: &[Vec<Cell>], mut idx: usize) -> (Vec<Cell>, Vec<Cell>) {
    let mut siblings = Vec::new();
    let mut bits = Vec::new();
    for level in &levels[..levels.len() - 1] {
        siblings.push(level[idx ^ 1].clone());
        bits.push(load_dec(cx, if idx % 2 == 0 { "1" } else { "0" }));
        idx /= 2;
    }
    (siblings, bits)
}

fn pk_bytes(seed: u8) -> ([u8; 32], [u8; 32]) {
    let mut x = [0u8; 32];
    let mut y = [0u8; 32];
    for i in 0..32 {
        x[i] = seed.wrapping_mul(31).wrapping_add(i as u8);
        y[i] = seed.wrapping_mul(17).wrapping_add(2 * i as u8 + 1);
    }
    (x, y)
}

/// A nullifier point and scalar pair; the verified core only carries them.
fn dummy_claim(cx: &mut CircuitCtx) -> (PointCells, Vec<Cell>, Vec<Cell>) {
    let (nx, ny) = pk_bytes(9);
    let nullifier =
        PointCells { x_limbs: load_coord(cx, &nx), y_limbs: load_coord(cx, &ny) };
    let s = load_coord(cx, &[3u8; 32]);
    let c = load_coord(cx, &[5u8; 32]);
    (nullifier, s, c)
}

fn leaf_of_key(cx: &mut CircuitCtx, hasher: &Hasher, pk: &PublicKey) -> Cell {
    let mut preimage: Vec<Cell> = pk.x_limbs.iter().cloned().collect();
    preimage.extend(pk.y_limbs.iter().cloned());
    hash_cells(cx, hasher, &preimage)
}

#[test]
fn selector_orders_pair_by_bit() {
    let mut cx = new_ctx(10);
    let mut tr = Trace::new();
    let a = load_dec(&mut cx, "57");
    let b = load_dec(&mut cx, "15");
    let one = load_dec(&mut cx, "1");
    let zero = load_dec(&mut cx, "0");
    let (l1, r1) = dual_mux(&mut cx, &mut tr, &a, &b, &one);
    assert_eq!(cell_value_bytes(&l1), cell_value_bytes(&a));
    assert_eq!(cell_value_bytes(&r1), cell_value_bytes(&b));
    let (l0, r0) = dual_mux(&mut cx, &mut tr, &a, &b, &zero);
    assert_eq!(cell_value_bytes(&l0), cell_value_bytes(&b));
    assert_eq!(cell_value_bytes(&r0), cell_value_bytes(&a));
    // boundary: equal operands swap to themselves
    let c = load_dec(&mut cx, "88");
    let d = load_dec(&mut cx, "88");
    let (lc, rc) = dual_mux(&mut cx, &mut tr, &c, &d, &zero);
    assert_eq!(cell_value_bytes(&lc), cell_value_bytes(&c));
    assert_eq!(cell_value_bytes(&rc), cell_value_bytes(&c));
    assert!(check_satisfied(&mut cx));
}

#[test]
fn selector_rejects_non_boolean() {
    let mut cx = new_ctx(10);
    let mut tr = Trace::new();
    let a = load_dec(&mut cx, "57");
    let b = load_dec(&mut cx, "15");
    let two = load_dec(&mut cx, "2");
    let _ = dual_mux(&mut cx, &mut tr, &a, &b, &two);
    assert!(!check_satisfied(&mut cx));
}

#[test]
fn empty_path_requires_leaf_equals_root() {
    let mut cx = new_ctx(10);
    let hasher = new_hasher(&mut cx);
    let mut tr = Trace::new();
    let leaf = load_dec(&mut cx, "42");
    let root = load_dec(&mut cx, "42");
    verify_membership_proof(&mut cx, &hasher, &mut tr, &root, &leaf, &[], &[]);
    assert!(check_satisfied(&mut cx));

    let mut cx2 = new_ctx(10);
    let hasher2 = new_hasher(&mut cx2);
    let mut tr2 = Trace::new();
    let leaf2 = load_dec(&mut cx2, "42");
    let root2 = load_dec(&mut cx2, "43");
    verify_membership_proof(&mut cx2, &hasher2, &mut tr2, &root2, &leaf2, &[], &[]);
    assert!(!check_satisfied(&mut cx2));
}

#[test]
fn membership_accepts_true_path() {
    let mut cx = new_ctx(14);
    let hasher = new_hasher(&mut cx);
    let mut tr = Trace::new();
    let leaves: Vec<Cell> = (0..8).map(|i| load_dec(&mut cx, &format!("10{}", i))).collect();
    let leaf3 = leaves[3].clone();
    let levels = build_tree(&mut cx, &hasher, leaves);
    let (siblings, bits) = proof_for(&mut cx, &levels, 3);
    let root = levels.last().unwrap()[0].clone();
    verify_membership_proof(&mut cx, &hasher, &mut tr, &root, &leaf3, &siblings, &bits);
    assert!(check_satisfied(&mut cx));
}

#[test]
fn membership_rejects_wrong_sibling() {
    let mut cx = new_ctx(14);
    let hasher = new_hasher(&mut cx);
    let mut tr = Trace::new();
    let leaves: Vec<Cell> = (0..8).map(|i| load_dec(&mut cx, &format!("10{}", i))).collect();
    let leaf3 = leaves[3].clone();
    let levels = build_tree(&mut cx, &hasher, leaves);
    let (mut siblings, bits) = proof_for(&mut cx, &levels, 3);
    siblings[0] = load_dec(&mut cx, "999");
    let root = levels.last().unwrap()[0].clone();
    verify_membership_proof(&mut cx, &hasher, &mut tr, &root, &leaf3, &siblings, &bits);
    assert!(!check_satisfied(&mut cx));
}

#[test]
fn membership_rejects_flipped_bit() {
    let mut cx = new_ctx(14);
    let hasher = new_hasher(&mut cx);
    let mut tr = Trace::new();
    let leaves: Vec<Cell> = (0..8).map(|i| load_dec(&mut cx, &format!("10{}", i))).collect();
    let leaf3 = leaves[3].clone();
    let levels = build_tree(&mut cx, &hasher, leaves);
    let (siblings, mut bits) = proof_for(&mut cx, &levels, 3);
    bits[0] = load_dec(&mut cx, "1");
    let root = levels.last().unwrap()[0].clone();
    verify_membership_proof(&mut cx, &hasher, &mut tr, &root, &leaf3, &siblings, &bits);
    assert!(!check_satisfied(&mut cx));
}

#[test]
fn membership_rejects_wrong_leaf() {
    let mut cx = new_ctx(14);
    let hasher = new_hasher(&mut cx);
    let mut tr = Trace::new();
    let leaves: Vec<Cell> = (0..8).map(|i| load_dec(&mut cx, &format!("10{}", i))).collect();
    let leaf4 = leaves[4].clone();
    let levels = build_tree(&mut cx, &hasher, leaves);
    let (siblings, bits) = proof_for(&mut cx, &levels, 3);
    let root = levels.last().unwrap()[0].clone();
    verify_membership_proof(&mut cx, &hasher, &mut tr, &root, &leaf4, &siblings, &bits);
    assert!(!check_satisfied(&mut cx));
}

#[test]
fn leaf_derivation_is_deterministic() {
    let mut cx = new_ctx(12);
    let hasher = new_hasher(&mut cx);
    let (x, y) = pk_bytes(3);
    let pk1 = load_public_key(&mut cx, &x, &y);
    let pk2 = load_public_key(&mut cx, &x, &y);
    let leaf1 = leaf_of_key(&mut cx, &hasher, &pk1);
    let leaf2 = leaf_of_key(&mut cx, &hasher, &pk2);
    assert_eq!(cell_value_bytes(&leaf1), cell_value_bytes(&leaf2));
    assert!(check_satisfied(&mut cx));
}

#[test]
fn stealth_drop_accepts_valid_claim() {
    let mut cx = new_ctx(15);
    let hasher = new_hasher(&mut cx);
    let mut tr = Trace::new();
    let keys: Vec<PublicKey> = (0..8)
        .map(|i| {
            let (x, y) = pk_bytes(i);
            load_public_key(&mut cx, &x, &y)
        })
        .collect();
    let leaves: Vec<Cell> = keys.iter().map(|pk| leaf_of_key(&mut cx, &hasher, pk)).collect();
    let levels = build_tree(&mut cx, &hasher, leaves);
    let (siblings, bits) = proof_for(&mut cx, &levels, 3);
    let root = levels.last().unwrap()[0].clone();
    let (x, y) = pk_bytes(3);
    let (nullifier, s, c) = dummy_claim(&mut cx);
    let input = StealthDropInput {
        merkle_root: root,
        nullifier,
        s,
        merkle_proof: siblings,
        merkle_proof_path: bits,
        c,
        message: load_message(&mut cx, b"zk-airdrop"),
        public_key: load_public_key(&mut cx, &x, &y),
    };
    prove_stealth_drop(&mut cx, &hasher, &mut tr, &input);
    assert!(check_satisfied(&mut cx));
}

#[test]
fn stealth_drop_rejects_foreign_key() {
    let mut cx = new_ctx(15);
    let hasher = new_hasher(&mut cx);
    let mut tr = Trace::new();
    let keys: Vec<PublicKey> = (0..8)
        .map(|i| {
            let (x, y) = pk_bytes(i);
            load_public_key(&mut cx, &x, &y)
        })
        .collect();
    let leaves: Vec<Cell> = keys.iter().map(|pk| leaf_of_key(&mut cx, &hasher, pk)).collect();
    let levels = build_tree(&mut cx, &hasher, leaves);
    let (siblings, bits) = proof_for(&mut cx, &levels, 3);
    let root = levels.last().unwrap()[0].clone();
    // a key that is in the tree, but not the one index 3's path belongs to
    let (x, y) = pk_bytes(4);
    let (nullifier, s, c) = dummy_claim(&mut cx);
    let input = StealthDropInput {
        merkle_root: root,
        nullifier,
        s,
        merkle_proof: siblings,
        merkle_proof_path: bits,
        c,
        message: load_message(&mut cx, b"zk-airdrop"),
        public_key: load_public_key(&mut cx, &x, &y),
    };
    prove_stealth_drop(&mut cx, &hasher, &mut tr, &input);
    assert!(!check_satisfied(&mut cx));
}
