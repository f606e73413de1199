use stealth_drop::cells::{cell_value_bytes, new_ctx};
use stealth_drop::parse::{dec_to_coord_bytes, load_field_element, load_message};

fn value_of(bytes: &[u8]) -> Vec<u8> {
    let mut cx = new_ctx(10);
    let cell = load_field_element(&mut cx, bytes).expect("numeral must load");
    cell_value_bytes(&cell)
}

fn le32(mut n: u128) -> Vec<u8> {
    let mut out = vec![0u8; 32];
    for b in out.iter_mut() {
        *b = (n & 0xff) as u8;
        n >>= 8;
    }
    out
}

#[test]
fn small_numeral_loads_exactly() {
    assert_eq!(value_of(b"57"), le32(57));
    assert_eq!(value_of(b"0"), le32(0));
    assert_eq!(value_of(b"340282366920938463463374607431768211455"), {
        let mut v = vec![0xffu8; 16];
        v.extend(vec![0u8; 16]);
        v
    });
}

#[test]
fn numeral_is_reduced_by_field_order() {
    // the field order plus one reduces to one
    let p_plus_1 = b"21888242871839275222246405745257275088548364400416034343698204186575808495618";
    assert_eq!(value_of(p_plus_1), le32(1));
}

#[test]
fn malformed_numerals_are_rejected() {
    let mut cx = new_ctx(10);
    assert!(load_field_element(&mut cx, b"").is_none());
    assert!(load_field_element(&mut cx, b"12a").is_none());
    assert!(load_field_element(&mut cx, b"+5").is_none());
    assert!(load_field_element(&mut cx, b"1 2").is_none());
}

#[test]
fn oversized_numeral_is_rejected() {
    let mut cx = new_ctx(10);
    // 2^512 needs 65 bytes; this is 10^160
    let mut huge = vec![b'1'];
    huge.extend(std::iter::repeat(b'0').take(160));
    assert!(load_field_element(&mut cx, &huge).is_none());
}

#[test]
fn message_cells_carry_bytes() {
    let mut cx = new_ctx(10);
    let cells = load_message(&mut cx, b"zk-airdrop");
    assert_eq!(cells.len(), 10);
    for (cell, byte) in cells.iter().zip(b"zk-airdrop".iter()) {
        assert_eq!(cell_value_bytes(cell), le32(*byte as u128));
    }
}

#[test]
fn coordinate_bytes_round_trip() {
    let b = dec_to_coord_bytes(b"57").expect("small numeral must fit");
    assert_eq!(b, le32(57));
    // 2^256 needs 33 bytes
    let too_big =
        b"115792089237316195423570985008687907853269984665640564039457584007913129639936";
    assert!(dec_to_coord_bytes(too_big).is_none());
    let max = b"115792089237316195423570985008687907853269984665640564039457584007913129639935";
    assert_eq!(dec_to_coord_bytes(max).expect("max value fits"), vec![0xffu8; 32]);
    assert!(dec_to_coord_bytes(b"").is_none());
    assert!(dec_to_coord_bytes(b"9a").is_none());
}
