use privacy_pay::bn254::{
    append_bytes, g1_add, g1_negate, g1_scalar_mul, is_all_zero, is_pairing_one, pairing_check,
    word_at,
};
use privacy_pay::field::{
    base_field_modulus_bytes, be_less_than, be_sub, scalar_field_order_bytes,
};

fn hex_bytes(text: &str) -> Vec<u8> {
    let bytes = text.as_bytes();
    assert_eq!(bytes.len() % 2, 0);
    let mut out = Vec::new();
    for i in 0..bytes.len() / 2 {
        let hi = (bytes[2 * i] as char).to_digit(16).unwrap() as u8;
        let lo = (bytes[2 * i + 1] as char).to_digit(16).unwrap() as u8;
        out.push(hi * 16 + lo);
    }
    out
}

fn word(last: u8) -> [u8; 32] {
    let mut out = [0u8; 32];
    out[31] = last;
    out
}

fn g1_generator() -> [u8; 64] {
    let mut out = [0u8; 64];
    out[31] = 1;
    out[63] = 2;
    out
}

fn g1(text: &str) -> [u8; 64] {
    let bytes = hex_bytes(text);
    let mut out = [0u8; 64];
    out.copy_from_slice(&bytes);
    out
}

fn g2_generator() -> Vec<u8> {
    hex_bytes(
        "198e9393920d483a7260bfb731fb5d25f1aa493335a9e71297e485b7aef312c2\
         1800deef121f1e76426a00665e5c4479674322d4f75edadd46debd5cd992f6ed\
         090689d0585ff075ec9e99ad690c3395bc4b313370b38ef355acdadcd122975b\
         12c85ea5db8c6deb4aab71808dcb408fe3d1e7690c43d37b4ce6cc0166fa7daa",
    )
}

#[test]
fn moduli_are_those_of_bn254() {
    assert_eq!(
        base_field_modulus_bytes().to_vec(),
        hex_bytes("30644e72e131a029b85045b68181585d97816a916871ca8d3c208c16d87cfd47")
    );
    assert_eq!(
        scalar_field_order_bytes().to_vec(),
        hex_bytes("30644e72e131a029b85045b68181585d2833e84879b9709143e1f593f0000001")
    );
}

#[test]
fn be_sub_subtracts_with_borrow_across_bytes() {
    let mut a = [0u8; 32];
    a[30] = 1; // 256
    let (diff, borrowed) = be_sub(&a, &word(1));
    assert!(!borrowed);
    assert_eq!(diff, word(255));

    let (diff, borrowed) = be_sub(&word(9), &word(9));
    assert!(!borrowed);
    assert_eq!(diff, [0u8; 32]);

    let mut top = [0u8; 32];
    top[0] = 1;
    let (diff, borrowed) = be_sub(&top, &word(1));
    assert!(!borrowed);
    let mut expected = [0xffu8; 32];
    expected[0] = 0;
    assert_eq!(diff, expected);

    let (_, borrowed) = be_sub(&word(1), &word(2));
    assert!(borrowed);
    let (_, borrowed) = be_sub(&word(255), &a);
    assert!(borrowed);
}

#[test]
fn be_sub_of_modulus_and_two() {
    let (diff, borrowed) = be_sub(&base_field_modulus_bytes(), &word(2));
    assert!(!borrowed);
    assert_eq!(
        diff.to_vec(),
        hex_bytes("30644e72e131a029b85045b68181585d97816a916871ca8d3c208c16d87cfd45")
    );
}

#[test]
fn be_less_than_orders_by_the_most_significant_byte_first() {
    let mut high = [0u8; 32];
    high[0] = 1;
    let low = [0xffu8; 32];
    let mut low0 = low;
    low0[0] = 0;
    assert!(be_less_than(&low0, &high));
    assert!(!be_less_than(&high, &low0));
    assert!(be_less_than(&high, &low));
    assert!(!be_less_than(&word(5), &word(5)));
    assert!(be_less_than(&word(4), &word(5)));
    assert!(be_less_than(&scalar_field_order_bytes(), &base_field_modulus_bytes()));
}

#[test]
fn append_and_word_at_move_bytes_unchanged() {
    let mut buffer = vec![1u8, 2];
    append_bytes(&mut buffer, &[3, 4, 5]);
    assert_eq!(buffer, vec![1, 2, 3, 4, 5]);
    append_bytes(&mut buffer, &[]);
    assert_eq!(buffer.len(), 5);
    let mut source = vec![0u8; 40];
    for i in 0..40 {
        source[i] = i as u8;
    }
    let picked = word_at(&source, 8);
    assert_eq!(picked[0], 8);
    assert_eq!(picked[31], 39);
    assert!(is_all_zero(&[0, 0, 0]));
    assert!(is_all_zero(&[]));
    assert!(!is_all_zero(&[0, 0, 1]));
}

#[test]
fn g1_add_doubles_the_generator() {
    let g = g1_generator();
    let twice = g1(
        "030644e72e131a029b85045b68181585d97816a916871ca8d3c208c16d87cfd3\
         15ed738c0e0a7c92e7845f96b2ae9c0a68a6a449e3538fc7ff3ebf7a5a18a2c4",
    );
    assert_eq!(g1_add(&g, &g), Some(twice));
    assert_eq!(g1_scalar_mul(&g, &word(2)), Some(twice));
    assert_eq!(g1_add(&g, &[0u8; 64]), Some(g));
    assert_eq!(g1_add(&twice, &g), g1_scalar_mul(&g, &word(3)));
}

#[test]
fn g1_add_takes_its_inputs_in_order() {
    // Vector of the addition precompile: P + Q.
    let p = g1(
        "18b18acfb4c2c30276db5411368e7185b311dd124691610c5d3b74034e093dc9\
         063c909c4720840cb5134cb9f59fa749755796819658d32efc0d288198f37266",
    );
    let q = g1(
        "07c2b7f58a84bd6145f00c9c2bc0bb1a187f20ff2c92963a88019e7c6a014eed\
         06614e20c147e940f2d70da3f74c9a17df361706a4485c742bd6788478fa17d7",
    );
    let sum = g1(
        "2243525c5efd4b9c3d3c45ac0ca3fe4dd85e830a4ce6b65fa1eeaee202839703\
         301d1d33be6da8e509df21cc35964723180eed7532537db9ae5e7d48f195c915",
    );
    assert_eq!(g1_add(&p, &q), Some(sum));
    assert_ne!(g1_add(&p, &q), Some(p));
}

#[test]
fn curve_operations_refuse_points_off_the_curve() {
    let mut off = g1_generator();
    off[63] = 3;
    assert_eq!(g1_add(&off, &g1_generator()), None);
    assert_eq!(g1_scalar_mul(&off, &word(2)), None);
}

#[test]
fn scalar_mul_by_the_group_order_gives_infinity() {
    let g = g1_generator();
    assert_eq!(
        g1_scalar_mul(&g, &scalar_field_order_bytes()),
        Some([0u8; 64])
    );
    assert_eq!(g1_scalar_mul(&g, &word(0)), Some([0u8; 64]));
    assert_eq!(g1_scalar_mul(&g, &word(1)), Some(g));
}

#[test]
fn g1_negate_mirrors_the_second_coordinate() {
    let g = g1_generator();
    let minus_g = g1(
        "0000000000000000000000000000000000000000000000000000000000000001\
         30644e72e131a029b85045b68181585d97816a916871ca8d3c208c16d87cfd45",
    );
    assert_eq!(g1_negate(&g), Some(minus_g));
    assert_eq!(g1_negate(&minus_g), Some(g));
    assert_eq!(g1_add(&g, &minus_g), Some([0u8; 64]));
    assert_eq!(g1_negate(&[0u8; 64]), Some([0u8; 64]));
}

#[test]
fn g1_negate_refuses_a_coordinate_above_the_modulus() {
    let mut p = [0u8; 64];
    p[31] = 1;
    for i in 32..64 {
        p[i] = 0xff;
    }
    assert_eq!(g1_negate(&p), None);
    // The modulus itself mirrors to zero.
    let mut q = [0u8; 64];
    q[31] = 1;
    q[32..64].copy_from_slice(&base_field_modulus_bytes());
    let mut expected = [0u8; 64];
    expected[31] = 1;
    assert_eq!(g1_negate(&q), Some(expected));
}

#[test]
fn is_pairing_one_accepts_only_the_number_one() {
    let mut one = vec![0u8; 32];
    one[31] = 1;
    assert!(is_pairing_one(&one));
    assert!(!is_pairing_one(&vec![0u8; 32]));
    let mut two = vec![0u8; 32];
    two[31] = 2;
    assert!(!is_pairing_one(&two));
    let mut high = one.clone();
    high[0] = 1;
    assert!(!is_pairing_one(&high));
    assert!(!is_pairing_one(&vec![1u8]));
    assert!(!is_pairing_one(&vec![]));
    let mut long = vec![0u8; 33];
    long[32] = 1;
    assert!(!is_pairing_one(&long));
}

#[test]
fn pairing_of_a_point_and_its_inverse_cancels() {
    let g = g1_generator();
    let minus_g = g1_negate(&g).unwrap();
    let mut input = Vec::new();
    input.extend_from_slice(&minus_g);
    input.extend_from_slice(&g2_generator());
    input.extend_from_slice(&g);
    input.extend_from_slice(&g2_generator());
    assert!(pairing_check(&input));

    let mut single = Vec::new();
    single.extend_from_slice(&g);
    single.extend_from_slice(&g2_generator());
    assert!(!pairing_check(&single));

    let mut doubled = Vec::new();
    doubled.extend_from_slice(&g);
    doubled.extend_from_slice(&g2_generator());
    doubled.extend_from_slice(&g);
    doubled.extend_from_slice(&g2_generator());
    assert!(!pairing_check(&doubled));
}

#[test]
fn pairing_check_refuses_points_off_the_curve() {
    let mut bad = g1_generator();
    bad[63] = 3;
    let mut input = Vec::new();
    input.extend_from_slice(&bad);
    input.extend_from_slice(&g2_generator());
    assert!(!pairing_check(&input));
}
