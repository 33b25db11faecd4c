use tornado_halo2::field::Fe;
use tornado_halo2::reference::{compute_root, hash_value, hash_values};

#[test]
fn field_small_arithmetic() {
    let a = Fe::from_u64(11);
    let b = Fe::from_u64(7);
    assert!(a.mul(&b).equals(&Fe::from_u64(77)));
    assert!(a.add(&b).equals(&Fe::from_u64(18)));
    assert!(a.sub(&b).equals(&Fe::from_u64(4)));
    assert!(!a.equals(&b));
    assert!(Fe::zero().equals(&Fe::from_u64(0)));
    assert!(Fe::one().equals(&Fe::from_u64(1)));
}

#[test]
fn field_wraps_modulo_prime() {
    let minus_two = Fe::from_u64(5).sub(&Fe::from_u64(7));
    let expected: [u8; 32] = [
        255, 255, 255, 255, 236, 48, 45, 153, 27, 249, 76, 9, 252, 152, 70, 34, 0, 0, 0, 0, 0, 0,
        0, 0, 0, 0, 0, 0, 0, 0, 0, 64,
    ];
    assert_eq!(minus_two.to_bytes(), expected);
    assert!(minus_two.add(&Fe::from_u64(2)).equals(&Fe::zero()));
}

#[test]
fn field_encoding_is_little_endian() {
    let mut expected = [0u8; 32];
    expected[0] = 0x34;
    expected[1] = 0x12;
    assert_eq!(Fe::from_u64(0x1234).to_bytes(), expected);
}

#[test]
fn reference_hashes() {
    assert!(hash_value(Fe::from_u64(0x456)).equals(&Fe::from_u64(1_232_100)));
    assert!(hash_values(&vec![]).equals(&Fe::one()));
    let values = vec![Fe::from_u64(2), Fe::from_u64(3), Fe::from_u64(4)];
    assert!(hash_values(&values).equals(&Fe::from_u64(24)));
}

#[test]
fn reference_root_matches_product() {
    let elements: Vec<Fe> = [2u64, 7, 6, 5, 5, 4].iter().map(|v| Fe::from_u64(*v)).collect();
    let indices: Vec<Fe> = [0u64, 1, 1, 0, 1, 0].iter().map(|v| Fe::from_u64(*v)).collect();
    let root = compute_root(Fe::from_u64(123), &elements, &indices);
    assert!(root.equals(&Fe::from_u64(1_033_200)));
    let empty: Vec<Fe> = Vec::new();
    assert!(compute_root(Fe::from_u64(9), &empty, &empty).equals(&Fe::from_u64(9)));
}
