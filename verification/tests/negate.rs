use curve25519_ops::ops::ExtPoint;

const BASE: [u8; 32] = [
    0x58, 0x66, 0x66, 0x66, 0x66, 0x66, 0x66, 0x66, 0x66, 0x66, 0x66, 0x66, 0x66, 0x66, 0x66, 0x66,
    0x66, 0x66, 0x66, 0x66, 0x66, 0x66, 0x66, 0x66, 0x66, 0x66, 0x66, 0x66, 0x66, 0x66, 0x66, 0x66,
];

#[test]
fn negation_changes_the_sign_of_the_limbs_of_x_and_t() {
    let before = ExtPoint::from_encoded_point_vartime(&BASE).unwrap();
    let mut pt = ExtPoint::from_encoded_point_vartime(&BASE).unwrap();
    pt.invert_vartime();
    assert_eq!(
        pt.x,
        [-52811034, -25909283, -16144682, -17082669, -27570973, -30858332, -40966398, -8378388, -20764389, -8758491]
    );
    assert_eq!(
        pt.t,
        [-28827043, -27438313, -39759291, -244362, -8635006, -11264893, -19351346, -13413597, -16611511, -27139452]
    );
    assert_eq!(pt.y, before.y);
    assert_eq!(pt.z, before.z);
}

#[test]
fn negating_twice_gives_the_point_back() {
    let before = ExtPoint::from_encoded_point_vartime(&BASE).unwrap();
    let mut pt = ExtPoint::from_encoded_point_vartime(&BASE).unwrap();
    pt.invert_vartime();
    assert_ne!(pt, before);
    pt.invert_vartime();
    assert_eq!(pt, before);
}

#[test]
fn negation_flips_the_sign_bit_of_the_encoding() {
    let mut pt = ExtPoint::from_encoded_point_vartime(&BASE).unwrap();
    pt.invert_vartime();
    let mut expected = BASE;
    expected[31] = 0xe6;
    assert_eq!(pt.into_encoded_point(), expected);
}

#[test]
fn a_negated_point_decodes_from_the_flipped_encoding() {
    let mut flipped = BASE;
    flipped[31] ^= 0x80;
    let mut pt = ExtPoint::from_encoded_point_vartime(&BASE).unwrap();
    pt.invert_vartime();
    let other = ExtPoint::from_encoded_point_vartime(&flipped).unwrap();
    assert_eq!(pt.y, other.y);
    assert_eq!(pt.into_encoded_point(), other.into_encoded_point());
}

#[test]
fn negation_keeps_the_encoding_of_a_point_with_x_zero() {
    let mut bytes = [0u8; 32];
    bytes[0] = 1;
    let mut pt = ExtPoint::from_encoded_point_vartime(&bytes).unwrap();
    pt.invert_vartime();
    assert_eq!(pt.x, [0; 10]);
    assert_eq!(pt.into_encoded_point(), bytes);
}

#[test]
fn negation_of_the_identity_is_the_identity() {
    let mut pt = ExtPoint::new_at_infinity();
    pt.invert_vartime();
    assert_eq!(pt, ExtPoint::new_at_infinity());
}

#[test]
fn negation_reaches_the_ends_of_the_symmetric_range() {
    let mut pt = ExtPoint { x: [i32::MAX; 10], y: [i32::MIN; 10], z: [i32::MIN; 10], t: [-i32::MAX; 10] };
    pt.invert_vartime();
    assert_eq!(pt.x, [-i32::MAX; 10]);
    assert_eq!(pt.t, [i32::MAX; 10]);
    assert_eq!(pt.y, [i32::MIN; 10]);
    assert_eq!(pt.z, [i32::MIN; 10]);
}
