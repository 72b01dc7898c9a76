use curve25519_ops::carry::carry_wide;
use curve25519_ops::elem::{elem_to_limbs, limbs_to_elem};
use curve25519_ops::limbs::Fe51;
use curve25519_ops::wire::sign_bit;

const A: [u8; 32] = [
    0xef, 0xcd, 0xab, 0x90, 0x78, 0x56, 0x34, 0x12, 0xef, 0xcd, 0xab, 0x90, 0x78, 0x56, 0x34, 0x12,
    0xef, 0xcd, 0xab, 0x90, 0x78, 0x56, 0x34, 0x12, 0xef, 0xcd, 0xab, 0x90, 0x78, 0x56, 0x34, 0x12,
];

const B: [u8; 32] = [
    0x21, 0x43, 0x65, 0x87, 0xa9, 0xcb, 0xed, 0x0f, 0x21, 0x43, 0x65, 0x87, 0xa9, 0xcb, 0xed, 0x0f,
    0x21, 0x43, 0x65, 0x87, 0xa9, 0xcb, 0xed, 0x0f, 0x21, 0x43, 0x65, 0x87, 0xa9, 0xcb, 0xed, 0x0f,
];

const P_MINUS_ONE: [u8; 32] = [
    0xec, 0xff, 0xff, 0xff, 0xff, 0xff, 0xff, 0xff, 0xff, 0xff, 0xff, 0xff, 0xff, 0xff, 0xff, 0xff,
    0xff, 0xff, 0xff, 0xff, 0xff, 0xff, 0xff, 0xff, 0xff, 0xff, 0xff, 0xff, 0xff, 0xff, 0xff, 0x7f,
];

fn bytes_of(f: &Fe51) -> [u8; 32] {
    f.freeze().to_bytes(false)
}

fn small(n: u8) -> [u8; 32] {
    let mut bytes = [0u8; 32];
    bytes[0] = n;
    bytes
}

#[test]
fn bytes_go_to_limbs_and_back() {
    for bytes in [A, B, P_MINUS_ONE, [0u8; 32]] {
        let f = Fe51::from_bytes(&bytes);
        assert!(f.below_prime());
        assert_eq!(f.to_bytes(false), bytes);
    }
}

#[test]
fn from_bytes_cuts_at_51_bits() {
    let f = Fe51::from_bytes(&A);
    assert_eq!(
        (f.l0, f.l1, f.l2, f.l3, f.l4),
        (0x4567890abcdef, 0x7121579bde246, 0x2af37bc48d159, 0x6f7891a2b3c48, 0x1234567890abc)
    );
}

#[test]
fn from_bytes_leaves_the_sign_bit_out() {
    let mut bytes = A;
    bytes[31] |= 0x80;
    assert!(sign_bit(&bytes));
    assert!(!sign_bit(&A));
    assert_eq!(Fe51::from_bytes(&bytes).to_bytes(false), A);
    assert_eq!(Fe51::from_bytes(&bytes).to_bytes(true), bytes);
}

#[test]
fn below_prime_tells_the_prime_from_its_predecessor() {
    let mut p = P_MINUS_ONE;
    p[0] = 0xed;
    assert!(Fe51::from_bytes(&P_MINUS_ONE).below_prime());
    assert!(!Fe51::from_bytes(&p).below_prime());
    assert!(!Fe51::from_bytes(&[0xffu8; 32]).below_prime());
}

#[test]
fn product_of_two_elements() {
    let a = Fe51::from_bytes(&A);
    let b = Fe51::from_bytes(&B);
    let expected = [
        0xf0, 0xa1, 0x9f, 0xa5, 0x0a, 0xb9, 0xcf, 0x0a, 0x3e, 0xea, 0x08, 0x85, 0x25, 0x4a, 0xf9, 0xee,
        0x89, 0x32, 0x72, 0x64, 0x40, 0xdb, 0x22, 0xd3, 0xd5, 0x7a, 0xdb, 0x43, 0x5b, 0x6c, 0x4c, 0x37,
    ];
    assert_eq!(bytes_of(&a.mul(&b)), expected);
    assert_eq!(bytes_of(&b.mul(&a)), expected);
}

#[test]
fn square_is_the_product_with_itself() {
    let a = Fe51::from_bytes(&A);
    assert_eq!(bytes_of(&a.square()), bytes_of(&a.mul(&a)));
    let m = Fe51::from_bytes(&P_MINUS_ONE);
    assert_eq!(bytes_of(&m.square()), small(1));
}

#[test]
fn sum_and_difference_of_two_elements() {
    let a = Fe51::from_bytes(&A);
    let b = Fe51::from_bytes(&B);
    assert_eq!(
        bytes_of(&a.plus(&b)),
        [
            0x10, 0x11, 0x11, 0x18, 0x22, 0x22, 0x22, 0x22, 0x10, 0x11, 0x11, 0x18, 0x22, 0x22, 0x22, 0x22,
            0x10, 0x11, 0x11, 0x18, 0x22, 0x22, 0x22, 0x22, 0x10, 0x11, 0x11, 0x18, 0x22, 0x22, 0x22, 0x22
        ]
    );
    assert_eq!(
        bytes_of(&a.minus(&b)),
        [
            0xce, 0x8a, 0x46, 0x09, 0xcf, 0x8a, 0x46, 0x02, 0xce, 0x8a, 0x46, 0x09, 0xcf, 0x8a, 0x46, 0x02,
            0xce, 0x8a, 0x46, 0x09, 0xcf, 0x8a, 0x46, 0x02, 0xce, 0x8a, 0x46, 0x09, 0xcf, 0x8a, 0x46, 0x02
        ]
    );
    assert_eq!(
        bytes_of(&b.minus(&a)),
        [
            0x1f, 0x75, 0xb9, 0xf6, 0x30, 0x75, 0xb9, 0xfd, 0x31, 0x75, 0xb9, 0xf6, 0x30, 0x75, 0xb9, 0xfd,
            0x31, 0x75, 0xb9, 0xf6, 0x30, 0x75, 0xb9, 0xfd, 0x31, 0x75, 0xb9, 0xf6, 0x30, 0x75, 0xb9, 0x7d
        ]
    );
}

#[test]
fn negative_of_an_element() {
    let a = Fe51::from_bytes(&A);
    assert_eq!(
        bytes_of(&a.negated()),
        [
            0xfe, 0x31, 0x54, 0x6f, 0x87, 0xa9, 0xcb, 0xed, 0x10, 0x32, 0x54, 0x6f, 0x87, 0xa9, 0xcb, 0xed,
            0x10, 0x32, 0x54, 0x6f, 0x87, 0xa9, 0xcb, 0xed, 0x10, 0x32, 0x54, 0x6f, 0x87, 0xa9, 0xcb, 0x6d
        ]
    );
    assert_eq!(bytes_of(&Fe51::zero().negated()), [0u8; 32]);
    assert_eq!(bytes_of(&Fe51::one().negated()), P_MINUS_ONE);
}

#[test]
fn inverse_of_an_element() {
    let a = Fe51::from_bytes(&A);
    let inv = a.invert();
    assert_eq!(
        bytes_of(&inv),
        [
            0xe1, 0xce, 0xfa, 0xfe, 0xcb, 0x37, 0xf6, 0x1e, 0x41, 0xc5, 0x4b, 0xa0, 0x3b, 0xb6, 0xcd, 0x6a,
            0xea, 0xc0, 0xc8, 0x25, 0xcf, 0xdd, 0x63, 0xdd, 0xa2, 0xf2, 0xc9, 0xad, 0x64, 0xad, 0x3a, 0x3f
        ]
    );
    assert_eq!(bytes_of(&a.mul(&inv)), small(1));
}

#[test]
fn inverse_of_zero_and_of_one() {
    assert_eq!(bytes_of(&Fe51::zero().invert()), [0u8; 32]);
    assert_eq!(bytes_of(&Fe51::one().invert()), small(1));
}

#[test]
fn the_root_exponent() {
    let a = Fe51::from_bytes(&A);
    assert_eq!(
        bytes_of(&a.pow_p58()),
        [
            0x44, 0x41, 0xf2, 0x7b, 0x9a, 0x04, 0xdc, 0xa7, 0x48, 0x3c, 0xbd, 0x73, 0x87, 0xba, 0x25, 0xa8,
            0x5d, 0x33, 0x24, 0x49, 0xdf, 0x7e, 0xa7, 0x08, 0x4d, 0xb2, 0x0a, 0x0b, 0x23, 0x61, 0xc1, 0x35
        ]
    );
}

#[test]
fn repeated_squaring() {
    let a = Fe51::from_bytes(&A);
    assert_eq!(bytes_of(&a.pow2k(0)), A);
    assert_eq!(bytes_of(&a.pow2k(1)), bytes_of(&a.square()));
    assert_eq!(
        bytes_of(&a.pow2k(10)),
        [
            0xdd, 0x2d, 0xfc, 0x62, 0x0f, 0x0b, 0xf0, 0xf4, 0xf9, 0x62, 0x3a, 0xad, 0x5a, 0x52, 0x90, 0xac,
            0xf5, 0x34, 0x82, 0x62, 0xb9, 0x44, 0x5c, 0x65, 0x4b, 0x71, 0x70, 0x33, 0x8d, 0x95, 0x52, 0x26
        ]
    );
}

#[test]
fn the_inverse_is_built_on_the_long_power() {
    // a^(2^250 - 1) squared five times, times a^11, is the inverse.
    let a = Fe51::from_bytes(&A);
    let a2 = a.square();
    let a11 = a2.square().square().mul(&a).mul(&a2);
    assert_eq!(bytes_of(&a.pow_mersenne_250().pow2k(5).mul(&a11)), bytes_of(&a.invert()));
}

#[test]
fn the_curve_constants() {
    assert_eq!(
        Fe51::curve_constant().to_bytes(false),
        [
            0xa3, 0x78, 0x59, 0x13, 0xca, 0x4d, 0xeb, 0x75, 0xab, 0xd8, 0x41, 0x41, 0x4d, 0x0a, 0x70, 0x00,
            0x98, 0xe8, 0x79, 0x77, 0x79, 0x40, 0xc7, 0x8c, 0x73, 0xfe, 0x6f, 0x2b, 0xee, 0x6c, 0x03, 0x52
        ]
    );
    assert_eq!(
        Fe51::root_of_minus_one().to_bytes(false),
        [
            0xb0, 0xa0, 0x0e, 0x4a, 0x27, 0x1b, 0xee, 0xc4, 0x78, 0xe4, 0x2f, 0xad, 0x06, 0x18, 0x43, 0x2f,
            0xa7, 0xd7, 0xfb, 0x3d, 0x99, 0x00, 0x4d, 0x2b, 0x0b, 0xdf, 0xc1, 0x4f, 0x80, 0x24, 0x83, 0x2b
        ]
    );
    assert_eq!(bytes_of(&Fe51::root_of_minus_one().square()), P_MINUS_ONE);
    // 121666 d = -121665
    let k = Fe51 { l0: 121666, l1: 0, l2: 0, l3: 0, l4: 0 };
    let m = Fe51 { l0: 121665, l1: 0, l2: 0, l3: 0, l4: 0 };
    assert!(Fe51::curve_constant().mul(&k).plus(&m).is_zero());
}

#[test]
fn freeze_subtracts_the_prime_once() {
    // p itself, and p + 5, in limbs below 2^51 and just above.
    let p = Fe51 { l0: 0x7ffffffffffed, l1: 0x7ffffffffffff, l2: 0x7ffffffffffff, l3: 0x7ffffffffffff, l4: 0x7ffffffffffff };
    assert_eq!(bytes_of(&p), [0u8; 32]);
    assert!(p.is_zero());
    let q = Fe51 { l0: 0x7fffffffffff2, l1: 0x7ffffffffffff, l2: 0x7ffffffffffff, l3: 0x7ffffffffffff, l4: 0x7ffffffffffff };
    assert_eq!(bytes_of(&q), small(5));
    assert!(q.is_odd());
    assert!(!q.is_zero());
}

#[test]
fn freeze_takes_limbs_up_to_52_bits() {
    let top = Fe51 { l0: 0xfffffffffffff, l1: 0xfffffffffffff, l2: 0xfffffffffffff, l3: 0xfffffffffffff, l4: 0xfffffffffffff };
    let f = top.freeze();
    assert!(f.below_prime());
    // The limb sum is (2^52 - 1) (2^255 - 1) / (2^51 - 1), and 2^255 - 1 is 18,
    // so f (2^51 - 1) = 18 (2^52 - 1).
    let m = Fe51 { l0: 0x7ffffffffffff, l1: 0, l2: 0, l3: 0, l4: 0 };
    let rhs = Fe51 { l0: 18, l1: 0, l2: 0, l3: 0, l4: 0 }.mul(&Fe51 { l0: 0xfffffffffffff, l1: 0, l2: 0, l3: 0, l4: 0 });
    assert_eq!(bytes_of(&f.mul(&m)), bytes_of(&rhs));
}

#[test]
fn carry_wide_folds_the_top_carry_by_19() {
    // 2^255 is 19.
    let f = carry_wide(0, 0, 0, 0, 1u128 << 51);
    assert_eq!((f.l0, f.l1, f.l2, f.l3, f.l4), (19, 0, 0, 0, 0));
    // 2^51 in limb 0 moves to limb 1.
    let g = carry_wide(1u128 << 51, 0, 0, 0, 0);
    assert_eq!((g.l0, g.l1, g.l2, g.l3, g.l4), (0, 1, 0, 0, 0));
}

#[test]
fn ten_limbs_go_to_five_and_back() {
    let e: [i32; 10] = [52811034, 25909283, 16144682, 17082669, 27570973, 30858332, 40966398, 8378388, 20764389, 8758491];
    assert_eq!(limbs_to_elem(&elem_to_limbs(&e).freeze()), e);
}

#[test]
fn ten_limbs_weigh_by_radix_25_5() {
    for i in 0..10usize {
        let mut e = [0i32; 10];
        e[i] = 1;
        let bit = [0, 26, 51, 77, 102, 128, 153, 179, 204, 230][i];
        let mut expected = [0u8; 32];
        expected[bit / 8] = 1 << (bit % 8);
        assert_eq!(bytes_of(&elem_to_limbs(&e)), expected);
    }
}

#[test]
fn negative_ten_limbs_reduce_into_the_field() {
    let e: [i32; 10] = [-1, 0, 0, 0, 0, 0, 0, 0, 0, 0];
    assert_eq!(bytes_of(&elem_to_limbs(&e)), P_MINUS_ONE);
}

#[test]
fn parity_is_that_of_the_reduced_value() {
    assert!(!Fe51::zero().is_odd());
    assert!(Fe51::one().is_odd());
    // p - 1 is even, and -1 is p - 1.
    assert!(!Fe51::one().negated().is_odd());
}
