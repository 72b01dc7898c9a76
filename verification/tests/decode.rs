use curve25519_ops::ops::{DecodeError, ExtPoint};

const BASE: [u8; 32] = [
    0x58, 0x66, 0x66, 0x66, 0x66, 0x66, 0x66, 0x66, 0x66, 0x66, 0x66, 0x66, 0x66, 0x66, 0x66, 0x66,
    0x66, 0x66, 0x66, 0x66, 0x66, 0x66, 0x66, 0x66, 0x66, 0x66, 0x66, 0x66, 0x66, 0x66, 0x66, 0x66,
];

const PUBLIC_KEY: [u8; 32] = [
    0xd7, 0x5a, 0x98, 0x01, 0x82, 0xb1, 0x0a, 0xb7, 0xd5, 0x4b, 0xfe, 0xd3, 0xc9, 0x64, 0x07, 0x3a,
    0x0e, 0xe1, 0x72, 0xf3, 0xda, 0xa6, 0x23, 0x25, 0xaf, 0x02, 0x1a, 0x68, 0xf7, 0x07, 0x51, 0x1a,
];

fn small(y: u8, top: u8) -> [u8; 32] {
    let mut bytes = [0u8; 32];
    bytes[0] = y;
    bytes[31] = top;
    bytes
}

#[test]
fn decodes_the_base_point_to_its_coordinates() {
    let pt = ExtPoint::from_encoded_point_vartime(&BASE).unwrap();
    assert_eq!(
        pt.x,
        [52811034, 25909283, 16144682, 17082669, 27570973, 30858332, 40966398, 8378388, 20764389, 8758491]
    );
    assert_eq!(
        pt.y,
        [40265304, 26843545, 13421772, 20132659, 26843545, 6710886, 53687091, 13421772, 40265318, 26843545]
    );
    assert_eq!(pt.z, [1, 0, 0, 0, 0, 0, 0, 0, 0, 0]);
    assert_eq!(
        pt.t,
        [28827043, 27438313, 39759291, 244362, 8635006, 11264893, 19351346, 13413597, 16611511, 27139452]
    );
}

#[test]
fn decoding_then_encoding_gives_the_bytes_back() {
    for bytes in [BASE, PUBLIC_KEY] {
        let pt = ExtPoint::from_encoded_point_vartime(&bytes).unwrap();
        assert_eq!(pt.into_encoded_point(), bytes);
    }
}

#[test]
fn decoding_an_encoding_gives_the_same_point() {
    let bytes = ExtPoint::from_encoded_point_vartime(&PUBLIC_KEY).unwrap().into_encoded_point();
    let first = ExtPoint::from_encoded_point_vartime(&PUBLIC_KEY).unwrap();
    let again = ExtPoint::from_encoded_point_vartime(&bytes).unwrap();
    assert_eq!(again, first);
    assert_eq!(again.into_encoded_point(), bytes);
}

#[test]
fn the_sign_bit_chooses_between_a_root_and_its_negative() {
    let mut flipped = BASE;
    flipped[31] ^= 0x80;
    let plus = ExtPoint::from_encoded_point_vartime(&BASE).unwrap();
    let minus = ExtPoint::from_encoded_point_vartime(&flipped).unwrap();
    assert_eq!(plus.y, minus.y);
    assert_ne!(plus.x, minus.x);
    assert_eq!(plus.x[0] % 2, 0);
    assert_eq!(minus.x[0] % 2, 1);
    assert_eq!(minus.into_encoded_point(), flipped);
}

#[test]
fn rejects_the_prime_itself_as_y() {
    let mut bytes = [0xffu8; 32];
    bytes[0] = 0xed;
    bytes[31] = 0x7f;
    assert_eq!(ExtPoint::from_encoded_point_vartime(&bytes), Err(DecodeError::InvalidEncoding));
    bytes[31] = 0xff;
    assert_eq!(ExtPoint::from_encoded_point_vartime(&bytes), Err(DecodeError::InvalidEncoding));
}

#[test]
fn rejects_y_above_the_prime_even_where_its_residue_is_valid() {
    // p + 1, whose residue 1 is the y-coordinate of a point.
    let mut bytes = [0xffu8; 32];
    bytes[0] = 0xee;
    bytes[31] = 0x7f;
    assert_eq!(ExtPoint::from_encoded_point_vartime(&bytes), Err(DecodeError::InvalidEncoding));
}

#[test]
fn accepts_the_largest_y_below_the_prime() {
    // p - 1, that is y = -1, with x = 0.
    let mut bytes = [0xffu8; 32];
    bytes[0] = 0xec;
    bytes[31] = 0x7f;
    let pt = ExtPoint::from_encoded_point_vartime(&bytes).unwrap();
    assert_eq!(pt.x, [0; 10]);
    assert_eq!(pt.into_encoded_point(), bytes);
}

#[test]
fn rejects_y_without_a_point_for_both_signs() {
    for y in [2u8, 7, 8, 11] {
        assert_eq!(
            ExtPoint::from_encoded_point_vartime(&small(y, 0x00)),
            Err(DecodeError::InvalidEncoding)
        );
        assert_eq!(
            ExtPoint::from_encoded_point_vartime(&small(y, 0x80)),
            Err(DecodeError::InvalidEncoding)
        );
    }
}

#[test]
fn accepts_small_y_with_a_point() {
    for y in [0u8, 1, 3, 4, 5, 6, 9, 10] {
        let bytes = small(y, 0x00);
        let pt = ExtPoint::from_encoded_point_vartime(&bytes).unwrap();
        assert_eq!(pt.y, [y as i32, 0, 0, 0, 0, 0, 0, 0, 0, 0]);
        assert_eq!(pt.into_encoded_point(), bytes);
    }
}

#[test]
fn all_zero_bytes_decode_to_a_square_root_of_minus_one() {
    let pt = ExtPoint::from_encoded_point_vartime(&[0u8; 32]).unwrap();
    assert_eq!(
        pt.x,
        [34513072, 25610706, 9377949, 3500415, 12389472, 33281959, 41962654, 31548777, 326685, 11406482]
    );
    assert_eq!(pt.y, [0; 10]);
    assert_eq!(pt.z, [1, 0, 0, 0, 0, 0, 0, 0, 0, 0]);
    assert_eq!(pt.t, [0; 10]);
}

#[test]
fn all_ones_bytes_are_rejected() {
    assert_eq!(ExtPoint::from_encoded_point_vartime(&[0xffu8; 32]), Err(DecodeError::InvalidEncoding));
}

#[test]
fn a_point_with_x_zero_decodes_under_either_sign_bit() {
    let clear = ExtPoint::from_encoded_point_vartime(&small(1, 0x00)).unwrap();
    let set = ExtPoint::from_encoded_point_vartime(&small(1, 0x80)).unwrap();
    assert_eq!(clear.x, [0; 10]);
    assert_eq!(set, clear);
    assert_eq!(set.into_encoded_point(), small(1, 0x00));
}

#[test]
fn decoding_is_the_same_on_every_call() {
    let first = ExtPoint::from_encoded_point_vartime(&PUBLIC_KEY);
    let second = ExtPoint::from_encoded_point_vartime(&PUBLIC_KEY);
    assert_eq!(first, second);
}

#[test]
fn every_single_byte_pattern_decodes_or_is_rejected() {
    for fill in 0..=255u8 {
        let bytes = [fill; 32];
        match ExtPoint::from_encoded_point_vartime(&bytes) {
            Ok(pt) => {
                let mut expected = bytes;
                if pt.x == [0; 10] {
                    expected[31] &= 0x7f;
                }
                assert_eq!(pt.into_encoded_point(), expected);
            },
            Err(e) => assert_eq!(e, DecodeError::InvalidEncoding),
        }
    }
}
