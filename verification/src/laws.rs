//! What holds of decoding, encoding and negation taken together.

use crate::elem::{elem_canonical, elem_int, elem_value, Elem};
use crate::field_lemmas::{
    lemma_field_ops_reduced, lemma_inv_of_units, lemma_mul_neg, lemma_mul_unit, lemma_neg_reduced,
    lemma_root_on_curve, lemma_sq_neg,
};
use crate::field_math::{
    curve_u, curve_v, decode_point, encoded_sign, encoded_y, field_inv, field_mul, field_neg,
    is_root, le_value, on_curve, point_code, prime, recover_root, two_255, with_sign,
};
use crate::ops::{limbs_negated, limbs_zero, ExtPoint};
use crate::wire::{lemma_le_value_words, word_at};
use vstd::arithmetic::div_mod::*;
use vstd::prelude::*;

verus! {

/// The code of a point with the sign bit changed.
pub open spec fn sign_flipped(code: nat) -> nat {
    if code >= two_255() {
        (code - two_255()) as nat
    } else {
        code + two_255()
    }
}

/// A number is its last digit and the rest in one way only.
proof fn lemma_digit(a0: int, a_rest: int, b0: int, b_rest: int, base: int)
    requires
        base > 0,
        0 <= a0 < base,
        0 <= b0 < base,
        a0 + base * a_rest == b0 + base * b_rest,
    ensures
        a0 == b0,
        a_rest == b_rest,
{
    let n = a0 + base * a_rest;
    assert(n == a_rest * base + a0) by (nonlinear_arith)
        requires
            n == a0 + base * a_rest,
    ;
    assert(n == b_rest * base + b0) by (nonlinear_arith)
        requires
            n == b0 + base * b_rest,
    ;
    lemma_fundamental_div_mod_converse(n, base, a_rest, a0);
    lemma_fundamental_div_mod_converse(n, base, b_rest, b0);
}

/// Two words of eight bytes with the same value have the same bytes.
proof fn lemma_word_bytes_unique(a: Seq<u8>, b: Seq<u8>, off: int)
    requires
        0 <= off,
        off + 8 <= a.len(),
        off + 8 <= b.len(),
        word_at(a, off) == word_at(b, off),
    ensures
        forall|j: int| off <= j < off + 8 ==> a[j] == b[j],
{
    let a1 = a[off + 1] + a[off + 2] * 0x100 + a[off + 3] * 0x10000 + a[off + 4] * 0x1000000 + a[off
        + 5] * 0x100000000 + a[off + 6] * 0x10000000000 + a[off + 7] * 0x1000000000000;
    let b1 = b[off + 1] + b[off + 2] * 0x100 + b[off + 3] * 0x10000 + b[off + 4] * 0x1000000 + b[off
        + 5] * 0x100000000 + b[off + 6] * 0x10000000000 + b[off + 7] * 0x1000000000000;
    lemma_digit(a[off] as int, a1, b[off] as int, b1, 256);
    let a2 = a[off + 2] + a[off + 3] * 0x100 + a[off + 4] * 0x10000 + a[off + 5] * 0x1000000 + a[off
        + 6] * 0x100000000 + a[off + 7] * 0x10000000000;
    let b2 = b[off + 2] + b[off + 3] * 0x100 + b[off + 4] * 0x10000 + b[off + 5] * 0x1000000 + b[off
        + 6] * 0x100000000 + b[off + 7] * 0x10000000000;
    lemma_digit(a[off + 1] as int, a2, b[off + 1] as int, b2, 256);
    let a3 = a[off + 3] + a[off + 4] * 0x100 + a[off + 5] * 0x10000 + a[off + 6] * 0x1000000 + a[off
        + 7] * 0x100000000;
    let b3 = b[off + 3] + b[off + 4] * 0x100 + b[off + 5] * 0x10000 + b[off + 6] * 0x1000000 + b[off
        + 7] * 0x100000000;
    lemma_digit(a[off + 2] as int, a3, b[off + 2] as int, b3, 256);
    let a4 = a[off + 4] + a[off + 5] * 0x100 + a[off + 6] * 0x10000 + a[off + 7] * 0x1000000;
    let b4 = b[off + 4] + b[off + 5] * 0x100 + b[off + 6] * 0x10000 + b[off + 7] * 0x1000000;
    lemma_digit(a[off + 3] as int, a4, b[off + 3] as int, b4, 256);
    let a5 = a[off + 5] + a[off + 6] * 0x100 + a[off + 7] * 0x10000;
    let b5 = b[off + 5] + b[off + 6] * 0x100 + b[off + 7] * 0x10000;
    lemma_digit(a[off + 4] as int, a5, b[off + 4] as int, b5, 256);
    let a6 = a[off + 6] + a[off + 7] * 0x100;
    let b6 = b[off + 6] + b[off + 7] * 0x100;
    lemma_digit(a[off + 5] as int, a6, b[off + 5] as int, b6, 256);
    lemma_digit(a[off + 6] as int, a[off + 7] as int, b[off + 6] as int, b[off + 7] as int, 256);
    assert forall|j: int| off <= j < off + 8 implies a[j] == b[j] by {
        if j == off {
        } else if j == off + 1 {
        } else if j == off + 2 {
        } else if j == off + 3 {
        } else if j == off + 4 {
        } else if j == off + 5 {
        } else if j == off + 6 {
        } else {
            assert(j == off + 7);
        }
    }
}

/// Two strings of 32 bytes that stand for the same number are the same
/// string: a contract that gives `le_value` of an encoding gives every
/// byte of it.
pub proof fn lemma_le_value_injective(a: Seq<u8>, b: Seq<u8>)
    requires
        a.len() == 32,
        b.len() == 32,
        le_value(a) == le_value(b),
    ensures
        a == b,
{
    lemma_le_value_words(a);
    lemma_le_value_words(b);
    let a1 = word_at(a, 8) + word_at(a, 16) * 0x10000000000000000 + word_at(a, 24)
        * 0x100000000000000000000000000000000;
    let b1 = word_at(b, 8) + word_at(b, 16) * 0x10000000000000000 + word_at(b, 24)
        * 0x100000000000000000000000000000000;
    lemma_digit(
        word_at(a, 0) as int,
        a1 as int,
        word_at(b, 0) as int,
        b1 as int,
        0x10000000000000000,
    );
    let a2 = word_at(a, 16) + word_at(a, 24) * 0x10000000000000000;
    let b2 = word_at(b, 16) + word_at(b, 24) * 0x10000000000000000;
    lemma_digit(
        word_at(a, 8) as int,
        a2 as int,
        word_at(b, 8) as int,
        b2 as int,
        0x10000000000000000,
    );
    lemma_digit(
        word_at(a, 16) as int,
        word_at(a, 24) as int,
        word_at(b, 16) as int,
        word_at(b, 24) as int,
        0x10000000000000000,
    );
    lemma_word_bytes_unique(a, b, 0);
    lemma_word_bytes_unique(a, b, 8);
    lemma_word_bytes_unique(a, b, 16);
    lemma_word_bytes_unique(a, b, 24);
    assert(a =~= b);
}

/// A field element has one canonical ten-limb form: decoding, which
/// returns canonical limbs with a given limb sum, returns those limbs.
pub proof fn lemma_canonical_unique(a: Elem, b: Elem)
    requires
        elem_canonical(a),
        elem_canonical(b),
        elem_int(a) == elem_int(b),
    ensures
        a == b,
{
    let a1 = a[1] + a[2] * 0x2000000 + a[3] * 0x8000000000000 + a[4] * 0x10000000000000000000
        + a[5] * 0x40000000000000000000000000 + a[6] * 0x80000000000000000000000000000000int
        + a[7] * 0x200000000000000000000000000000000000000int + a[8]
        * 0x400000000000000000000000000000000000000000000int + a[9]
        * 0x1000000000000000000000000000000000000000000000000000int;
    let b1 = b[1] + b[2] * 0x2000000 + b[3] * 0x8000000000000 + b[4] * 0x10000000000000000000
        + b[5] * 0x40000000000000000000000000 + b[6] * 0x80000000000000000000000000000000int
        + b[7] * 0x200000000000000000000000000000000000000int + b[8]
        * 0x400000000000000000000000000000000000000000000int + b[9]
        * 0x1000000000000000000000000000000000000000000000000000int;
    lemma_digit(a[0] as int, a1, b[0] as int, b1, 0x4000000);
    let a2 = a[2] + a[3] * 0x4000000 + a[4] * 0x8000000000000 + a[5] * 0x20000000000000000000
        + a[6] * 0x40000000000000000000000000 + a[7] * 0x100000000000000000000000000000000int
        + a[8] * 0x200000000000000000000000000000000000000int + a[9]
        * 0x800000000000000000000000000000000000000000000int;
    let b2 = b[2] + b[3] * 0x4000000 + b[4] * 0x8000000000000 + b[5] * 0x20000000000000000000
        + b[6] * 0x40000000000000000000000000 + b[7] * 0x100000000000000000000000000000000int
        + b[8] * 0x200000000000000000000000000000000000000int + b[9]
        * 0x800000000000000000000000000000000000000000000int;
    lemma_digit(a[1] as int, a2, b[1] as int, b2, 0x2000000);
    let a3 = a[3] + a[4] * 0x2000000 + a[5] * 0x8000000000000 + a[6] * 0x10000000000000000000
        + a[7] * 0x40000000000000000000000000 + a[8] * 0x80000000000000000000000000000000int
        + a[9] * 0x200000000000000000000000000000000000000int;
    let b3 = b[3] + b[4] * 0x2000000 + b[5] * 0x8000000000000 + b[6] * 0x10000000000000000000
        + b[7] * 0x40000000000000000000000000 + b[8] * 0x80000000000000000000000000000000int
        + b[9] * 0x200000000000000000000000000000000000000int;
    lemma_digit(a[2] as int, a3, b[2] as int, b3, 0x4000000);
    let a4 = a[4] + a[5] * 0x4000000 + a[6] * 0x8000000000000 + a[7] * 0x20000000000000000000
        + a[8] * 0x40000000000000000000000000 + a[9] * 0x100000000000000000000000000000000int;
    let b4 = b[4] + b[5] * 0x4000000 + b[6] * 0x8000000000000 + b[7] * 0x20000000000000000000
        + b[8] * 0x40000000000000000000000000 + b[9] * 0x100000000000000000000000000000000int;
    lemma_digit(a[3] as int, a4, b[3] as int, b4, 0x2000000);
    let a5 = a[5] + a[6] * 0x2000000 + a[7] * 0x8000000000000 + a[8] * 0x10000000000000000000
        + a[9] * 0x40000000000000000000000000;
    let b5 = b[5] + b[6] * 0x2000000 + b[7] * 0x8000000000000 + b[8] * 0x10000000000000000000
        + b[9] * 0x40000000000000000000000000;
    lemma_digit(a[4] as int, a5, b[4] as int, b5, 0x4000000);
    let a6 = a[6] + a[7] * 0x4000000 + a[8] * 0x8000000000000 + a[9] * 0x20000000000000000000;
    let b6 = b[6] + b[7] * 0x4000000 + b[8] * 0x8000000000000 + b[9] * 0x20000000000000000000;
    lemma_digit(a[5] as int, a6, b[5] as int, b6, 0x2000000);
    let a7 = a[7] + a[8] * 0x2000000 + a[9] * 0x8000000000000;
    let b7 = b[7] + b[8] * 0x2000000 + b[9] * 0x8000000000000;
    lemma_digit(a[6] as int, a7, b[6] as int, b7, 0x4000000);
    let a8 = a[8] + a[9] * 0x4000000;
    let b8 = b[8] + b[9] * 0x4000000;
    lemma_digit(a[7] as int, a8, b[7] as int, b8, 0x2000000);
    lemma_digit(a[8] as int, a[9] as int, b[8] as int, b[9] as int, 0x4000000);
    assert forall|i: int| 0 <= i < 10 implies a[i] == b[i] by {
        if i == 0 {
        } else if i == 1 {
        } else if i == 2 {
        } else if i == 3 {
        } else if i == 4 {
        } else if i == 5 {
        } else if i == 6 {
        } else if i == 7 {
        } else if i == 8 {
        } else {
            assert(i == 9);
        }
    }
    assert(a =~= b);
}

/// Changing the sign of every limb negates the field element.
pub proof fn lemma_negated_limbs_value(e: Elem, r: Elem)
    requires
        limbs_negated(e, r),
    ensures
        elem_value(r) == field_neg(elem_value(e)),
{
    assert(r[0] == -e[0] && r[1] == -e[1] && r[2] == -e[2] && r[3] == -e[3] && r[4] == -e[4]);
    assert(r[5] == -e[5] && r[6] == -e[6] && r[7] == -e[7] && r[8] == -e[8] && r[9] == -e[9]);
    assert(elem_int(r) == -elem_int(e));
    lemma_sub_mod_noop_right(0, elem_int(e), prime() as int);
}

/// Every zero limb sum is the field element 0.
pub proof fn lemma_zero_limbs_value(e: Elem)
    requires
        limbs_zero(e),
    ensures
        elem_value(e) == 0,
{
    assert(e[0] == 0 && e[1] == 0 && e[2] == 0 && e[3] == 0 && e[4] == 0);
    assert(e[5] == 0 && e[6] == 0 && e[7] == 0 && e[8] == 0 && e[9] == 0);
}

/// What decoding returns is a point of the curve, with reduced
/// coordinates, the y-coordinate that the bytes hold, and, unless x is 0,
/// the parity of x that the bytes hold.
pub proof fn lemma_decode_sound(s: Seq<u8>)
    ensures
        decode_point(s) matches Some((x, y)) ==> {
            &&& x < prime()
            &&& y < prime()
            &&& y == encoded_y(s)
            &&& on_curve(x, y)
            &&& x != 0 ==> x % 2 == encoded_sign(s)
        },
{
    let y = encoded_y(s);
    if decode_point(s) is Some {
        let root = recover_root(y)->0;
        lemma_field_ops_reduced(root, root, 0);
        lemma_root_is_reduced(y);
        lemma_root_on_curve(root, y);
        lemma_sq_neg(root);
        lemma_neg_reduced(root);
        lemma_mod_bound(le_value(s) as int / (two_255() as int), 2);
    }
}

/// The root that decoding finds is below the prime and solves the
/// equation.
proof fn lemma_root_is_reduced(y: nat)
    ensures
        recover_root(y) matches Some(root) ==> root < prime() && is_root(
            root,
            curve_u(y),
            curve_v(y),
        ),
{
    if recover_root(y) is Some {
        let root = recover_root(y)->0;
        lemma_mod_bound(0, prime() as int);
        assert(exists|a: nat, b: nat| root == field_mul(a, b));
        let (a, b) = choose|a: nat, b: nat| root == field_mul(a, b);
        lemma_field_ops_reduced(a, b, 0);
    }
}

/// Bytes whose y field is not below the prime are rejected.
pub proof fn lemma_rejects_unreduced_y(s: Seq<u8>)
    requires
        encoded_y(s) >= prime(),
    ensures
        decode_point(s) is None,
{
}

/// Bytes whose y-coordinate belongs to no point of the curve are
/// rejected, whatever their sign bit.
pub proof fn lemma_rejects_off_curve(s: Seq<u8>)
    requires
        forall|x: nat| !on_curve(x, encoded_y(s)),
    ensures
        decode_point(s) is None,
{
    lemma_decode_sound(s);
    if decode_point(s) is Some {
        let point = decode_point(s)->0;
        assert(on_curve(point.0, encoded_y(s)));
    }
}

/// The encoding of a point decodes to that point, whenever the root that
/// decoding finds for its y-coordinate is the x-coordinate or its
/// negative.
pub proof fn lemma_encoding_decodes(x: nat, y: nat, s: Seq<u8>)
    requires
        x < prime(),
        y < prime(),
        le_value(s) == point_code(x, y),
        recover_root(y) matches Some(root) && (x == root || x == field_neg(root)),
    ensures
        decode_point(s) == Some((x, y)),
{
    lemma_root_is_reduced(y);
    let root = recover_root(y)->0;
    lemma_neg_reduced(root);
    let bit = (x % 2) as int;
    lemma_fundamental_div_mod_converse(le_value(s) as int, two_255() as int, bit, y as int);
    assert(encoded_y(s) == y);
    assert(encoded_sign(s) == x % 2);
    assert(with_sign(root, x % 2) == x);
}

/// Decoding the encoding of a decoded point gives the same point: if
/// `first` decodes to `(x, y)`, then so do the bytes `again` that encode
/// `(x, y)`.
pub proof fn lemma_decode_encode_decode(first: Seq<u8>, again: Seq<u8>)
    requires
        decode_point(first) matches Some((x, y)) && le_value(again) == point_code(x, y),
    ensures
        decode_point(again) == decode_point(first),
{
    let (x, y) = decode_point(first)->0;
    lemma_decode_sound(first);
    lemma_encoding_decodes(x, y, again);
}

/// Encoding a decoded point gives back the bytes it was decoded from,
/// but for the sign bit of a point with x = 0, which comes back clear.
pub proof fn lemma_encode_decoded(s: Seq<u8>)
    requires
        s.len() == 32,
        decode_point(s) is Some,
    ensures
        ({
            let (x, y) = decode_point(s)->0;
            le_value(s) == point_code(x, y) + (if x == 0 {
                two_255() * encoded_sign(s)
            } else {
                0
            })
        }),
{
    let (x, y) = decode_point(s)->0;
    lemma_decode_sound(s);
    lemma_le_value_words(s);
    let v = le_value(s) as int;
    let d = two_255() as int;
    lemma_fundamental_div_mod(v, d);
    assert(v / d < 2);
    assert(v / d >= 0);
    lemma_small_mod((v / d) as nat, 2);
    assert(v == d * (v / d) + v % d);
}

/// Negating twice gives back the point, limb for limb.
pub proof fn lemma_negation_involution(start: ExtPoint, once: ExtPoint, twice: ExtPoint)
    requires
        once.is_negation_of(&start),
        twice.is_negation_of(&once),
    ensures
        twice == start,
{
    assert(twice.x =~= start.x);
    assert(twice.t =~= start.t);
}

/// The negated point has the affine coordinates `(-x, y)`, and its
/// encoding is that of the point with the sign bit changed if x is not 0,
/// and the same encoding if x is 0.
pub proof fn lemma_negation_encoding(start: ExtPoint, negated: ExtPoint)
    requires
        negated.is_negation_of(&start),
    ensures
        negated.affine_x() == field_neg(start.affine_x()),
        negated.affine_y() == start.affine_y(),
        point_code(negated.affine_x(), negated.affine_y()) == (if start.affine_x() == 0 {
            point_code(start.affine_x(), start.affine_y())
        } else {
            sign_flipped(point_code(start.affine_x(), start.affine_y()))
        }),
{
    let zi = field_inv(elem_value(start.z));
    lemma_negated_limbs_value(start.x, negated.x);
    lemma_mul_neg(elem_value(start.x), zi);
    lemma_field_ops_reduced(elem_value(start.x), zi, 0);
    lemma_field_ops_reduced(elem_value(start.y), zi, 0);
    lemma_neg_reduced(start.affine_x());
}

/// Negation keeps the limbs of `x` and `t` in the symmetric range.
pub proof fn lemma_negation_symmetric(start: ExtPoint, negated: ExtPoint)
    requires
        negated.is_negation_of(&start),
        start.negatable(),
    ensures
        negated.negatable(),
{
    assert forall|i: int| 0 <= i < 10 implies negated.x[i] > i32::MIN && negated.t[i]
        > i32::MIN by {
        assert(negated.x[i] == -start.x[i]);
        assert(negated.t[i] == -start.t[i]);
    }
}

/// Negation keeps a well-formed point well formed.
pub proof fn lemma_negation_well_formed(start: ExtPoint, negated: ExtPoint)
    requires
        negated.is_negation_of(&start),
        start.well_formed(),
    ensures
        negated.well_formed(),
{
    let xv = elem_value(start.x);
    let yv = elem_value(start.y);
    let zv = elem_value(start.z);
    let tv = elem_value(start.t);
    lemma_negated_limbs_value(start.x, negated.x);
    lemma_negated_limbs_value(start.t, negated.t);
    lemma_negation_symmetric(start, negated);
    lemma_mul_neg(xv, field_inv(zv));
    lemma_mul_neg(xv, yv);
    lemma_mul_neg(tv, zv);
    lemma_sq_neg(start.affine_x());
}

/// The all-zero point of either representation has the code 0: its
/// encoding is 32 zero bytes.
pub proof fn lemma_infinity_code(x: Elem, y: Elem, z: Elem)
    requires
        limbs_zero(x),
        limbs_zero(y),
        limbs_zero(z),
    ensures
        point_code(
            field_mul(elem_value(x), field_inv(elem_value(z))),
            field_mul(elem_value(y), field_inv(elem_value(z))),
        ) == 0,
{
    lemma_zero_limbs_value(x);
    lemma_zero_limbs_value(y);
    lemma_zero_limbs_value(z);
    lemma_inv_of_units();
    lemma_mul_unit(0);
}

/// A string of 32 bytes that stands for 0 holds only zero bytes.
pub proof fn lemma_zero_code_bytes(s: Seq<u8>)
    requires
        s.len() == 32,
        le_value(s) == 0,
    ensures
        forall|i: int| 0 <= i < 32 ==> s[i] == 0,
{
    let zeros = Seq::new(32, |i: int| 0u8);
    lemma_le_value_words(zeros);
    lemma_le_value_injective(s, zeros);
}

} // verus!
