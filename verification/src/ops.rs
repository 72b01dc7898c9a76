//! Points of the twisted Edwards form of Curve25519: the extended and the
//! projective representation, the 32-byte encoding of RFC 8032 section
//! 5.1.2, and negation.

use crate::elem::{
    elem_canonical, elem_int, elem_symmetric, elem_to_limbs, elem_value, limbs_to_elem, Elem,
};
use crate::field_lemmas::{
    lemma_field_ops_reduced, lemma_inv_of_units, lemma_mul_unit, lemma_root_on_curve,
    lemma_sq_neg, lemma_sub_zero,
};
use crate::field_math::{
    curve_u, curve_v, decode_point, field_inv, field_mul, field_neg, is_root, le_value, on_curve,
    point_code, prime, recover_root, root_candidate, with_sign,
};
use crate::laws::{
    lemma_negated_limbs_value, lemma_negation_encoding, lemma_negation_symmetric,
    lemma_negation_well_formed,
};
use crate::limbs::Fe51;
use crate::wire::sign_bit;
use vstd::arithmetic::div_mod::*;
use vstd::prelude::*;

verus! {

/// Length in bytes of an encoded point.
pub const ELEM_LEN: usize = 32;

/// A point as 32 bytes: the y-coordinate, little-endian, in the low 255
/// bits, and the parity of the x-coordinate in the top bit of the last
/// byte.
pub type EncodedPoint = [u8; 32];

/// Why bytes were not decoded. There is one reason only, on purpose: the
/// caller is not told which check failed.
#[derive(Debug, Clone, Copy, PartialEq, Eq)]
pub enum DecodeError {
    /// The bytes are not the encoding of a point of the curve.
    InvalidEncoding,
}

/// A point in extended coordinates `(X, Y, Z, T)`: the affine point is
/// `(X/Z, Y/Z)`, and `X Y = Z T`.
#[derive(Debug, PartialEq, Eq)]
pub struct ExtPoint {
    pub x: Elem,
    pub y: Elem,
    pub z: Elem,
    pub t: Elem,
}

/// A point in projective coordinates `(X, Y, Z)`: the affine point is
/// `(X/Z, Y/Z)`.
#[derive(Debug, PartialEq, Eq)]
pub struct Point {
    pub x: Elem,
    pub y: Elem,
    pub z: Elem,
}

/// The affine coordinate `c / z`, with the inverse by Fermat's formula, so
/// that a zero `z` gives 0.
pub open spec fn affine(c: Elem, z: Elem) -> nat {
    field_mul(elem_value(c), field_inv(elem_value(z)))
}

/// The limbs of `r` are those of `e` with the opposite sign.
pub open spec fn limbs_negated(e: Elem, r: Elem) -> bool {
    forall|i: int| 0 <= i < 10 ==> r[i] == -e[i]
}

/// Every limb of `e` is 0.
pub open spec fn limbs_zero(e: Elem) -> bool {
    forall|i: int| 0 <= i < 10 ==> e[i] == 0
}

/// Whether `x` solves `v x^2 = u`.
fn solves(x: &Fe51, u: &Fe51, v: &Fe51) -> (r: bool)
    requires
        x.reduced(),
        u.reduced(),
        v.reduced(),
    ensures
        r == is_root(x.value(), u.value(), v.value()),
{
    let lhs = v.mul(&x.square());
    proof {
        lemma_mod_bound(u.int_value() as int, prime() as int);
        lemma_field_ops_reduced(v.value(), field_mul(x.value(), x.value()), 0);
        lemma_sub_zero(lhs.value(), u.value());
    }
    lhs.minus(u).is_zero()
}

/// The x-coordinate for a y-coordinate below the prime, before the sign is
/// applied.
fn find_root(y: &Fe51) -> (r: Option<Fe51>)
    requires
        y.canonical(),
    ensures
        match r {
            Some(x) => x.reduced() && recover_root(y.int_value()) == Some(x.value()),
            None => recover_root(y.int_value()) is None,
        },
{
    proof {
        lemma_small_mod(y.int_value(), prime());
    }
    let one = Fe51::one();
    let yy = y.square();
    let u = yy.minus(&one);
    let v = Fe51::curve_constant().mul(&yy).plus(&one);
    let v3 = v.square().mul(&v);
    let v7 = v3.square().mul(&v);
    let c = u.mul(&v3).mul(&u.mul(&v7).pow_p58());
    assert(u.value() == curve_u(y.int_value()));
    assert(v.value() == curve_v(y.int_value()));
    assert(c.value() == root_candidate(u.value(), v.value()));
    if solves(&c, &u, &v) {
        Some(c)
    } else {
        let rotated = c.mul(&Fe51::root_of_minus_one());
        if solves(&rotated, &u, &v) {
            Some(rotated)
        } else {
            None
        }
    }
}

/// `root` or its negative, whichever has the parity that `sign` asks for.
fn apply_sign(root: Fe51, sign: bool) -> (r: Fe51)
    requires
        root.reduced(),
    ensures
        r.reduced(),
        r.value() == with_sign(root.value(), if sign { 1nat } else { 0nat }),
{
    if root.is_odd() != sign {
        root.negated()
    } else {
        root
    }
}

/// The affine point `(x, y)` in normal form.
fn normal_form(x: &Fe51, y: &Fe51) -> (pt: ExtPoint)
    requires
        x.reduced(),
        y.canonical(),
    ensures
        pt.is_normal_form_of(x.value(), y.int_value()),
{
    let t = x.mul(y);
    proof {
        lemma_small_mod(y.int_value(), prime());
    }
    ExtPoint {
        x: limbs_to_elem(&x.freeze()),
        y: limbs_to_elem(y),
        z: limbs_to_elem(&Fe51::one()),
        t: limbs_to_elem(&t.freeze()),
    }
}

/// A point in normal form whose x-coordinate is a root for its
/// y-coordinate, or the negative of one, is well formed, and its affine
/// coordinates are `x` and `y`.
proof fn lemma_normal_form(pt: ExtPoint, x: nat, y: nat, root: nat)
    requires
        pt.is_normal_form_of(x, y),
        x < prime(),
        y < prime(),
        is_root(root, curve_u(y), curve_v(y)),
        x == root || x == field_neg(root),
    ensures
        pt.well_formed(),
        pt.affine_x() == x,
        pt.affine_y() == y,
{
    lemma_field_ops_reduced(x, y, 0);
    lemma_small_mod(x, prime());
    lemma_small_mod(y, prime());
    lemma_small_mod(1, prime());
    lemma_small_mod(field_mul(x, y), prime());
    assert(elem_value(pt.x) == x);
    assert(elem_value(pt.y) == y);
    assert(elem_value(pt.z) == 1);
    assert(elem_value(pt.t) == field_mul(x, y));
    lemma_inv_of_units();
    lemma_mul_unit(x);
    lemma_mul_unit(y);
    lemma_mul_unit(field_mul(x, y));
    lemma_root_on_curve(root, y);
    lemma_sq_neg(root);
    assert(on_curve(x, y));
    lemma_canonical_symmetric(pt.x);
    lemma_canonical_symmetric(pt.t);
}

/// Canonical limbs are not negative, so they lie in the symmetric range.
proof fn lemma_canonical_symmetric(e: Elem)
    requires
        elem_canonical(e),
    ensures
        elem_symmetric(e),
{
    assert forall|i: int| 0 <= i < 10 implies e[i] > i32::MIN by {
        if i == 0 {
        } else if i == 1 {
        } else if i == 2 {
        } else if i == 3 {
        } else if i == 4 {
        } else if i == 5 {
        } else if i == 6 {
        } else if i == 7 {
        } else if i == 8 {
        } else {
            assert(i == 9);
        }
    }
}

/// The encoding of the point with projective coordinates `x`, `y`, `z`.
fn encode_projective(x: &Elem, y: &Elem, z: &Elem) -> (r: EncodedPoint)
    ensures
        le_value(r@) == point_code(affine(*x, *z), affine(*y, *z)),
{
    let recip = elem_to_limbs(z).invert();
    let ax = elem_to_limbs(x).mul(&recip);
    let ay = elem_to_limbs(y).mul(&recip);
    ay.freeze().to_bytes(ax.is_odd())
}

/// The limbs of `e` with the opposite sign.
fn negate_limbs(e: &Elem) -> (r: Elem)
    requires
        elem_symmetric(*e),
    ensures
        limbs_negated(*e, r),
{
    let mut r: Elem = [0i32; 10];
    for i in 0..10
        invariant
            elem_symmetric(*e),
            forall|j: int| 0 <= j < i ==> r[j] == -e[j],
    {
        r[i] = -e[i];
    }
    r
}

impl ExtPoint {
    /// The limbs of `x` and `t` lie in the symmetric range, so that the
    /// point can be negated.
    pub open spec fn negatable(&self) -> bool {
        elem_symmetric(self.x) && elem_symmetric(self.t)
    }

    /// The affine x-coordinate, `X / Z`.
    pub open spec fn affine_x(&self) -> nat {
        affine(self.x, self.z)
    }

    /// The affine y-coordinate, `Y / Z`.
    pub open spec fn affine_y(&self) -> nat {
        affine(self.y, self.z)
    }

    /// The invariant of extended coordinates: `X Y = Z T`, and unless `Z`
    /// is zero the affine point lies on the curve.
    pub open spec fn well_formed(&self) -> bool {
        &&& self.negatable()
        &&& field_mul(elem_value(self.x), elem_value(self.y)) == field_mul(
            elem_value(self.z),
            elem_value(self.t),
        )
        &&& elem_value(self.z) != 0 ==> on_curve(self.affine_x(), self.affine_y())
    }

    /// The point is the affine point `(x, y)` in the form that decoding
    /// returns: canonical limbs, `Z = 1` and `T = x y`.
    pub open spec fn is_normal_form_of(&self, x: nat, y: nat) -> bool {
        &&& elem_canonical(self.x) && elem_int(self.x) == x
        &&& elem_canonical(self.y) && elem_int(self.y) == y
        &&& elem_canonical(self.z) && elem_int(self.z) == 1
        &&& elem_canonical(self.t) && elem_int(self.t) == field_mul(x, y)
    }

    /// The point is `other` with the sign of every limb of `x` and of `t`
    /// changed, and with the same `y` and `z`.
    pub open spec fn is_negation_of(&self, other: &ExtPoint) -> bool {
        &&& limbs_negated(other.x, self.x)
        &&& limbs_negated(other.t, self.t)
        &&& self.y == other.y
        &&& self.z == other.z
    }

    /// The all-zero quadruple: the value that a point has before a real
    /// point is put into it.
    pub fn new_at_infinity() -> (r: Self)
        ensures
            limbs_zero(r.x),
            limbs_zero(r.y),
            limbs_zero(r.z),
            limbs_zero(r.t),
            r.well_formed(),
    {
        let r = ExtPoint { x: [0i32; 10], y: [0i32; 10], z: [0i32; 10], t: [0i32; 10] };
        proof {
            assert(elem_int(r.x) == 0 && elem_int(r.y) == 0 && elem_int(r.z) == 0 && elem_int(r.t)
                == 0);
        }
        r
    }

    /// Decodes a point. The time taken depends on the bytes.
    ///
    /// The result is `Ok` exactly when `decode_point` finds a point, and
    /// then it is that point in normal form.
    pub fn from_encoded_point_vartime(encoded: &EncodedPoint) -> (r: Result<Self, DecodeError>)
        ensures
            match r {
                Ok(pt) => decode_point(encoded@) matches Some((x, y)) && pt.is_normal_form_of(x, y)
                    && pt.well_formed() && pt.affine_x() == x && pt.affine_y() == y,
                Err(e) => decode_point(encoded@) is None,
            },
    {
        let y = Fe51::from_bytes(encoded);
        if !y.below_prime() {
            return Err(DecodeError::InvalidEncoding);
        }
        let root = match find_root(&y) {
            Some(root) => root,
            None => {
                return Err(DecodeError::InvalidEncoding);
            },
        };
        let x = apply_sign(root, sign_bit(encoded));
        let pt = normal_form(&x, &y);
        proof {
            lemma_mod_bound(x.int_value() as int, prime() as int);
            lemma_normal_form(pt, x.value(), y.int_value(), root.value());
        }
        Ok(pt)
    }

    /// Encodes the point: the affine y-coordinate in the low 255 bits and
    /// the parity of the affine x-coordinate in bit 255.
    pub fn into_encoded_point(self) -> (r: EncodedPoint)
        ensures
            le_value(r@) == point_code(self.affine_x(), self.affine_y()),
    {
        encode_projective(&self.x, &self.y, &self.z)
    }

    /// Negates the point in place: every limb of `x` and of `t` changes
    /// its sign, `y` and `z` stay.
    pub fn invert_vartime(&mut self)
        requires
            old(self).negatable(),
        ensures
            final(self).is_negation_of(old(self)),
            final(self).negatable(),
            elem_value(final(self).x) == field_neg(elem_value(old(self).x)),
            elem_value(final(self).t) == field_neg(elem_value(old(self).t)),
            final(self).affine_x() == field_neg(old(self).affine_x()),
            final(self).affine_y() == old(self).affine_y(),
            old(self).well_formed() ==> final(self).well_formed(),
    {
        let x = negate_limbs(&self.x);
        let t = negate_limbs(&self.t);
        proof {
            let negated = ExtPoint { x, y: self.y, z: self.z, t };
            lemma_negated_limbs_value(self.x, x);
            lemma_negated_limbs_value(self.t, t);
            lemma_negation_encoding(*self, negated);
            lemma_negation_symmetric(*self, negated);
            if self.well_formed() {
                lemma_negation_well_formed(*self, negated);
            }
        }
        self.x = x;
        self.t = t;
    }
}

impl Point {
    /// The affine x-coordinate, `X / Z`.
    pub open spec fn affine_x(&self) -> nat {
        affine(self.x, self.z)
    }

    /// The affine y-coordinate, `Y / Z`.
    pub open spec fn affine_y(&self) -> nat {
        affine(self.y, self.z)
    }

    /// The invariant of projective coordinates: unless `Z` is zero, the
    /// affine point lies on the curve.
    pub open spec fn well_formed(&self) -> bool {
        elem_value(self.z) != 0 ==> on_curve(self.affine_x(), self.affine_y())
    }

    /// The all-zero triple: the value that a point has before a real point
    /// is put into it.
    pub fn new_at_infinity() -> (r: Self)
        ensures
            limbs_zero(r.x),
            limbs_zero(r.y),
            limbs_zero(r.z),
            r.well_formed(),
    {
        let r = Point { x: [0i32; 10], y: [0i32; 10], z: [0i32; 10] };
        proof {
            assert(elem_int(r.z) == 0);
        }
        r
    }

    /// Encodes the point: the affine y-coordinate in the low 255 bits and
    /// the parity of the affine x-coordinate in bit 255.
    pub fn into_encoded_point(self) -> (r: EncodedPoint)
        ensures
            le_value(r@) == point_code(self.affine_x(), self.affine_y()),
    {
        encode_projective(&self.x, &self.y, &self.z)
    }
}

} // verus!
