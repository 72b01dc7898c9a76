//! The mathematical model that every contract of this crate is stated over:
//! natural numbers modulo the prime 2^255 - 19, the curve equation, and the
//! number that a little-endian byte string stands for.

use vstd::arithmetic::div_mod::*;
use vstd::arithmetic::power::*;
use vstd::arithmetic::power2::*;
use vstd::prelude::*;

verus! {

/// The field modulus, 2^255 - 19.
pub open spec fn prime() -> nat {
    0x7fffffffffffffffffffffffffffffffffffffffffffffffffffffffffffffednat
}

/// 2^255: the weight of the sign bit in an encoded point.
pub open spec fn two_255() -> nat {
    0x8000000000000000000000000000000000000000000000000000000000000000nat
}

/// Sum modulo the field prime.
pub open spec fn field_add(a: nat, b: nat) -> nat {
    (a + b) % prime()
}

/// Difference modulo the field prime.
pub open spec fn field_sub(a: nat, b: nat) -> nat {
    ((a as int - b as int) % (prime() as int)) as nat
}

/// Additive inverse modulo the field prime.
pub open spec fn field_neg(a: nat) -> nat {
    ((-(a as int)) % (prime() as int)) as nat
}

/// Product modulo the field prime.
pub open spec fn field_mul(a: nat, b: nat) -> nat {
    (a * b) % prime()
}

/// Square modulo the field prime.
pub open spec fn field_sq(a: nat) -> nat {
    field_mul(a, a)
}

/// `a` raised to the power `e`, modulo the field prime.
pub open spec fn field_pow(a: nat, e: nat) -> nat {
    (pow(a as int, e) % (prime() as int)) as nat
}

/// The inverse by Fermat's formula, `a^(p - 2)`. It sends 0 to 0.
pub open spec fn field_inv(a: nat) -> nat {
    field_pow(a, (prime() - 2) as nat)
}

/// The curve constant d = -121665/121666.
pub open spec fn curve_d() -> nat {
    0x52036cee2b6ffe738cc740797779e89800700a4d4141d8ab75eb4dca135978a3nat
}

/// The square root of -1 that the decoder multiplies a candidate root by.
pub open spec fn sqrt_minus_one() -> nat {
    0x2b8324804fc1df0b2b4d00993dfbd7a72f431806ad2fe478c4ee1b274a0ea0b0nat
}

/// The affine curve equation -x^2 + y^2 = 1 + d x^2 y^2, modulo the prime.
pub open spec fn on_curve(x: nat, y: nat) -> bool {
    field_sub(field_sq(y), field_sq(x)) == field_add(
        1,
        field_mul(curve_d(), field_mul(field_sq(x), field_sq(y))),
    )
}

/// The little-endian value of the bytes of `s` from index `i` on, with
/// `s[i]` as the lowest digit.
pub open spec fn le_value_from(s: Seq<u8>, i: nat) -> nat
    decreases s.len() - i,
{
    if i >= s.len() {
        0
    } else {
        s[i as int] as nat + 256 * le_value_from(s, i + 1)
    }
}

/// The number that `s` stands for when read as little-endian base 256.
pub open spec fn le_value(s: Seq<u8>) -> nat {
    le_value_from(s, 0)
}

/// The number whose 32-byte little-endian form encodes the affine point
/// `(x, y)`: `y` in the low 255 bits, the parity of `x` in bit 255.
pub open spec fn point_code(x: nat, y: nat) -> nat {
    y + two_255() * (x % 2)
}

/// The y-coordinate field of an encoded point: its low 255 bits.
pub open spec fn encoded_y(s: Seq<u8>) -> nat {
    le_value(s) % two_255()
}

/// The sign field of an encoded point: bit 255.
pub open spec fn encoded_sign(s: Seq<u8>) -> nat {
    (le_value(s) / two_255()) % 2
}

/// The numerator of x^2 in the curve equation solved for x: y^2 - 1.
pub open spec fn curve_u(y: nat) -> nat {
    field_sub(field_sq(y), 1)
}

/// The denominator of x^2 in the curve equation solved for x: d y^2 + 1.
pub open spec fn curve_v(y: nat) -> nat {
    field_add(field_mul(curve_d(), field_sq(y)), 1)
}

/// The exponent (p - 5) / 8 = 2^252 - 3 of the square-root candidate.
pub open spec fn root_exponent() -> nat {
    ((prime() - 5) / 8) as nat
}

/// The candidate `u v^3 (u v^7)^((p - 5) / 8)` for a square root of `u / v`.
pub open spec fn root_candidate(u: nat, v: nat) -> nat {
    let v3 = field_mul(field_sq(v), v);
    let v7 = field_mul(field_sq(v3), v);
    field_mul(field_mul(u, v3), field_pow(field_mul(u, v7), root_exponent()))
}

/// `x` solves `v x^2 = u`.
pub open spec fn is_root(x: nat, u: nat, v: nat) -> bool {
    field_mul(v, field_sq(x)) == u
}

/// The x-coordinate that decoding finds for `y`, before the sign is
/// applied: the candidate root, or the candidate times the square root of
/// -1, whichever solves `v x^2 = u`; none if neither does.
pub open spec fn recover_root(y: nat) -> Option<nat> {
    let u = curve_u(y);
    let v = curve_v(y);
    let c = root_candidate(u, v);
    let c_rotated = field_mul(c, sqrt_minus_one());
    if is_root(c, u, v) {
        Some(c)
    } else if is_root(c_rotated, u, v) {
        Some(c_rotated)
    } else {
        None
    }
}

/// `x` or its negative, whichever has the parity `sign`. Zero, which has
/// no odd form, stays zero.
pub open spec fn with_sign(x: nat, sign: nat) -> nat {
    if x % 2 == sign {
        x
    } else {
        field_neg(x)
    }
}

/// The affine point `(x, y)` that 32 bytes decode to, if any. The bytes
/// are rejected when their y field is not below the prime and when no x
/// is found for it.
pub open spec fn decode_point(s: Seq<u8>) -> Option<(nat, nat)> {
    let y = encoded_y(s);
    if y >= prime() {
        None
    } else {
        match recover_root(y) {
            Some(x) => Some((with_sign(x, encoded_sign(s)), y)),
            None => None,
        }
    }
}

/// The named constants are the powers of two they are said to be.
pub proof fn lemma_constants()
    ensures
        two_255() == pow2(255),
        prime() == pow2(255) - 19,
        prime() % 2 == 1,
{
    lemma2_to64();
    lemma2_to64_rest();
    lemma_pow2_adds(64, 64);
    lemma_pow2_adds(128, 64);
    lemma_pow2_adds(192, 63);
    let a = pow2(64);
    let b = pow2(128);
    let c = pow2(192);
    assert(a * a == 0x100000000000000000000000000000000) by (nonlinear_arith)
        requires
            a == 0x10000000000000000,
    ;
    assert(b * a == 0x1000000000000000000000000000000000000000000000000) by (nonlinear_arith)
        requires
            a == 0x10000000000000000,
            b == 0x100000000000000000000000000000000,
    ;
    assert(c * pow2(63) == two_255()) by (nonlinear_arith)
        requires
            c == 0x1000000000000000000000000000000000000000000000000,
            pow2(63) == 0x8000000000000000,
    ;
}

/// `curve_d()` is -121665/121666 and `sqrt_minus_one()` squares to -1.
pub proof fn lemma_curve_constants()
    ensures
        curve_d() < prime(),
        sqrt_minus_one() < prime(),
        field_add(field_mul(121666, curve_d()), 121665) == 0,
        field_add(field_sq(sqrt_minus_one()), 1) == 0,
{
    assert(121666 * curve_d() + 121665 == 77955 * prime());
    let k = 0xecaa2e2f6a2302ccedb31ac05720688238ced2078f3eb0ec9f22e8f621972e5nat;
    assert(sqrt_minus_one() * sqrt_minus_one() + 1 == k * prime());
    lemma_mod_multiples_basic(77955, prime() as int);
    lemma_mod_multiples_basic(k as int, prime() as int);
    lemma_add_mod_noop((121666 * curve_d()) as int, 121665, prime() as int);
    lemma_add_mod_noop((sqrt_minus_one() * sqrt_minus_one()) as int, 1, prime() as int);
}

} // verus!
