//! Laws of arithmetic modulo the prime that the proofs of this crate use.

use crate::field_math::{
    curve_d, curve_u, curve_v, field_add, field_inv, field_mul, field_neg, field_pow, field_sq,
    field_sub, is_root, on_curve, prime, two_255,
};
use vstd::arithmetic::div_mod::*;
use vstd::arithmetic::power::*;
use vstd::arithmetic::power2::*;
use vstd::prelude::*;

verus! {

/// The first power of a reduced number is the number.
pub proof fn lemma_pow_one(a: nat)
    requires
        a < prime(),
    ensures
        field_pow(a, 1) == a,
{
    lemma_pow1(a as int);
    lemma_small_mod(a, prime());
}

/// Powers of one base multiply by adding exponents.
pub proof fn lemma_pow_sum(a: nat, e1: nat, e2: nat)
    ensures
        field_mul(field_pow(a, e1), field_pow(a, e2)) == field_pow(a, e1 + e2),
{
    let p = prime() as int;
    lemma_pow_adds(a as int, e1, e2);
    lemma_mul_mod_noop_general(pow(a as int, e1), pow(a as int, e2), p);
}

/// A power of a power has the product of the exponents.
pub proof fn lemma_pow_pow(a: nat, e1: nat, e2: nat)
    ensures
        field_pow(field_pow(a, e1), e2) == field_pow(a, e1 * e2),
{
    let p = prime() as int;
    lemma_pow_mod_noop(pow(a as int, e1), e2, p);
    lemma_pow_multiplies(a as int, e1, e2);
}

/// From `a^(2^m - 1)` and `a^(2^n - 1)` to `a^(2^(m+n) - 1)`: raise the
/// first to the power `2^n` and multiply by the second.
pub proof fn lemma_mersenne_step(a: nat, m: nat, n: nat)
    ensures
        field_mul(
            field_pow(field_pow(a, (pow2(m) - 1) as nat), pow2(n)),
            field_pow(a, (pow2(n) - 1) as nat),
        ) == field_pow(a, (pow2(m + n) - 1) as nat),
{
    lemma_pow2_pos(m);
    lemma_pow2_pos(n);
    lemma_pow2_pos(m + n);
    lemma_pow2_adds(m, n);
    let x = pow2(m) as int;
    let y = pow2(n) as int;
    let e1 = (pow2(m) - 1) as nat;
    let e2 = (pow2(n) - 1) as nat;
    assert((x - 1) * y + (y - 1) == x * y - 1) by (nonlinear_arith);
    assert(e1 * pow2(n) + e2 == pow2(m + n) - 1);
    lemma_pow_pow(a, e1, pow2(n));
    lemma_pow_sum(a, e1 * pow2(n), e2);
}

/// The value of 2^250, from which the two long exponents are built.
pub proof fn lemma_pow2_250()
    ensures
        pow2(250) * 32 == two_255(),
        pow2(1) == 2,
        pow2(2) == 4,
        pow2(5) == 32,
{
    crate::field_math::lemma_constants();
    lemma2_to64();
    lemma_pow2_adds(250, 5);
    let x = pow2(250);
    assert(x * pow2(5) == x * 32) by (nonlinear_arith)
        requires
            pow2(5) == 32,
    ;
}

/// Every field operation returns a number below the prime.
pub proof fn lemma_field_ops_reduced(a: nat, b: nat, e: nat)
    ensures
        field_add(a, b) < prime(),
        field_sub(a, b) < prime(),
        field_neg(a) < prime(),
        field_mul(a, b) < prime(),
        field_pow(a, e) < prime(),
{
    let p = prime() as int;
    lemma_mod_bound((a + b) as int, p);
    lemma_mod_bound(a - b, p);
    lemma_mod_bound(-(a as int), p);
    lemma_mod_bound((a * b) as int, p);
    lemma_mod_bound(pow(a as int, e), p);
}

/// The negative of a reduced number: 0 for 0, else the prime less the
/// number, so that the parity changes exactly when the number is not 0.
pub proof fn lemma_neg_reduced(a: nat)
    requires
        a < prime(),
    ensures
        a == 0 ==> field_neg(a) == 0,
        a != 0 ==> field_neg(a) == prime() - a,
        a != 0 ==> field_neg(a) % 2 != a % 2,
        field_neg(field_neg(a)) == a,
{
    let p = prime() as int;
    if a != 0 {
        lemma_fundamental_div_mod_converse(-(a as int), p, -1, p - a);
        lemma_fundamental_div_mod_converse(-(p - a), p, -1, a as int);
    }
}

/// A product with a negated factor is the negated product.
pub proof fn lemma_mul_neg(a: nat, b: nat)
    ensures
        field_mul(field_neg(a), b) == field_neg(field_mul(a, b)),
        field_mul(b, field_neg(a)) == field_neg(field_mul(b, a)),
{
    let p = prime() as int;
    let na = -(a as int);
    lemma_mul_mod_noop_general(na, b as int, p);
    lemma_mul_mod_noop_general(b as int, na, p);
    lemma_sub_mod_noop_right(0, (a * b) as int, p);
    lemma_sub_mod_noop_right(0, (b * a) as int, p);
    assert(na * b == 0 - a * b) by (nonlinear_arith)
        requires
            na == -(a as int),
    ;
    assert(b * na == 0 - b * a) by (nonlinear_arith)
        requires
            na == -(a as int),
    ;
}

/// A number and its negative have the same square.
pub proof fn lemma_sq_neg(a: nat)
    ensures
        field_sq(field_neg(a)) == field_sq(a),
{
    let p = prime() as int;
    let na = -(a as int);
    lemma_mul_mod_noop_general(na, na, p);
    assert(na * na == a * a) by (nonlinear_arith)
        requires
            na == -(a as int),
    ;
}

/// Multiplying a reduced number by 1 leaves it; multiplying by 0 gives 0.
pub proof fn lemma_mul_unit(a: nat)
    requires
        a < prime(),
    ensures
        field_mul(a, 1) == a,
        field_mul(1, a) == a,
        field_mul(a, 0) == 0,
        field_mul(0, a) == 0,
{
    lemma_small_mod(a, prime());
    assert(a * 1 == a && 1 * a == a && a * 0 == 0 && 0 * a == 0) by (nonlinear_arith);
}

/// Fermat's formula sends 1 to 1 and 0 to 0.
pub proof fn lemma_inv_of_units()
    ensures
        field_inv(1) == 1,
        field_inv(0) == 0,
{
    let e = (prime() - 2) as nat;
    lemma1_pow(e);
    lemma0_pow(e);
}

/// Two reduced numbers are equal exactly when their difference is 0.
pub proof fn lemma_sub_zero(a: nat, b: nat)
    requires
        a < prime(),
        b < prime(),
    ensures
        field_sub(a, b) == 0 <==> a == b,
{
    let p = prime() as int;
    let d = a as int - b as int;
    if d % p == 0 {
        lemma_fundamental_div_mod(d, p);
        let q = d / p;
        assert(d == p * q);
        assert(q == 0) by (nonlinear_arith)
            requires
                d == p * q,
                -p < d < p,
                p > 0,
        ;
    }
}

/// A solution of `v x^2 = u`, with `u` and `v` taken from `y`, is the
/// x-coordinate of a point of the curve with that y-coordinate.
pub proof fn lemma_root_on_curve(x: nat, y: nat)
    requires
        is_root(x, curve_u(y), curve_v(y)),
    ensures
        on_curve(x, y),
{
    let p = prime() as int;
    let d = curve_d() as int;
    let xx = field_sq(x) as int;
    let yy = field_sq(y) as int;
    let u = curve_u(y) as int;
    let v = curve_v(y) as int;
    // v is congruent to d yy + 1, so v xx is congruent to (d yy + 1) xx.
    lemma_add_mod_noop(d * yy, 1, p);
    lemma_small_mod(1, prime());
    assert(v == (d * yy + 1) % p);
    lemma_mul_mod_noop_left(d * yy + 1, xx, p);
    assert(((d * yy + 1) * xx) % p == u);
    // u is (yy - 1) mod p, so the difference of the two is a multiple of p.
    lemma_mod_twice(yy - 1, p);
    lemma_mod_equivalence((d * yy + 1) * xx, yy - 1, p);
    let n = (d * yy + 1) * xx - (yy - 1);
    assert(n % p == 0);
    // The curve equation, with its inner reductions removed.
    lemma_mul_mod_noop_right(d, xx * yy, p);
    lemma_add_mod_noop_right(1, d * (xx * yy), p);
    assert(field_add(1, field_mul(curve_d(), field_mul(field_sq(x), field_sq(y)))) == (1 + d * (xx
        * yy)) % p);
    assert((yy - xx) - (1 + d * (xx * yy)) == -n) by (nonlinear_arith)
        requires
            n == (d * yy + 1) * xx - (yy - 1),
    ;
    lemma_fundamental_div_mod(n, p);
    let q = n / p;
    assert(-n == p * (-q)) by (nonlinear_arith)
        requires
            n == p * q,
    ;
    lemma_mod_multiples_basic(-q, p);
    assert((-q) * p == p * (-q)) by (nonlinear_arith);
    lemma_mod_equivalence(yy - xx, 1 + d * (xx * yy), p);
}

} // verus!
