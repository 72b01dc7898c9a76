//! Multiplication of field elements.

use crate::carry::carry_wide;
use crate::field_math::{field_mul, prime};
use crate::limbs::{limbs_value, Fe51};
use vstd::arithmetic::div_mod::*;
use vstd::prelude::*;

verus! {

/// One factor distributes over the five weighted limbs of the other.
proof fn lemma_row(x: int, b0: int, b1: int, b2: int, b3: int, b4: int)
    by (nonlinear_arith)
    ensures
        x * (b0 + b1 * 0x8000000000000 + b2 * 0x40000000000000000000000000 + b3
            * 0x200000000000000000000000000000000000000int + b4
            * 0x1000000000000000000000000000000000000000000000000000int) == x * b0 + (x * b1)
            * 0x8000000000000 + (x * b2) * 0x40000000000000000000000000 + (x * b3)
            * 0x200000000000000000000000000000000000000int + (x * b4)
            * 0x1000000000000000000000000000000000000000000000000000int,
{
}

/// Five weighted limbs times one factor.
proof fn lemma_column(a0: int, a1: int, a2: int, a3: int, a4: int, b: int)
    by (nonlinear_arith)
    ensures
        (a0 + a1 * 0x8000000000000 + a2 * 0x40000000000000000000000000 + a3
            * 0x200000000000000000000000000000000000000int + a4
            * 0x1000000000000000000000000000000000000000000000000000int) * b == a0 * b + (a1 * b)
            * 0x8000000000000 + (a2 * b) * 0x40000000000000000000000000 + (a3 * b)
            * 0x200000000000000000000000000000000000000int + (a4 * b)
            * 0x1000000000000000000000000000000000000000000000000000int,
{
}

/// The schoolbook product of two limb sums, folded at 2^255 = p + 19:
/// the five columns `c0..c4` and the multiple of the prime that is dropped.
proof fn lemma_product_folds(
    a0: int,
    a1: int,
    a2: int,
    a3: int,
    a4: int,
    b0: int,
    b1: int,
    b2: int,
    b3: int,
    b4: int,
)
    ensures
        (a0 + a1 * 0x8000000000000 + a2 * 0x40000000000000000000000000 + a3
            * 0x200000000000000000000000000000000000000int + a4
            * 0x1000000000000000000000000000000000000000000000000000int) * (b0 + b1
            * 0x8000000000000 + b2 * 0x40000000000000000000000000 + b3
            * 0x200000000000000000000000000000000000000int + b4
            * 0x1000000000000000000000000000000000000000000000000000int) == (a0 * b0 + 19 * (a1
            * b4 + a2 * b3 + a3 * b2 + a4 * b1)) + (a0 * b1 + a1 * b0 + 19 * (a2 * b4 + a3 * b3
            + a4 * b2)) * 0x8000000000000 + (a0 * b2 + a1 * b1 + a2 * b0 + 19 * (a3 * b4 + a4
            * b3)) * 0x40000000000000000000000000 + (a0 * b3 + a1 * b2 + a2 * b1 + a3 * b0 + 19
            * (a4 * b4)) * 0x200000000000000000000000000000000000000int + (a0 * b4 + a1 * b3 + a2
            * b2 + a3 * b1 + a4 * b0) * 0x1000000000000000000000000000000000000000000000000000int
            + 0x7fffffffffffffffffffffffffffffffffffffffffffffffffffffffffffffedint * ((a1 * b4
            + a2 * b3 + a3 * b2 + a4 * b1) + (a2 * b4 + a3 * b3 + a4 * b2) * 0x8000000000000 + (a3
            * b4 + a4 * b3) * 0x40000000000000000000000000 + (a4 * b4)
            * 0x200000000000000000000000000000000000000int),
{
    let b = b0 + b1 * 0x8000000000000 + b2 * 0x40000000000000000000000000 + b3
        * 0x200000000000000000000000000000000000000int + b4
        * 0x1000000000000000000000000000000000000000000000000000int;
    lemma_column(a0, a1, a2, a3, a4, b);
    lemma_row(a0, b0, b1, b2, b3, b4);
    lemma_row(a1, b0, b1, b2, b3, b4);
    lemma_row(a2, b0, b1, b2, b3, b4);
    lemma_row(a3, b0, b1, b2, b3, b4);
    lemma_row(a4, b0, b1, b2, b3, b4);
}

/// A product of two limbs below 2^52 fits well inside 128 bits.
fn wide_product(x: u64, y: u64) -> (r: u128)
    requires
        x < 0x10000000000000,
        y < 0x10000000000000,
    ensures
        r == x * y,
        r < 0x100000000000000000000000000,
{
    assert(x * y < 0x100000000000000000000000000) by (nonlinear_arith)
        requires
            x < 0x10000000000000,
            y < 0x10000000000000,
    ;
    (x as u128) * (y as u128)
}

impl Fe51 {
    /// The product of two field elements.
    pub fn mul(&self, rhs: &Fe51) -> (r: Fe51)
        requires
            self.reduced(),
            rhs.reduced(),
        ensures
            r.reduced(),
            r.value() == field_mul(self.value(), rhs.value()),
    {
        let m00 = wide_product(self.l0, rhs.l0);
        let m01 = wide_product(self.l0, rhs.l1);
        let m02 = wide_product(self.l0, rhs.l2);
        let m03 = wide_product(self.l0, rhs.l3);
        let m04 = wide_product(self.l0, rhs.l4);
        let m10 = wide_product(self.l1, rhs.l0);
        let m11 = wide_product(self.l1, rhs.l1);
        let m12 = wide_product(self.l1, rhs.l2);
        let m13 = wide_product(self.l1, rhs.l3);
        let m14 = wide_product(self.l1, rhs.l4);
        let m20 = wide_product(self.l2, rhs.l0);
        let m21 = wide_product(self.l2, rhs.l1);
        let m22 = wide_product(self.l2, rhs.l2);
        let m23 = wide_product(self.l2, rhs.l3);
        let m24 = wide_product(self.l2, rhs.l4);
        let m30 = wide_product(self.l3, rhs.l0);
        let m31 = wide_product(self.l3, rhs.l1);
        let m32 = wide_product(self.l3, rhs.l2);
        let m33 = wide_product(self.l3, rhs.l3);
        let m34 = wide_product(self.l3, rhs.l4);
        let m40 = wide_product(self.l4, rhs.l0);
        let m41 = wide_product(self.l4, rhs.l1);
        let m42 = wide_product(self.l4, rhs.l2);
        let m43 = wide_product(self.l4, rhs.l3);
        let m44 = wide_product(self.l4, rhs.l4);
        let c0 = m00 + 19 * (m14 + m23 + m32 + m41);
        let c1 = m01 + m10 + 19 * (m24 + m33 + m42);
        let c2 = m02 + m11 + m20 + 19 * (m34 + m43);
        let c3 = m03 + m12 + m21 + m30 + 19 * m44;
        let c4 = m04 + m13 + m22 + m31 + m40;
        let r = carry_wide(c0, c1, c2, c3, c4);
        proof {
            let a = self.int_value() as int;
            let b = rhs.int_value() as int;
            let c = limbs_value(c0 as nat, c1 as nat, c2 as nat, c3 as nat, c4 as nat) as int;
            let fold = (m14 + m23 + m32 + m41) + (m24 + m33 + m42) * 0x8000000000000 + (m34 + m43)
                * 0x40000000000000000000000000 + m44
                * 0x200000000000000000000000000000000000000int;
            lemma_product_folds(
                self.l0 as int,
                self.l1 as int,
                self.l2 as int,
                self.l3 as int,
                self.l4 as int,
                rhs.l0 as int,
                rhs.l1 as int,
                rhs.l2 as int,
                rhs.l3 as int,
                rhs.l4 as int,
            );
            assert(a * b == c + prime() * fold);
            lemma_mod_multiples_vanish(fold, c, prime() as int);
            lemma_mul_mod_noop_general(a, b, prime() as int);
        }
        r
    }

    /// The square of a field element.
    pub fn square(&self) -> (r: Fe51)
        requires
            self.reduced(),
        ensures
            r.reduced(),
            r.value() == field_mul(self.value(), self.value()),
    {
        self.mul(self)
    }
}

} // verus!
