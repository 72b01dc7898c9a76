//! The canonical form of a field element, and the tests that need it.

use crate::carry::carry_wide;
use crate::field_math::prime;
use crate::limbs::Fe51;
use vstd::arithmetic::div_mod::*;
use vstd::prelude::*;

verus! {

/// 2^51, the radix, as a limb.
pub const RADIX64: u64 = 0x8000000000000;

impl Fe51 {
    /// The same field element with limbs below 2^51 and limb sum below
    /// the prime.
    pub fn freeze(&self) -> (r: Fe51)
        requires
            self.reduced(),
        ensures
            r.canonical(),
            r.int_value() == self.value(),
    {
        let t = carry_wide(
            self.l0 as u128,
            self.l1 as u128,
            self.l2 as u128,
            self.l3 as u128,
            self.l4 as u128,
        );
        // q is 1 exactly when the limb sum of t is at least the prime,
        // that is when adding 19 carries out of bit 255.
        let q0 = (t.l0 + 19) / RADIX64;
        let q1 = (t.l1 + q0) / RADIX64;
        let q2 = (t.l2 + q1) / RADIX64;
        let q3 = (t.l3 + q2) / RADIX64;
        let q = (t.l4 + q3) / RADIX64;
        let ghost v = t.int_value() as int;
        proof {
            let m0 = (t.l0 + 19) % (RADIX64 as int);
            let m1 = (t.l1 + q0) % (RADIX64 as int);
            let m2 = (t.l2 + q1) % (RADIX64 as int);
            let m3 = (t.l3 + q2) % (RADIX64 as int);
            let m4 = (t.l4 + q3) % (RADIX64 as int);
            assert(v + 19 == m0 + m1 * 0x8000000000000 + m2 * 0x40000000000000000000000000 + m3
                * 0x200000000000000000000000000000000000000int + m4
                * 0x1000000000000000000000000000000000000000000000000000int + q
                * 0x8000000000000000000000000000000000000000000000000000000000000000int);
            assert(q <= 1);
            assert(q == 1 <==> v >= prime());
            assert(v < 2 * prime());
        }
        // Add 19 q and drop the carry out of bit 255: this subtracts q p.
        let s0 = t.l0 + 19 * q;
        let r0 = s0 % RADIX64;
        let s1 = t.l1 + s0 / RADIX64;
        let r1 = s1 % RADIX64;
        let s2 = t.l2 + s1 / RADIX64;
        let r2 = s2 % RADIX64;
        let s3 = t.l3 + s2 / RADIX64;
        let r3 = s3 % RADIX64;
        let s4 = t.l4 + s3 / RADIX64;
        let r4 = s4 % RADIX64;
        let r = Fe51 { l0: r0, l1: r1, l2: r2, l3: r3, l4: r4 };
        proof {
            let top = s4 / RADIX64;
            assert(v + 19 * q == r.int_value() + top
                * 0x8000000000000000000000000000000000000000000000000000000000000000int);
            assert(top == q);
            assert(r.int_value() == v - q * prime());
            assert(r.int_value() < prime());
            if q == 1 {
                lemma_mod_multiples_vanish(1, r.int_value() as int, prime() as int);
            }
            lemma_small_mod(r.int_value(), prime());
        }
        r
    }

    /// Whether the field element is 0.
    pub fn is_zero(&self) -> (r: bool)
        requires
            self.reduced(),
        ensures
            r == (self.value() == 0),
    {
        let f = self.freeze();
        f.l0 == 0 && f.l1 == 0 && f.l2 == 0 && f.l3 == 0 && f.l4 == 0
    }

    /// Whether the field element, taken in `[0, p)`, is odd: the sign that
    /// an encoded point stores for its x-coordinate.
    pub fn is_odd(&self) -> (r: bool)
        requires
            self.reduced(),
        ensures
            r == (self.value() % 2 == 1),
    {
        let f = self.freeze();
        proof {
            let hi = f.l1 * 0x4000000000000 + f.l2 * 0x20000000000000000000000000 + f.l3
                * 0x100000000000000000000000000000000000000int + f.l4
                * 0x800000000000000000000000000000000000000000000000000int;
            assert(f.int_value() == f.l0 + 2 * hi);
        }
        f.l0 % 2 == 1
    }
}

} // verus!
