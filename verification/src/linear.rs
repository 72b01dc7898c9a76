//! Constants, sums, differences and negation of field elements.

use crate::carry::carry_wide;
use crate::field_math::{curve_d, field_add, field_neg, field_sub, prime, sqrt_minus_one};
use crate::limbs::{limbs_value, Fe51};
use vstd::arithmetic::div_mod::*;
use vstd::prelude::*;

verus! {

impl Fe51 {
    /// The field element 0.
    pub fn zero() -> (r: Fe51)
        ensures
            r.canonical(),
            r.int_value() == 0,
    {
        Fe51 { l0: 0, l1: 0, l2: 0, l3: 0, l4: 0 }
    }

    /// The field element 1.
    pub fn one() -> (r: Fe51)
        ensures
            r.canonical(),
            r.int_value() == 1,
    {
        Fe51 { l0: 1, l1: 0, l2: 0, l3: 0, l4: 0 }
    }

    /// The curve constant d.
    pub fn curve_constant() -> (r: Fe51)
        ensures
            r.canonical(),
            r.int_value() == curve_d(),
    {
        Fe51 {
            l0: 0x34dca135978a3,
            l1: 0x1a8283b156ebd,
            l2: 0x5e7a26001c029,
            l3: 0x739c663a03cbb,
            l4: 0x52036cee2b6ff,
        }
    }

    /// The square root of -1 used in decoding.
    pub fn root_of_minus_one() -> (r: Fe51)
        ensures
            r.canonical(),
            r.int_value() == sqrt_minus_one(),
    {
        Fe51 {
            l0: 0x61b274a0ea0b0,
            l1: 0x0d5a5fc8f189d,
            l2: 0x7ef5e9cbd0c60,
            l3: 0x78595a6804c9e,
            l4: 0x2b8324804fc1d,
        }
    }

    /// The sum of two field elements.
    pub fn plus(&self, rhs: &Fe51) -> (r: Fe51)
        requires
            self.reduced(),
            rhs.reduced(),
        ensures
            r.reduced(),
            r.value() == field_add(self.value(), rhs.value()),
    {
        let r = carry_wide(
            self.l0 as u128 + rhs.l0 as u128,
            self.l1 as u128 + rhs.l1 as u128,
            self.l2 as u128 + rhs.l2 as u128,
            self.l3 as u128 + rhs.l3 as u128,
            self.l4 as u128 + rhs.l4 as u128,
        );
        proof {
            let a = self.int_value() as int;
            let b = rhs.int_value() as int;
            assert(limbs_value(
                (self.l0 + rhs.l0) as nat,
                (self.l1 + rhs.l1) as nat,
                (self.l2 + rhs.l2) as nat,
                (self.l3 + rhs.l3) as nat,
                (self.l4 + rhs.l4) as nat,
            ) == a + b);
            lemma_add_mod_noop(a, b, prime() as int);
        }
        r
    }

    /// The difference of two field elements. Four times the prime is added
    /// limb by limb first, so that no limb goes below zero.
    pub fn minus(&self, rhs: &Fe51) -> (r: Fe51)
        requires
            self.reduced(),
            rhs.reduced(),
        ensures
            r.reduced(),
            r.value() == field_sub(self.value(), rhs.value()),
    {
        let c0 = self.l0 as u128 + 0x1fffffffffffb4 - rhs.l0 as u128;
        let c1 = self.l1 as u128 + 0x1ffffffffffffc - rhs.l1 as u128;
        let c2 = self.l2 as u128 + 0x1ffffffffffffc - rhs.l2 as u128;
        let c3 = self.l3 as u128 + 0x1ffffffffffffc - rhs.l3 as u128;
        let c4 = self.l4 as u128 + 0x1ffffffffffffc - rhs.l4 as u128;
        let r = carry_wide(c0, c1, c2, c3, c4);
        proof {
            let a = self.int_value() as int;
            let b = rhs.int_value() as int;
            assert(limbs_value(c0 as nat, c1 as nat, c2 as nat, c3 as nat, c4 as nat) == (a - b)
                + 4 * prime());
            lemma_mod_multiples_vanish(4, a - b, prime() as int);
            lemma_sub_mod_noop(a, b, prime() as int);
        }
        r
    }

    /// The additive inverse of a field element.
    pub fn negated(&self) -> (r: Fe51)
        requires
            self.reduced(),
        ensures
            r.reduced(),
            r.value() == field_neg(self.value()),
    {
        let z = Fe51::zero();
        let r = z.minus(self);
        proof {
            lemma_small_mod(0, prime());
            lemma_sub_mod_noop(0, self.int_value() as int, prime() as int);
        }
        r
    }
}

} // verus!
