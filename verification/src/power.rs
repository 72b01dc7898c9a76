//! The two long powers: the inverse `a^(p - 2)` and the root exponent
//! `a^((p - 5) / 8)`. Both are built on `a^(2^250 - 1)`.

use crate::field_lemmas::{
    lemma_mersenne_step, lemma_pow2_250, lemma_pow_one, lemma_pow_pow, lemma_pow_sum,
};
use crate::field_math::{field_inv, field_mul, field_pow, prime};
use crate::limbs::Fe51;
use vstd::arithmetic::div_mod::*;
use vstd::arithmetic::power2::*;
use vstd::prelude::*;

verus! {

impl Fe51 {
    /// The field element squared `k` times: `self^(2^k)`.
    pub fn pow2k(&self, k: u32) -> (r: Fe51)
        requires
            self.reduced(),
        ensures
            r.reduced(),
            r.value() == field_pow(self.value(), pow2(k as nat)),
    {
        let mut acc = Fe51 { l0: self.l0, l1: self.l1, l2: self.l2, l3: self.l3, l4: self.l4 };
        let mut i: u32 = 0;
        proof {
            lemma2_to64();
            lemma_mod_bound(self.int_value() as int, prime() as int);
            lemma_pow_one(self.value());
        }
        while i < k
            invariant
                i <= k,
                acc.reduced(),
                acc.value() == field_pow(self.value(), pow2(i as nat)),
            decreases k - i,
        {
            acc = acc.square();
            proof {
                lemma_pow_sum(self.value(), pow2(i as nat), pow2(i as nat));
                lemma_pow2_unfold((i + 1) as nat);
            }
            i = i + 1;
        }
        acc
    }

    /// `self^(2^n)` times `low`.
    fn raise_and_mul(&self, n: u32, low: &Fe51) -> (r: Fe51)
        requires
            self.reduced(),
            low.reduced(),
        ensures
            r.reduced(),
            r.value() == field_mul(field_pow(self.value(), pow2(n as nat)), low.value()),
    {
        self.pow2k(n).mul(low)
    }

    /// `self^(2^250 - 1)`.
    pub fn pow_mersenne_250(&self) -> (r: Fe51)
        requires
            self.reduced(),
        ensures
            r.reduced(),
            r.value() == field_pow(self.value(), (pow2(250) - 1) as nat),
    {
        let ghost a = self.value();
        proof {
            lemma2_to64();
            lemma_mod_bound(self.int_value() as int, prime() as int);
            lemma_pow_one(a);
        }
        let t2 = self.raise_and_mul(1, self);
        proof {
            lemma_mersenne_step(a, 1, 1);
        }
        let t4 = t2.raise_and_mul(2, &t2);
        proof {
            lemma_mersenne_step(a, 2, 2);
        }
        let t5 = t4.raise_and_mul(1, self);
        proof {
            lemma_mersenne_step(a, 4, 1);
        }
        let t10 = t5.raise_and_mul(5, &t5);
        proof {
            lemma_mersenne_step(a, 5, 5);
        }
        let t20 = t10.raise_and_mul(10, &t10);
        proof {
            lemma_mersenne_step(a, 10, 10);
        }
        let t40 = t20.raise_and_mul(20, &t20);
        proof {
            lemma_mersenne_step(a, 20, 20);
        }
        let t50 = t40.raise_and_mul(10, &t10);
        proof {
            lemma_mersenne_step(a, 40, 10);
        }
        let t100 = t50.raise_and_mul(50, &t50);
        proof {
            lemma_mersenne_step(a, 50, 50);
        }
        let t200 = t100.raise_and_mul(100, &t100);
        proof {
            lemma_mersenne_step(a, 100, 100);
        }
        let t250 = t200.raise_and_mul(50, &t50);
        proof {
            lemma_mersenne_step(a, 200, 50);
        }
        t250
    }

    /// The inverse by Fermat's formula; 0 for 0.
    pub fn invert(&self) -> (r: Fe51)
        requires
            self.reduced(),
        ensures
            r.reduced(),
            r.value() == field_inv(self.value()),
    {
        let ghost a = self.value();
        proof {
            lemma_mod_bound(self.int_value() as int, prime() as int);
            lemma_pow_one(a);
        }
        let a2 = self.square();
        let a4 = a2.square();
        let a8 = a4.square();
        let a9 = a8.mul(self);
        let a11 = a9.mul(&a2);
        proof {
            lemma_pow_sum(a, 1, 1);
            lemma_pow_sum(a, 2, 2);
            lemma_pow_sum(a, 4, 4);
            lemma_pow_sum(a, 8, 1);
            lemma_pow_sum(a, 9, 2);
            assert(a11.value() == field_pow(a, 11));
        }
        let t = self.pow_mersenne_250();
        let r = t.raise_and_mul(5, &a11);
        proof {
            lemma_pow2_250();
            let e = (pow2(250) - 1) as nat;
            lemma_pow_pow(a, e, 32);
            lemma_pow_sum(a, e * 32, 11);
            assert(e * 32 + 11 == prime() - 2);
        }
        r
    }

    /// `self^((p - 5) / 8)`, the exponent of the square-root candidate.
    pub fn pow_p58(&self) -> (r: Fe51)
        requires
            self.reduced(),
        ensures
            r.reduced(),
            r.value() == field_pow(self.value(), ((prime() - 5) / 8) as nat),
    {
        let ghost a = self.value();
        proof {
            lemma_mod_bound(self.int_value() as int, prime() as int);
            lemma_pow_one(a);
        }
        let t = self.pow_mersenne_250();
        let r = t.raise_and_mul(2, self);
        proof {
            lemma_pow2_250();
            let e = (pow2(250) - 1) as nat;
            lemma_pow_pow(a, e, 4);
            lemma_pow_sum(a, e * 4, 1);
            assert(e * 4 + 1 == (prime() - 5) / 8);
        }
        r
    }
}

} // verus!
