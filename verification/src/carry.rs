//! Carry propagation: from wide limbs to limbs below 2^52.

use crate::field_math::prime;
use crate::limbs::{limbs_value, Fe51, RADIX};
use vstd::arithmetic::div_mod::*;
use vstd::prelude::*;

verus! {

/// Brings five wide limbs below 2^52 without changing the field element.
pub fn carry_wide(c0: u128, c1: u128, c2: u128, c3: u128, c4: u128) -> (r: Fe51)
    requires
        c0 < 0x80000000000000000000000000000,
        c1 < 0x80000000000000000000000000000,
        c2 < 0x80000000000000000000000000000,
        c3 < 0x80000000000000000000000000000,
        c4 < 0x80000000000000000000000000000,
    ensures
        r.reduced(),
        r.value() == limbs_value(c0 as nat, c1 as nat, c2 as nat, c3 as nat, c4 as nat) % prime(),
        r.l0 < 0x8000000000000,
        r.l1 < 0x8000000000000 + 0x80000,
        r.l2 < 0x8000000000000,
        r.l3 < 0x8000000000000,
        r.l4 < 0x8000000000000,
{
    let r0 = c0 % RADIX;
    let d1 = c1 + c0 / RADIX;
    let r1 = d1 % RADIX;
    let d2 = c2 + d1 / RADIX;
    let r2 = d2 % RADIX;
    let d3 = c3 + d2 / RADIX;
    let r3 = d3 % RADIX;
    let d4 = c4 + d3 / RADIX;
    let r4 = d4 % RADIX;
    let k = d4 / RADIX;
    let e0 = r0 + 19 * k;
    let f0 = e0 % RADIX;
    let f1 = r1 + e0 / RADIX;
    let r = Fe51 { l0: f0 as u64, l1: f1 as u64, l2: r2 as u64, l3: r3 as u64, l4: r4 as u64 };
    proof {
        let total = limbs_value(c0 as nat, c1 as nat, c2 as nat, c3 as nat, c4 as nat);
        assert(total == r.int_value() + k * prime());
        lemma_mod_multiples_vanish(k as int, r.int_value() as int, prime() as int);
    }
    r
}

} // verus!
