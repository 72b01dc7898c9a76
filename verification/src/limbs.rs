//! Arithmetic modulo 2^255 - 19 on five limbs of 51 bits.
//!
//! This is the working form behind the point operations. Every function
//! states its result as a value of [`crate::field_math`]; the limbs are an
//! implementation matter, bounded by [`Fe51::reduced`].

use crate::field_math::prime;
use vstd::prelude::*;

verus! {

/// A field element as `l0 + l1 2^51 + l2 2^102 + l3 2^153 + l4 2^204`.
#[derive(Clone, Copy)]
pub struct Fe51 {
    pub l0: u64,
    pub l1: u64,
    pub l2: u64,
    pub l3: u64,
    pub l4: u64,
}

/// 2^51, the radix.
pub const RADIX: u128 = 0x8000000000000;

/// 2^51, the weight of limb 1.
pub open spec fn weight1() -> nat {
    0x8000000000000
}

/// 2^102, the weight of limb 2.
pub open spec fn weight2() -> nat {
    0x40000000000000000000000000
}

/// 2^153, the weight of limb 3.
pub open spec fn weight3() -> nat {
    0x200000000000000000000000000000000000000nat
}

/// 2^204, the weight of limb 4.
pub open spec fn weight4() -> nat {
    0x1000000000000000000000000000000000000000000000000000nat
}

/// The integer that five limbs stand for, before reduction.
pub open spec fn limbs_value(c0: nat, c1: nat, c2: nat, c3: nat, c4: nat) -> nat {
    c0 + c1 * weight1() + c2 * weight2() + c3 * weight3() + c4 * weight4()
}

impl Fe51 {
    /// The integer that the limbs stand for, before reduction.
    pub open spec fn int_value(self) -> nat {
        limbs_value(self.l0 as nat, self.l1 as nat, self.l2 as nat, self.l3 as nat, self.l4 as nat)
    }

    /// The field element: the limb sum modulo the prime.
    pub open spec fn value(self) -> nat {
        self.int_value() % prime()
    }

    /// Every limb is below 2^52: what each operation returns.
    pub open spec fn reduced(self) -> bool {
        &&& self.l0 < 0x10000000000000
        &&& self.l1 < 0x10000000000000
        &&& self.l2 < 0x10000000000000
        &&& self.l3 < 0x10000000000000
        &&& self.l4 < 0x10000000000000
    }

    /// Every limb is below 2^51 and the limb sum is below the prime, so
    /// that the limbs are a function of the field element.
    pub open spec fn canonical(self) -> bool {
        &&& self.l0 < 0x8000000000000
        &&& self.l1 < 0x8000000000000
        &&& self.l2 < 0x8000000000000
        &&& self.l3 < 0x8000000000000
        &&& self.l4 < 0x8000000000000
        &&& self.int_value() < prime()
    }
}

} // verus!
