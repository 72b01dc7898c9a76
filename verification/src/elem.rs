//! The ten-limb form in which points carry their coordinates, and its
//! conversion to and from the five working limbs.

use crate::carry::carry_wide;
use crate::field_math::prime;
use crate::limbs::{limbs_value, Fe51};
use vstd::arithmetic::div_mod::*;
use vstd::prelude::*;

verus! {

/// Number of limbs of an [`Elem`].
pub const ELEM_LIMBS: usize = 10;

/// A field element as ten signed limbs in radix 2^25.5: limb `i` weighs
/// 2^ceil(25.5 i), so even limbs span 26 bits and odd limbs 25.
pub type Elem = [i32; 10];

/// The integer that the ten limbs stand for, before reduction.
pub open spec fn elem_int(e: Elem) -> int {
    e[0] + e[1] * 0x4000000 + e[2] * 0x8000000000000 + e[3] * 0x20000000000000000000 + e[4]
        * 0x40000000000000000000000000 + e[5] * 0x100000000000000000000000000000000int + e[6]
        * 0x200000000000000000000000000000000000000int + e[7]
        * 0x800000000000000000000000000000000000000000000int + e[8]
        * 0x1000000000000000000000000000000000000000000000000000int + e[9]
        * 0x4000000000000000000000000000000000000000000000000000000000int
}

/// The field element: the limb sum modulo the prime.
pub open spec fn elem_value(e: Elem) -> nat {
    (elem_int(e) % (prime() as int)) as nat
}

/// No limb is `i32::MIN`: the symmetric range, within which every limb can
/// change its sign.
pub open spec fn elem_symmetric(e: Elem) -> bool {
    forall|i: int| 0 <= i < 10 ==> e[i] > i32::MIN
}

/// Even limbs in `[0, 2^26)`, odd limbs in `[0, 2^25)`, and the limb sum
/// below the prime. Each field element has one such form.
pub open spec fn elem_canonical(e: Elem) -> bool {
    &&& 0 <= e[0] < 0x4000000
    &&& 0 <= e[1] < 0x2000000
    &&& 0 <= e[2] < 0x4000000
    &&& 0 <= e[3] < 0x2000000
    &&& 0 <= e[4] < 0x4000000
    &&& 0 <= e[5] < 0x2000000
    &&& 0 <= e[6] < 0x4000000
    &&& 0 <= e[7] < 0x2000000
    &&& 0 <= e[8] < 0x4000000
    &&& 0 <= e[9] < 0x2000000
    &&& elem_int(e) < prime()
}

/// Two limbs of an `Elem` as one wide limb, raised by the matching limb
/// of 256 times the prime so that it cannot be negative.
fn pair_limb(lo: i32, hi: i32, lift: i64) -> (r: u128)
    requires
        0x7ffffffffffed00 <= lift <= 0x7ffffffffffff00,
    ensures
        r == lo + hi * 0x4000000 + lift,
        r < 0x1000000000000000,
{
    let wide: i64 = (lo as i64) + (hi as i64) * 0x4000000 + lift;
    wide as u128
}

/// Ten limbs in radix 2^25.5 pair up into five limbs in radix 2^51, and
/// the five lifts add up to 256 times the prime.
proof fn lemma_pairs(
    e0: int,
    e1: int,
    e2: int,
    e3: int,
    e4: int,
    e5: int,
    e6: int,
    e7: int,
    e8: int,
    e9: int,
)
    ensures
        (e0 + e1 * 0x4000000 + 0x7ffffffffffed00) + (e2 + e3 * 0x4000000 + 0x7ffffffffffff00)
            * 0x8000000000000 + (e4 + e5 * 0x4000000 + 0x7ffffffffffff00)
            * 0x40000000000000000000000000 + (e6 + e7 * 0x4000000 + 0x7ffffffffffff00)
            * 0x200000000000000000000000000000000000000int + (e8 + e9 * 0x4000000
            + 0x7ffffffffffff00) * 0x1000000000000000000000000000000000000000000000000000int
            == e0 + e1 * 0x4000000 + e2 * 0x8000000000000 + e3 * 0x20000000000000000000 + e4
            * 0x40000000000000000000000000 + e5 * 0x100000000000000000000000000000000int + e6
            * 0x200000000000000000000000000000000000000int + e7
            * 0x800000000000000000000000000000000000000000000int + e8
            * 0x1000000000000000000000000000000000000000000000000000int + e9
            * 0x4000000000000000000000000000000000000000000000000000000000int + 256
            * 0x7fffffffffffffffffffffffffffffffffffffffffffffffffffffffffffffedint,
{
}

/// The working limbs of a field element given in ten limbs. Every
/// `Elem` is accepted, whatever its limbs.
pub fn elem_to_limbs(e: &Elem) -> (r: Fe51)
    ensures
        r.reduced(),
        r.value() == elem_value(*e),
{
    let c0 = pair_limb(e[0], e[1], 0x7ffffffffffed00);
    let c1 = pair_limb(e[2], e[3], 0x7ffffffffffff00);
    let c2 = pair_limb(e[4], e[5], 0x7ffffffffffff00);
    let c3 = pair_limb(e[6], e[7], 0x7ffffffffffff00);
    let c4 = pair_limb(e[8], e[9], 0x7ffffffffffff00);
    let r = carry_wide(c0, c1, c2, c3, c4);
    proof {
        lemma_pairs(
            e[0] as int,
            e[1] as int,
            e[2] as int,
            e[3] as int,
            e[4] as int,
            e[5] as int,
            e[6] as int,
            e[7] as int,
            e[8] as int,
            e[9] as int,
        );
        let total = limbs_value(c0 as nat, c1 as nat, c2 as nat, c3 as nat, c4 as nat) as int;
        assert(total == prime() * 256 + elem_int(*e));
        lemma_mod_multiples_vanish(256, elem_int(*e), prime() as int);
    }
    r
}

/// One working limb below 2^51 as a limb of 26 bits and a limb of 25.
fn split_limb(l: u64) -> (r: (i32, i32))
    requires
        l < 0x8000000000000,
    ensures
        0 <= r.0 < 0x4000000,
        0 <= r.1 < 0x2000000,
        l == r.0 + r.1 * 0x4000000,
{
    ((l % 0x4000000) as i32, (l / 0x4000000) as i32)
}

/// The canonical ten limbs of a canonical field element.
pub fn limbs_to_elem(f: &Fe51) -> (r: Elem)
    requires
        f.canonical(),
    ensures
        elem_canonical(r),
        elem_int(r) == f.int_value(),
{
    let (e0, e1) = split_limb(f.l0);
    let (e2, e3) = split_limb(f.l1);
    let (e4, e5) = split_limb(f.l2);
    let (e6, e7) = split_limb(f.l3);
    let (e8, e9) = split_limb(f.l4);
    let r = [e0, e1, e2, e3, e4, e5, e6, e7, e8, e9];
    proof {
        lemma_pairs(
            e0 as int,
            e1 as int,
            e2 as int,
            e3 as int,
            e4 as int,
            e5 as int,
            e6 as int,
            e7 as int,
            e8 as int,
            e9 as int,
        );
        assert(r[0] == e0 && r[1] == e1 && r[2] == e2 && r[3] == e3 && r[4] == e4);
        assert(r[5] == e5 && r[6] == e6 && r[7] == e7 && r[8] == e8 && r[9] == e9);
    }
    r
}

} // verus!
