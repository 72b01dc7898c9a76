//! Between 32 little-endian bytes and five limbs: the byte string is read
//! as four 64-bit words, and the words are cut at multiples of 51 bits.

use crate::field_math::{encoded_sign, encoded_y, le_value, le_value_from, prime, two_255};
use crate::limbs::Fe51;
use vstd::arithmetic::div_mod::*;
use vstd::prelude::*;

verus! {

/// The little-endian value of the eight bytes of `s` that start at `off`.
pub open spec fn word_at(s: Seq<u8>, off: int) -> nat {
    (s[off] + s[off + 1] * 0x100 + s[off + 2] * 0x10000 + s[off + 3] * 0x1000000 + s[off + 4]
        * 0x100000000 + s[off + 5] * 0x10000000000 + s[off + 6] * 0x1000000000000 + s[off + 7]
        * 0x100000000000000) as nat
}

/// Eight bytes weigh as one word, and the rest follows 64 bits higher.
proof fn lemma_word_step(s: Seq<u8>, off: nat)
    requires
        off + 8 <= s.len(),
    ensures
        le_value_from(s, off) == word_at(s, off as int) + 0x10000000000000000 * le_value_from(
            s,
            off + 8,
        ),
{
    assert(le_value_from(s, off + 7) == s[off as int + 7] + 256 * le_value_from(s, off + 8));
    assert(le_value_from(s, off + 6) == s[off as int + 6] + 256 * le_value_from(s, off + 7));
    assert(le_value_from(s, off + 5) == s[off as int + 5] + 256 * le_value_from(s, off + 6));
    assert(le_value_from(s, off + 4) == s[off as int + 4] + 256 * le_value_from(s, off + 5));
    assert(le_value_from(s, off + 3) == s[off as int + 3] + 256 * le_value_from(s, off + 4));
    assert(le_value_from(s, off + 2) == s[off as int + 2] + 256 * le_value_from(s, off + 3));
    assert(le_value_from(s, off + 1) == s[off as int + 1] + 256 * le_value_from(s, off + 2));
    assert(le_value_from(s, off) == s[off as int] + 256 * le_value_from(s, off + 1));
}

/// The value of 32 bytes, written with their four words.
pub proof fn lemma_le_value_words(s: Seq<u8>)
    requires
        s.len() == 32,
    ensures
        le_value(s) == word_at(s, 0) + word_at(s, 8) * 0x10000000000000000 + word_at(s, 16)
            * 0x100000000000000000000000000000000 + word_at(s, 24)
            * 0x1000000000000000000000000000000000000000000000000int,
        le_value(s) < 0x10000000000000000000000000000000000000000000000000000000000000000int,
{
    lemma_word_step(s, 0);
    lemma_word_step(s, 8);
    lemma_word_step(s, 16);
    lemma_word_step(s, 24);
    assert(le_value_from(s, 32) == 0);
}

/// Reads the word that starts at byte `off`.
fn load_word(bytes: &[u8; 32], off: usize) -> (w: u64)
    requires
        off + 8 <= 32,
    ensures
        w == word_at(bytes@, off as int),
{
    (bytes[off] as u64) + (bytes[off + 1] as u64) * 0x100 + (bytes[off + 2] as u64) * 0x10000 + (
    bytes[off + 3] as u64) * 0x1000000 + (bytes[off + 4] as u64) * 0x100000000 + (bytes[off
        + 5] as u64) * 0x10000000000 + (bytes[off + 6] as u64) * 0x1000000000000 + (bytes[off
        + 7] as u64) * 0x100000000000000
}

/// Cuts a word into its eight bytes, lowest first.
fn word_bytes(w: u64) -> (r: [u8; 8])
    ensures
        word_at(r@, 0) == w,
{
    let b0 = (w % 256) as u8;
    let t1 = w / 256;
    let b1 = (t1 % 256) as u8;
    let t2 = t1 / 256;
    let b2 = (t2 % 256) as u8;
    let t3 = t2 / 256;
    let b3 = (t3 % 256) as u8;
    let t4 = t3 / 256;
    let b4 = (t4 % 256) as u8;
    let t5 = t4 / 256;
    let b5 = (t5 % 256) as u8;
    let t6 = t5 / 256;
    let b6 = (t6 % 256) as u8;
    let t7 = t6 / 256;
    let b7 = t7 as u8;
    [b0, b1, b2, b3, b4, b5, b6, b7]
}

/// Lays four words of eight bytes side by side.
fn join_words(a: &[u8; 8], b: &[u8; 8], c: &[u8; 8], d: &[u8; 8]) -> (r: [u8; 32])
    ensures
        word_at(r@, 0) == word_at(a@, 0),
        word_at(r@, 8) == word_at(b@, 0),
        word_at(r@, 16) == word_at(c@, 0),
        word_at(r@, 24) == word_at(d@, 0),
{
    [
        a[0], a[1], a[2], a[3], a[4], a[5], a[6], a[7],
        b[0], b[1], b[2], b[3], b[4], b[5], b[6], b[7],
        c[0], c[1], c[2], c[3], c[4], c[5], c[6], c[7],
        d[0], d[1], d[2], d[3], d[4], d[5], d[6], d[7],
    ]
}

/// The sign bit of an encoded point: the top bit of the last byte.
pub fn sign_bit(bytes: &[u8; 32]) -> (r: bool)
    ensures
        r == (encoded_sign(bytes@) == 1),
{
    let w3 = load_word(bytes, 24);
    proof {
        lemma_le_value_words(bytes@);
        let low = word_at(bytes@, 0) + word_at(bytes@, 8) * 0x10000000000000000 + word_at(
            bytes@,
            16,
        ) * 0x100000000000000000000000000000000 + (w3 % 0x8000000000000000)
            * 0x1000000000000000000000000000000000000000000000000int;
        let top = (w3 / 0x8000000000000000) as int;
        assert(le_value(bytes@) == top * two_255() + low);
        lemma_fundamental_div_mod_converse(le_value(bytes@) as int, two_255() as int, top, low);
    }
    w3 / 0x8000000000000000 == 1
}

impl Fe51 {
    /// The y-coordinate field of an encoded point, as limbs below 2^51.
    /// The value may lie anywhere in `[0, 2^255)`: see [`Fe51::below_prime`].
    pub fn from_bytes(bytes: &[u8; 32]) -> (r: Fe51)
        ensures
            r.int_value() == encoded_y(bytes@),
            r.l0 < 0x8000000000000,
            r.l1 < 0x8000000000000,
            r.l2 < 0x8000000000000,
            r.l3 < 0x8000000000000,
            r.l4 < 0x8000000000000,
    {
        let w0 = load_word(bytes, 0);
        let w1 = load_word(bytes, 8);
        let w2 = load_word(bytes, 16);
        let w3 = load_word(bytes, 24);
        let l0 = w0 % 0x8000000000000;
        let l1 = w0 / 0x8000000000000 + (w1 % 0x4000000000) * 0x2000;
        let l2 = w1 / 0x4000000000 + (w2 % 0x2000000) * 0x4000000;
        let l3 = w2 / 0x2000000 + (w3 % 0x1000) * 0x8000000000;
        let l4 = (w3 / 0x1000) % 0x8000000000000;
        let r = Fe51 { l0, l1, l2, l3, l4 };
        proof {
            lemma_le_value_words(bytes@);
            let top = (w3 / 0x8000000000000000) as int;
            assert((w3 / 0x1000) / 0x8000000000000 == top);
            assert(le_value(bytes@) == top * two_255() + r.int_value());
            assert(r.int_value() < two_255());
            lemma_fundamental_div_mod_converse(
                le_value(bytes@) as int,
                two_255() as int,
                top,
                r.int_value() as int,
            );
        }
        r
    }

    /// Whether limbs below 2^51 stand for a number below the prime.
    pub fn below_prime(&self) -> (r: bool)
        requires
            self.l0 < 0x8000000000000,
            self.l1 < 0x8000000000000,
            self.l2 < 0x8000000000000,
            self.l3 < 0x8000000000000,
            self.l4 < 0x8000000000000,
        ensures
            r == (self.int_value() < prime()),
            r == self.canonical(),
    {
        !(self.l4 == 0x7ffffffffffff && self.l3 == 0x7ffffffffffff && self.l2 == 0x7ffffffffffff
            && self.l1 == 0x7ffffffffffff && self.l0 >= 0x7ffffffffffed)
    }

    /// The 32 bytes that hold a canonical field element in their low 255
    /// bits and `sign` in bit 255.
    pub fn to_bytes(&self, sign: bool) -> (r: [u8; 32])
        requires
            self.canonical(),
        ensures
            le_value(r@) == self.int_value() + two_255() * (if sign { 1nat } else { 0nat }),
    {
        let s: u64 = if sign { 1 } else { 0 };
        let w0 = self.l0 + (self.l1 % 0x2000) * 0x8000000000000;
        let w1 = self.l1 / 0x2000 + (self.l2 % 0x4000000) * 0x4000000000;
        let w2 = self.l2 / 0x4000000 + (self.l3 % 0x8000000000) * 0x2000000;
        let w3 = self.l3 / 0x8000000000 + self.l4 * 0x1000 + s * 0x8000000000000000;
        assert(w0 + w1 * 0x10000000000000000 + w2 * 0x100000000000000000000000000000000 + w3
            * 0x1000000000000000000000000000000000000000000000000int == self.int_value() + s
            * two_255());
        let r = join_words(&word_bytes(w0), &word_bytes(w1), &word_bytes(w2), &word_bytes(w3));
        proof {
            lemma_le_value_words(r@);
        }
        r
    }
}

} // verus!
