//! Point representations, wire encoding and negation for the twisted Edwards
//! form of Curve25519, over the field of integers modulo 2^255 - 19.
//!
//! * [`ops`] holds the two point types with their decoding, encoding and
//!   negation.
//! * [`field_math`] is the mathematical model: the prime, arithmetic modulo
//!   it, the curve equation, what a 32-byte string means, and what it
//!   decodes to.
//! * [`laws`] states what holds of decoding, encoding and negation taken
//!   together; [`field_lemmas`] holds the algebra that the proofs use.
//! * [`elem`] is the ten-limb form in which points carry their
//!   coordinates.
//! * [`limbs`], [`carry`], [`linear`], [`product`], [`power`], [`canon`] and
//!   [`wire`] are the field arithmetic, on five limbs of 51 bits.

pub mod canon;
pub mod carry;
pub mod elem;
pub mod field_lemmas;
pub mod field_math;
pub mod laws;
pub mod limbs;
pub mod linear;
pub mod ops;
pub mod power;
pub mod product;
pub mod wire;
