//! A fixed-size bit set: `N` boolean cells, indexed `0..N`, with cell `0` the
//! least-significant bit under every integer and string conversion.
//!
//! The crate provides construction from arrays, sequences, bit strings and
//! fixed-width unsigned integers, bitwise logic, logical shifts, rotations,
//! and rendering back to strings and integers. Every operation carries a
//! contract over the sequence-of-booleans model in [`model`], and the laws
//! that tie the operations together (round trips, involution, agreement with
//! integer arithmetic) are proved in [`laws`].

pub mod bitset;
pub mod convert;
pub mod error;
pub mod laws;
pub mod model;

pub use bitset::SizedBitset;
pub use error::ConversionError;
