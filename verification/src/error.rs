//! The recoverable failures of constructing a bit set from runtime data.

use vstd::prelude::*;

verus! {

/// Why a sequence or bit string could not become a bit set.
#[derive(Debug, PartialEq, Eq)]
pub enum ConversionError {
    /// The input did not hold exactly as many elements as the bit set has
    /// cells.
    LengthMismatch { expected: usize, actual: usize },
    /// A character of the input bit string was neither `'0'` nor `'1'`; the
    /// offending string is carried along.
    InvalidCharacter(String),
}

} // verus!
