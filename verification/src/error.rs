//! Errors reported by the number scanners.

use vstd::prelude::*;

verus! {

/// A scanning error.
///
/// Positions are the 1-based character offset (not the byte offset) of the
/// failed token's first byte, so that they stay meaningful under multi-byte
/// encodings.
#[derive(Clone, Copy, PartialEq, Eq, Debug, Structural)]
pub enum Error {
    /// The number grammar did not match, or the value was not finite.
    InvalidNumber(usize),
    /// The cursor was exhausted where a token was required.
    UnexpectedEndOfStream,
    /// A valid number was parsed but non-whitespace input remains.
    UnexpectedData(usize),
}

} // verus!
