//! The ways in which a request to the library can fail.

use vstd::prelude::*;

verus! {

/// Why the library could not produce a value.
#[derive(Debug, Clone, Copy, PartialEq, Eq, Structural)]
pub enum GameError {
    /// The text is not an unsigned decimal number that fits in 32 bits.
    Parse,
    /// The input ended before the round was won.
    EndOfInput,
    /// The requested term does not fit in 32 bits.
    Overflow,
}

} // verus!
