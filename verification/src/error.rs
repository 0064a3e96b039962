//! The ways in which building, parsing or generating an identifier can fail.
use vstd::prelude::*;

verus! {

/// Every failure the library reports. No function retries on its own: what to
/// do after a failure is the caller's decision.
#[derive(Clone, Copy, Debug, PartialEq, Eq, Structural, Hash)]
pub enum Error {
    /// The randomness source could not deliver 80 bits.
    RandomnessUnavailable,
    /// A timestamp does not fit in 48 bits.
    TimestampOverflow,
    /// A text does not have exactly 26 characters.
    InvalidLength,
    /// A text holds a character outside the alphabet.
    InvalidCharacter,
    /// A text of 26 symbols denotes a number above 2^128 - 1.
    Overflow,
    /// The 80 random bits of the previous identifier are all ones, so no
    /// greater identifier exists within the same millisecond.
    MonotonicOverflow,
}

} // verus!
