//! Universally unique, lexicographically sortable identifiers.
//!
//! An identifier is a 128-bit number: a 48-bit millisecond timestamp in the
//! high bits and 80 bits of randomness in the low bits. Its text form is 26
//! symbols of the Crockford Base32 alphabet, most significant digit first, so
//! that text order and numeric order agree.
pub mod alphabet;
pub mod args;
pub mod codec;
pub mod codec_lemmas;
pub mod error;
pub mod generator;
pub mod identifier;
pub mod monotonic;
pub mod order;

pub use args::Args;
pub use codec::{decode, encode};
pub use error::Error;
pub use generator::{generate, generate_ulid, generate_with, with_entropy};
pub use identifier::{Identifier, MAX_RANDOMNESS, MAX_TIMESTAMP};
pub use monotonic::MonotonicGenerator;
