//! Splitting a payload into equal blocks with one XOR recovery block.

pub mod laws;
pub mod xor;
