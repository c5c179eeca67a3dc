//! The four-way variant of the erasure coder, for text payloads.

pub mod xor;
