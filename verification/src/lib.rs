//! Single-parity erasure coding over byte blocks, and the decision logic of a
//! direct-access block device that is driven through a submission/completion ring.

pub mod block_device;
pub mod erasure_coding;
pub mod erasurecoding;
