//! A block device for direct, cache-bypassing I/O through a shared ring.

pub mod io_uring_device;
pub mod laws;
