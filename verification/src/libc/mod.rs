//! The verified cores of the libc-compatible shims: the error-state cell,
//! the close shim's descriptor check, and the byte-memory and byte-string
//! operations the shims implement.

pub mod close;
pub mod errno;
pub mod mem;
pub mod str;
