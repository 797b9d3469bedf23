//! The verified side of the system-call layer: the open-flags word and
//! what the open shim computes before the kernel call. The raw kernel
//! calls themselves are machine code outside this library.

pub mod openat;
