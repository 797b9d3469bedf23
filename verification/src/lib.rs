//! Bootstrap core of a statically linked position-independent executable:
//! parsing of the kernel-supplied initial stack, structural views over the
//! loaded ELF image, the self-relocation engine, the initial thread's
//! thread-local-storage allocator, and the page-granular process allocator.
//!
//! The loaded image is modelled as a byte vector indexed by image offset;
//! the kernel's view of anonymous mappings is modelled as an explicit
//! mapping table. The raw system-call layer and the machine-level pieces
//! (register conventions, the thread-pointer install) live outside this
//! library and hand it plain values.

pub mod elf;
pub mod global_allocator;
pub mod libc;
pub mod linux;
pub mod start;
pub mod static_pie;
pub mod syscall;
pub mod utils;
pub mod words;
