//! Structural views over the loaded ELF image: the file header, the program
//! header table, the dynamic array, the relocation table, and the
//! thread-local-storage template.

pub mod dynamic_array;
pub mod header;
pub mod program_header;
pub mod relocate;
pub mod thread_local_storage;
