//! What the kernel hands a starting process: the auxiliary vector.

pub mod auxiliary_iterator;
