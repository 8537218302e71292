//! Copying a directory tree with the Linux system calls that work relative to an
//! open directory, one directory at a time, on as many threads as are useful.

pub mod backend;
pub mod call_laws;
pub mod crew_laws;
pub mod dir;
pub mod file;
pub mod laws;
pub mod node;
pub mod order_laws;
pub mod pool;
pub mod pool_laws;
pub mod tree_laws;
