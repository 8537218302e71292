//! Copying a directory tree with the calls that every platform has, the entries of a
//! directory side by side.

pub mod backend;
pub mod call_laws;
pub mod dir;
pub mod entry;
pub mod laws;
