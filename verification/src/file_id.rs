//! What tells one file from every other.

use vstd::prelude::*;

verus! {

/// The identity of a file: the device that holds it, and its inode number there. Two
/// files can have the same number on different devices.
#[derive(Debug, Clone, Copy, PartialEq, Eq, Structural)]
pub struct FileId {
    pub dev: u64,
    pub ino: u64,
}

impl FileId {
    /// The identity of a file with this inode number, on the device with these two numbers.
    pub open spec fn of(major: u32, minor: u32, ino: u64) -> FileId {
        FileId { dev: (major * 0x1_0000_0000 + minor) as u64, ino }
    }

    /// The identity of a file on the device with these two numbers.
    pub fn on_device(major: u32, minor: u32, ino: u64) -> (id: FileId)
        ensures
            id.dev == major * 0x1_0000_0000 + minor,
            id.ino == ino,
            id == FileId::of(major, minor, ino),
    {
        FileId { dev: major as u64 * 0x1_0000_0000 + minor as u64, ino }
    }
}

} // verus!
