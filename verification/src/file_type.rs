//! File types and permission bits.

use vstd::prelude::*;

verus! {

/// What kind of object a directory entry is.
#[derive(Debug, Clone, Copy, PartialEq, Eq, Structural)]
pub enum FileType {
    RegularFile,
    Directory,
    Symlink,
    Fifo,
    Socket,
    CharacterDevice,
    BlockDevice,
    /// The file system did not say.
    Unknown,
}

/// The permission bits of a raw mode, the set-id and sticky bits with them.
pub open spec fn permission_bits(raw: u16) -> u32 {
    (raw & 0x0fff) as u32
}

/// The file type that a raw mode holds.
pub open spec fn type_bits(raw: u16) -> FileType {
    let kind = raw & 0xf000;
    if kind == 0x8000 {
        FileType::RegularFile
    } else if kind == 0x4000 {
        FileType::Directory
    } else if kind == 0xa000 {
        FileType::Symlink
    } else if kind == 0x1000 {
        FileType::Fifo
    } else if kind == 0xc000 {
        FileType::Socket
    } else if kind == 0x2000 {
        FileType::CharacterDevice
    } else if kind == 0x6000 {
        FileType::BlockDevice
    } else {
        FileType::Unknown
    }
}

/// Calls `rustix::fs::Mode::from_raw_mode`, which keeps of a raw mode the bits
/// that `Mode` has a flag for: the low twelve.
#[verifier::external_body]
pub(crate) fn mode_of(raw: u16) -> (mode: u32)
    ensures
        mode == permission_bits(raw),
{
    u32::from(rustix::fs::Mode::from_raw_mode(rustix::fs::RawMode::from(raw)).bits())
}

/// Calls `rustix::fs::FileType::from_raw_mode`, which tells the type by the high
/// four bits of a raw mode.
#[verifier::external_body]
pub(crate) fn file_type_of(raw: u16) -> (file_type: FileType)
    ensures
        file_type == type_bits(raw),
{
    match rustix::fs::FileType::from_raw_mode(rustix::fs::RawMode::from(raw)) {
        rustix::fs::FileType::RegularFile => FileType::RegularFile,
        rustix::fs::FileType::Directory => FileType::Directory,
        rustix::fs::FileType::Symlink => FileType::Symlink,
        rustix::fs::FileType::Fifo => FileType::Fifo,
        rustix::fs::FileType::Socket => FileType::Socket,
        rustix::fs::FileType::CharacterDevice => FileType::CharacterDevice,
        rustix::fs::FileType::BlockDevice => FileType::BlockDevice,
        rustix::fs::FileType::Unknown => FileType::Unknown,
    }
}

} // verus!
