//! Laws of plain values: the bytes of names and paths, the bits of modes, and the numbers of
//! errors.

use crate::c_path::{child_path, is_dot_name};
use crate::error::{errno_kind, Attempt, FailureKind};
use crate::file_id::FileId;
use crate::file_type::{permission_bits, type_bits, FileType};
use crate::os_path::{joined_bytes, lies_in};
use crate::platform::Platform;
use vstd::prelude::*;

verus! {

/// The names by which a directory lists itself and its parent are a dot, and two dots, and no
/// other name is one of them, however it begins.
pub proof fn law_dot_names(name: Seq<u8>)
    ensures
        is_dot_name(name) <==> (name.len() == 1 && name[0] == 46) || (name.len() == 2 && name[0]
            == 46 && name[1] == 46),
{
    if name.len() == 1 && name[0] == 46 {
        assert(name =~= seq![46u8]);
    }
    if name.len() == 2 && name[0] == 46 && name[1] == 46 {
        assert(name =~= seq![46u8, 46u8]);
    }
}

/// The path of something in a directory is that of the directory, a slash and the name,
/// whatever they are. So it lies in the directory, and two names lead to two paths.
pub proof fn law_a_path_in_a_directory(dir: Seq<u8>, name: Seq<u8>)
    ensures
        child_path(dir, name) == dir + seq![47u8] + name,
        dir.len() > 0 ==> lies_in(child_path(dir, name), dir),
        forall|other: Seq<u8>| #[trigger]
            child_path(dir, other) == child_path(dir, name) ==> other == name,
{
    let path = child_path(dir, name);
    assert(path.take(dir.len() as int) =~= dir);
    assert(path[dir.len() as int] == 47);
    assert forall|other: Seq<u8>| #[trigger] child_path(dir, other) == path implies other
        == name by {
        assert(child_path(dir, other).skip(dir.len() as int + 1) =~= other);
        assert(path.skip(dir.len() as int + 1) =~= name);
    }
}

/// Joining a name to a directory gives the name where it begins with a slash, and else the
/// directory and the name, with exactly one slash between them unless the directory is empty
/// or brings its own.
pub proof fn law_joined_paths(dir: Seq<u8>, name: Seq<u8>)
    ensures
        name.len() > 0 && name[0] == 47 ==> joined_bytes(dir, name) == name,
        !(name.len() > 0 && name[0] == 47) && dir.len() == 0 ==> joined_bytes(dir, name) == name,
        !(name.len() > 0 && name[0] == 47) && dir.len() > 0 && dir.last() == 47 ==> joined_bytes(
            dir,
            name,
        ) == dir + name,
        !(name.len() > 0 && name[0] == 47) && dir.len() > 0 && dir.last() != 47 ==> joined_bytes(
            dir,
            name,
        ) == dir + seq![47u8] + name,
{
    if dir.len() == 0 {
        assert(dir + name =~= name);
    }
}

/// What lies in a directory begins with its path, and has a slash where that ends.
pub proof fn law_what_lies_in_a_directory(path: Seq<u8>, dir: Seq<u8>)
    ensures
        lies_in(path, dir) <==> path == dir || (0 < dir.len() < path.len() && (forall|i: int|
            0 <= i < dir.len() ==> #[trigger] path[i] == dir[i]) && (dir[dir.len() - 1] == 47
            || path[dir.len() as int] == 47)),
{
    if dir.len() < path.len() {
        let start = path.take(dir.len() as int);
        if forall|i: int| 0 <= i < dir.len() ==> #[trigger] path[i] == dir[i] {
            assert(start =~= dir);
        }
        if start == dir {
            assert forall|i: int| 0 <= i < dir.len() implies #[trigger] path[i] == dir[i] by {
                assert(start[i] == path[i]);
            }
        }
    }
}

/// The permissions are the low twelve bits of a raw mode, all of them: reading, writing and
/// executing for all three classes, and the set-id and sticky bits.
pub proof fn law_modes_are_twelve_bits(raw: u16)
    ensures
        permission_bits(raw) == raw as int % 4096,
{
    assert((raw & 0x0fff) == raw % 4096) by (bit_vector);
}

/// The type of a file is told by the high four bits of its raw mode alone.
pub proof fn law_types_are_four_bits(raw: u16)
    ensures
        ({
            let kind: int = raw as int / 4096;
            &&& type_bits(raw) == FileType::RegularFile <==> kind == 8
            &&& type_bits(raw) == FileType::Directory <==> kind == 4
            &&& type_bits(raw) == FileType::Symlink <==> kind == 10
            &&& type_bits(raw) == FileType::Fifo <==> kind == 1
            &&& type_bits(raw) == FileType::Socket <==> kind == 12
            &&& type_bits(raw) == FileType::CharacterDevice <==> kind == 2
            &&& type_bits(raw) == FileType::BlockDevice <==> kind == 6
            &&& type_bits(raw) == FileType::Unknown <==> kind != 8 && kind != 4 && kind != 10
                && kind != 1 && kind != 12 && kind != 2 && kind != 6
        }),
{
    assert((raw & 0xf000) == (raw / 4096) * 4096) by (bit_vector);
}

/// Three error numbers are told apart from each other and from all others.
pub proof fn law_error_numbers(code: i32)
    ensures
        errno_kind(code) == FailureKind::NotFound <==> code == 2,
        errno_kind(code) == FailureKind::AlreadyExists <==> code == 17,
        errno_kind(code) == FailureKind::CrossDevice <==> code == 18,
        errno_kind(code) == FailureKind::Other <==> code != 2 && code != 17 && code != 18,
{
}

/// Symbolic links are copied as links on every Unix.
pub proof fn law_links_are_links_on_every_unix(platform: Platform)
    ensures
        platform.copies_links() <==> platform == Platform::Linux || platform == Platform::Unix,
{
}

/// Two files have the same identity only if they have the same number on the same device.
pub proof fn law_files_are_told_apart(
    major: u32,
    minor: u32,
    ino: u64,
    other_major: u32,
    other_minor: u32,
    other_ino: u64,
)
    ensures
        FileId::of(major, minor, ino) == FileId::of(other_major, other_minor, other_ino) <==> major
            == other_major && minor == other_minor && ino == other_ino,
        FileId::of(major, minor, ino).ino == ino,
        FileId::of(major, minor, ino).dev == FileId::of(other_major, other_minor, other_ino).dev
            <==> major == other_major && minor == other_minor,
{
}

/// The words of the message for each attempt.
pub proof fn law_messages_name_the_attempt(attempt: Attempt)
    ensures
        match attempt {
            Attempt::ReadMetadata => attempt.words() == "Failed to read metadata for file: "@,
            Attempt::CreateParent => attempt.words() == "Failed to create parent directory: "@,
            Attempt::ReadSymlink => attempt.words() == "Failed to read symlink: "@,
            Attempt::CreateSymlink => attempt.words() == "Failed to create symlink: "@,
            Attempt::CopyFile => attempt.words() == "Failed to copy file: "@,
            Attempt::CopyDirectory => attempt.words() == "Failed to copy directory: "@,
            Attempt::OpenDirectory => attempt.words() == "Failed to open directory: "@,
            Attempt::ReadDirectory => attempt.words() == "Failed to read directory: "@,
            Attempt::StatDirectory => attempt.words() == "Failed to stat directory: "@,
            Attempt::CreateDirectory => attempt.words() == "Failed to create directory: "@,
            Attempt::OpenFile => attempt.words() == "Failed to open file: "@,
            Attempt::StatFile => attempt.words() == "Failed to stat file: "@,
            Attempt::UnshareDescriptors => attempt.words() == "Failed to unshare FD table."@,
        },
{
}

} // verus!
