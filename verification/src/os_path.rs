//! Paths as the caller hands them over: `std::path::PathBuf`, seen through the
//! bytes it holds.

use crate::c_path::SEPARATOR;
use std::path::PathBuf;
use vstd::prelude::*;

verus! {

/// `std::path::PathBuf`, carried through unopened.
#[verifier::external_type_specification]
#[verifier::external_body]
pub struct ExPathBuf(std::path::PathBuf);

/// The bytes of a path: its view in every contract.
pub uninterp spec fn os_bytes(path: std::path::PathBuf) -> Seq<u8>;

/// The bytes of the path that `Path::parent` gives for a path with these bytes.
pub uninterp spec fn parent_bytes(path: Seq<u8>) -> Option<Seq<u8>>;

/// The path of `name` in the directory `dir`: the name itself if it is absolute, else
/// the directory and the name with a separator between them, unless the directory ends
/// in one or is empty.
pub open spec fn joined_bytes(dir: Seq<u8>, name: Seq<u8>) -> Seq<u8> {
    if name.len() > 0 && name[0] == SEPARATOR {
        name
    } else if dir.len() == 0 || dir.last() == SEPARATOR {
        dir + name
    } else {
        dir + seq![SEPARATOR] + name
    }
}

/// Whether a path is that of `dir` or of something in it.
pub open spec fn lies_in(path: Seq<u8>, dir: Seq<u8>) -> bool {
    path == dir || {
        &&& 0 < dir.len() < path.len()
        &&& path.take(dir.len() as int) == dir
        &&& dir.last() == SEPARATOR || path[dir.len() as int] == SEPARATOR
    }
}

/// Whether a path lies in what `Path::parent` gives for it, if that is not empty.
pub open spec fn lies_in_parent(path: Seq<u8>) -> bool {
    parent_bytes(path) matches Some(parent) ==> parent.len() == 0 || lies_in(path, parent)
}

/// The bytes of an optional path.
pub open spec fn optional_bytes(path: Option<PathBuf>) -> Option<Seq<u8>> {
    match path {
        Some(path) => Some(os_bytes(path)),
        None => None,
    }
}

/// Calls `OsStr::as_encoded_bytes` on the whole path. The bytes that come back
/// are what `os_bytes` stands for.
#[verifier::external_body]
pub(crate) fn path_bytes(path: &PathBuf) -> (bytes: Vec<u8>)
    ensures
        bytes@ == os_bytes(*path),
{
    path.as_os_str().as_encoded_bytes().to_vec()
}

/// Calls `Path::parent`, the path without its final component. The answer
/// depends on the bytes of the path alone, on every target that has the file
/// system layer of rustix. It is a proper prefix of the path, which ends where a
/// component does: it is empty, ends in the separator or is followed by it. The empty path
/// has none.
#[verifier::external_body]
pub(crate) fn parent(path: &PathBuf) -> (dir: Option<PathBuf>)
    ensures
        optional_bytes(dir) == parent_bytes(os_bytes(*path)),
        dir matches Some(dir) ==> os_bytes(dir).len() < os_bytes(*path).len()
            && os_bytes(dir) == os_bytes(*path).take(os_bytes(dir).len() as int),
        dir matches Some(dir) ==> os_bytes(dir).len() == 0 || lies_in(
            os_bytes(*path),
            os_bytes(dir),
        ),
        os_bytes(*path).len() == 0 ==> dir is None,
{
    path.parent().map(|dir| dir.to_path_buf())
}

/// Calls `Path::join`. On every target that has the file system layer of rustix, an
/// absolute name, which is one that begins with the separator, replaces the directory, and
/// any other extends it, by one separator where it does not end in one already.
#[verifier::external_body]
pub(crate) fn join(dir: &PathBuf, name: &PathBuf) -> (path: PathBuf)
    ensures
        os_bytes(path) == joined_bytes(os_bytes(*dir), os_bytes(*name)),
{
    dir.join(name)
}

/// `PathBuf::clone` gives a path with the same bytes.
pub assume_specification[ <std::path::PathBuf as Clone>::clone ](
    path: &std::path::PathBuf,
) -> (copy: std::path::PathBuf)
    ensures
        os_bytes(copy) == os_bytes(*path),
;

} // verus!
