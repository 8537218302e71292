//! The directories that are still to be copied, and the calls that copy one.

use crate::c_path::CPath;
use crate::error::Failure;
use crate::file_id::FileId;
use crate::file_type::FileType;
use vstd::prelude::*;

verus! {

/// A directory to copy: where it is, where its copy goes, and the identity of the
/// directory at the top of the copy, once that is known.
#[derive(Debug, PartialEq, Eq)]
pub struct TreeNode<P> {
    pub from: P,
    pub to: P,
    pub root_to_inode: Option<FileId>,
}

impl View for TreeNode<CPath> {
    type V = TreeNode<Seq<u8>>;

    open spec fn view(&self) -> TreeNode<Seq<u8>> {
        TreeNode { from: self.from@, to: self.to@, root_to_inode: self.root_to_inode }
    }
}

impl Clone for TreeNode<CPath> {
    fn clone(&self) -> (copy: TreeNode<CPath>)
        ensures
            copy@ == self@,
    {
        TreeNode {
            from: self.from.clone(),
            to: self.to.clone(),
            root_to_inode: self.root_to_inode,
        }
    }
}

/// An entry as the directory lists it. The listing tells no device, only the inode
/// number.
#[derive(Debug, PartialEq, Eq)]
pub struct Entry<P> {
    pub name: P,
    pub ino: u64,
    pub file_type: FileType,
}

impl View for Entry<CPath> {
    type V = Entry<Seq<u8>>;

    open spec fn view(&self) -> Entry<Seq<u8>> {
        Entry { name: self.name@, ino: self.ino, file_type: self.file_type }
    }
}

/// How a file or directory is to be opened.
#[derive(Debug, Clone, Copy, PartialEq, Eq, Structural)]
pub struct OpenFlags {
    /// For writing only, else for reading only.
    pub write: bool,
    /// Make the file if it is not there.
    pub create: bool,
    /// Empty the file if it is there.
    pub truncate: bool,
    /// Fail unless it is a directory.
    pub directory: bool,
    /// Fail if the path ends in a symbolic link.
    pub no_follow: bool,
    /// Only to stand for the directory in later calls.
    pub path: bool,
}

/// Opening a file to read it.
pub open spec fn read_flags() -> OpenFlags {
    OpenFlags {
        write: false,
        create: false,
        truncate: false,
        directory: false,
        no_follow: false,
        path: false,
    }
}

/// Opening the directory to copy: it must be one, and not a link to one.
pub open spec fn source_dir_flags() -> OpenFlags {
    OpenFlags { directory: true, no_follow: true, ..read_flags() }
}

/// Opening the directory that takes the copies.
pub open spec fn target_dir_flags() -> OpenFlags {
    OpenFlags { directory: true, path: true, ..read_flags() }
}

/// Opening a file to take a copy: made if missing, emptied if not.
pub open spec fn target_file_flags() -> OpenFlags {
    OpenFlags { write: true, create: true, truncate: true, ..read_flags() }
}

/// A system call to make for the directory that is being copied. The source and
/// target directory and the source and target file are those that were opened
/// last.
#[derive(Debug, PartialEq, Eq)]
pub enum Request<P> {
    /// Open the source directory.
    OpenSourceDir { path: P, flags: OpenFlags },
    /// Read the mode of the source directory.
    StatSourceDir,
    /// Make a directory.
    MakeDir { path: P, mode: u32 },
    /// Open the target directory.
    OpenTargetDir { path: P, flags: OpenFlags },
    /// Read the identity of the target directory.
    StatTargetDir,
    /// Read the next entry of the source directory.
    ReadEntry,
    /// Read the mode of an entry of the source directory, of what a link points
    /// to where `follow` is set.
    StatEntry { name: P, follow: bool },
    /// Read the identity of an entry of the source directory, without following a
    /// link.
    IdentifyEntry { name: P },
    /// Queue a directory to be copied.
    Send { node: TreeNode<P> },
    /// Read a symbolic link in the source directory.
    ReadLink { name: P },
    /// Make a symbolic link in the target directory.
    MakeLink { target: P, name: P },
    /// Open a file in the source directory as the source file.
    OpenSourceFile { name: P, flags: OpenFlags },
    /// Open a file in the target directory as the target file.
    OpenTargetFile { name: P, flags: OpenFlags, mode: u32 },
    /// Let the kernel copy up to `len` bytes from the source file on to the
    /// target file.
    CopyRange { len: usize },
    /// Copy the rest of the source file through a buffer.
    CopyRest,
}

impl View for Request<CPath> {
    type V = Request<Seq<u8>>;

    open spec fn view(&self) -> Request<Seq<u8>> {
        match *self {
            Request::OpenSourceDir { path, flags } => Request::OpenSourceDir { path: path@, flags },
            Request::StatSourceDir => Request::StatSourceDir,
            Request::MakeDir { path, mode } => Request::MakeDir { path: path@, mode },
            Request::OpenTargetDir { path, flags } => Request::OpenTargetDir { path: path@, flags },
            Request::StatTargetDir => Request::StatTargetDir,
            Request::ReadEntry => Request::ReadEntry,
            Request::StatEntry { name, follow } => Request::StatEntry { name: name@, follow },
            Request::IdentifyEntry { name } => Request::IdentifyEntry { name: name@ },
            Request::Send { node } => Request::Send { node: node@ },
            Request::ReadLink { name } => Request::ReadLink { name: name@ },
            Request::MakeLink { target, name } => Request::MakeLink {
                target: target@,
                name: name@,
            },
            Request::OpenSourceFile { name, flags } => Request::OpenSourceFile {
                name: name@,
                flags,
            },
            Request::OpenTargetFile { name, flags, mode } => Request::OpenTargetFile {
                name: name@,
                flags,
                mode,
            },
            Request::CopyRange { len } => Request::CopyRange { len },
            Request::CopyRest => Request::CopyRest,
        }
    }
}

/// What a system call answered.
#[derive(Debug, PartialEq, Eq)]
pub enum Reply<P, E> {
    /// Of a call that answers nothing but whether it worked.
    Unit(Result<(), Failure<E>>),
    /// A raw mode.
    Mode(Result<u16, Failure<E>>),
    /// The identity of a file.
    Id(Result<FileId, Failure<E>>),
    /// The next entry of a directory, or none when all have been read.
    Entry(Option<Result<Entry<P>, Failure<E>>>),
    /// Where a symbolic link points.
    Link(Result<P, Failure<E>>),
    /// How many bytes were copied.
    Copied(Result<usize, Failure<E>>),
    /// Whether the queue took the directory.
    Sent(bool),
}

/// Listed entries by their views.
pub open spec fn entry_reply_view<E>(
    reply: Option<Result<Entry<CPath>, Failure<E>>>,
) -> Option<Result<Entry<Seq<u8>>, Failure<E>>> {
    match reply {
        None => None,
        Some(Ok(entry)) => Some(Ok(entry@)),
        Some(Err(failure)) => Some(Err(failure)),
    }
}

/// Link targets by their views.
pub open spec fn link_reply_view<E>(reply: Result<CPath, Failure<E>>) -> Result<
    Seq<u8>,
    Failure<E>,
> {
    match reply {
        Ok(target) => Ok(target@),
        Err(failure) => Err(failure),
    }
}

impl<E> Reply<Seq<u8>, E> {
    /// The failure that the answer reports, if the call failed.
    pub open spec fn failure(self) -> Option<Failure<E>> {
        match self {
            Reply::Unit(Err(failure)) => Some(failure),
            Reply::Mode(Err(failure)) => Some(failure),
            Reply::Id(Err(failure)) => Some(failure),
            Reply::Entry(Some(Err(failure))) => Some(failure),
            Reply::Link(Err(failure)) => Some(failure),
            Reply::Copied(Err(failure)) => Some(failure),
            _ => None,
        }
    }
}

impl<E> View for Reply<CPath, E> {
    type V = Reply<Seq<u8>, E>;

    open spec fn view(&self) -> Reply<Seq<u8>, E> {
        match *self {
            Reply::Unit(reply) => Reply::Unit(reply),
            Reply::Mode(reply) => Reply::Mode(reply),
            Reply::Id(reply) => Reply::Id(reply),
            Reply::Entry(reply) => Reply::Entry(entry_reply_view(reply)),
            Reply::Link(reply) => Reply::Link(link_reply_view(reply)),
            Reply::Copied(reply) => Reply::Copied(reply),
            Reply::Sent(taken) => Reply::Sent(taken),
        }
    }
}

} // verus!
