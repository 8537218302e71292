//! Copying one entry of a directory.

use crate::error::Failure;
use crate::file_id::FileId;
use crate::os_path::{join, joined_bytes, os_bytes};
use crate::platform::Platform;
use crate::schedule::{link_view, SourceKind};
use std::path::PathBuf;
use vstd::pervasive::unreached;
use vstd::prelude::*;

verus! {

/// How far the copy of an entry has come: the call that is under way.
#[derive(Debug, PartialEq, Eq)]
pub enum Phase<Q> {
    /// Asking which file the entry is, as its inode number is that of the top of the copy.
    Identifying,
    /// Asking what the entry is.
    Typing,
    /// Copying the directory that the entry is.
    Descending,
    /// Reading the link that the entry is.
    ReadingLink,
    /// Making the link.
    Linking { target: Q },
    /// Copying the file that the entry is.
    Copying,
    /// The entry is copied, or left out.
    Done,
}

/// The copy of one entry.
#[derive(Debug, PartialEq, Eq)]
pub struct EntryCopy<Q> {
    pub from: Q,
    pub to: Q,
    pub platform: Platform,
    /// The identity of the directory at the top of the copy.
    pub root: Option<FileId>,
    pub phase: Phase<Q>,
}

impl View for Phase<PathBuf> {
    type V = Phase<Seq<u8>>;

    open spec fn view(&self) -> Phase<Seq<u8>> {
        match *self {
            Phase::Identifying => Phase::Identifying,
            Phase::Typing => Phase::Typing,
            Phase::Descending => Phase::Descending,
            Phase::ReadingLink => Phase::ReadingLink,
            Phase::Linking { target } => Phase::Linking { target: os_bytes(target) },
            Phase::Copying => Phase::Copying,
            Phase::Done => Phase::Done,
        }
    }
}

impl View for EntryCopy<PathBuf> {
    type V = EntryCopy<Seq<u8>>;

    open spec fn view(&self) -> EntryCopy<Seq<u8>> {
        EntryCopy {
            from: os_bytes(self.from),
            to: os_bytes(self.to),
            platform: self.platform,
            root: self.root,
            phase: self.phase@,
        }
    }
}

/// A call to make for an entry.
#[derive(Debug, PartialEq, Eq)]
pub enum Request<Q> {
    /// Find out which file the entry is, without following a link.
    Identify,
    /// Find out what the entry is, without following a link.
    FileType,
    /// Copy a directory with all that is in it.
    CopyDir { from: Q, to: Q, root_to_inode: Option<FileId> },
    /// Read a symbolic link.
    ReadLink { path: Q },
    /// Make a symbolic link.
    MakeLink { target: Q, path: Q },
    /// Copy the bytes and the permissions of a file.
    CopyFile { from: Q, to: Q },
}

/// What a call for an entry answered.
#[derive(Debug, PartialEq, Eq)]
pub enum Reply<Q, E> {
    /// Of a call that answers nothing but whether it worked.
    Unit(Result<(), Failure<E>>),
    /// Which file the entry is.
    Id(Result<FileId, Failure<E>>),
    /// What the entry is.
    Kind(Result<SourceKind, Failure<E>>),
    /// Where a symbolic link points.
    Link(Result<Q, Failure<E>>),
}

impl<E> View for Reply<PathBuf, E> {
    type V = Reply<Seq<u8>, E>;

    open spec fn view(&self) -> Reply<Seq<u8>, E> {
        match *self {
            Reply::Unit(result) => Reply::Unit(result),
            Reply::Id(result) => Reply::Id(result),
            Reply::Kind(result) => Reply::Kind(result),
            Reply::Link(result) => Reply::Link(link_view(result)),
        }
    }
}

impl<E> Reply<Seq<u8>, E> {
    /// The failure that the answer reports, if the call failed.
    pub open spec fn failure(self) -> Option<Failure<E>> {
        match self {
            Reply::Unit(Err(failure)) => Some(failure),
            Reply::Id(Err(failure)) => Some(failure),
            Reply::Kind(Err(failure)) => Some(failure),
            Reply::Link(Err(failure)) => Some(failure),
            _ => None,
        }
    }
}

/// Requests with every path taken by its bytes.
pub open spec fn request_view(request: Option<Request<PathBuf>>) -> Option<Request<Seq<u8>>> {
    match request {
        Some(Request::Identify) => Some(Request::Identify),
        Some(Request::FileType) => Some(Request::FileType),
        Some(Request::CopyDir { from, to, root_to_inode }) => Some(
            Request::CopyDir { from: os_bytes(from), to: os_bytes(to), root_to_inode },
        ),
        Some(Request::ReadLink { path }) => Some(Request::ReadLink { path: os_bytes(path) }),
        Some(Request::MakeLink { target, path }) => Some(
            Request::MakeLink { target: os_bytes(target), path: os_bytes(path) },
        ),
        Some(Request::CopyFile { from, to }) => Some(
            Request::CopyFile { from: os_bytes(from), to: os_bytes(to) },
        ),
        None => None,
    }
}

/// Copies by their views.
pub open spec fn result_view<E>(result: Result<EntryCopy<PathBuf>, E>) -> Result<
    EntryCopy<Seq<u8>>,
    E,
> {
    match result {
        Ok(copy) => Ok(copy@),
        Err(error) => Err(error),
    }
}

/// The phase in which an entry of this kind is transferred.
pub open spec fn kind_phase(platform: Platform, kind: SourceKind) -> Phase<Seq<u8>> {
    match kind {
        SourceKind::Directory => Phase::Descending,
        SourceKind::Symlink if platform.copies_links() => Phase::ReadingLink,
        _ => Phase::Copying,
    }
}

impl EntryCopy<Seq<u8>> {
    /// The copy of an entry at its beginning, which is listed under the inode number
    /// `ino`. Where the directory at the top of the copy is left out, and has that number,
    /// it is asked whether the entry is that directory.
    pub open spec fn begin(
        platform: Platform,
        root: Option<FileId>,
        from: Seq<u8>,
        to: Seq<u8>,
        ino: u64,
    ) -> EntryCopy<Seq<u8>> {
        let phase = if platform.copies_links() && root is Some && root->0.ino == ino {
            Phase::Identifying
        } else {
            Phase::Typing
        };
        EntryCopy { from, to, platform, root, phase }
    }

    /// The call that is under way, if the entry is not copied yet.
    pub open spec fn wants(self) -> Option<Request<Seq<u8>>> {
        match self.phase {
            Phase::Identifying => Some(Request::Identify),
            Phase::Typing => Some(Request::FileType),
            Phase::Descending => Some(
                Request::CopyDir { from: self.from, to: self.to, root_to_inode: self.root },
            ),
            Phase::ReadingLink => Some(Request::ReadLink { path: self.from }),
            Phase::Linking { target } => Some(Request::MakeLink { target, path: self.to }),
            Phase::Copying => Some(Request::CopyFile { from: self.from, to: self.to }),
            Phase::Done => None,
        }
    }

    /// Whether an answer is one that the call under way can give.
    pub open spec fn takes<E>(self, reply: Reply<Seq<u8>, E>) -> bool {
        match self.phase {
            Phase::Identifying => reply is Id,
            Phase::Typing => reply is Kind,
            Phase::Descending => reply is Unit,
            Phase::ReadingLink => reply is Link,
            Phase::Linking { .. } => reply is Unit,
            Phase::Copying => reply is Unit,
            Phase::Done => false,
        }
    }

    /// Whether a failure is no reason to stop: that the entry cannot be identified.
    pub open spec fn forgives<E>(self, failure: Failure<E>) -> bool {
        self.phase is Identifying
    }

    /// The phase that follows when there is no reason to stop. The directory at the top of
    /// the copy is left out, and what has its inode number and cannot be looked up is taken
    /// for it.
    pub open spec fn follow_up<E>(self, reply: Reply<Seq<u8>, E>) -> Phase<Seq<u8>> {
        match self.phase {
            Phase::Identifying => match reply->Id_0 {
                Ok(id) if self.root != Some(id) => Phase::Typing,
                _ => Phase::Done,
            },
            Phase::Typing => kind_phase(self.platform, reply->Kind_0->Ok_0),
            Phase::ReadingLink => Phase::Linking { target: reply->Link_0->Ok_0 },
            _ => Phase::Done,
        }
    }

    /// What an answer leads to, or the error of the call.
    pub open spec fn after<E>(self, reply: Reply<Seq<u8>, E>) -> Result<EntryCopy<Seq<u8>>, E> {
        match reply.failure() {
            Some(failure) if !self.forgives(failure) => Err(failure.error),
            _ => Ok(EntryCopy { phase: self.follow_up(reply), ..self }),
        }
    }
}

/// Begins the copy of the entry at `from`, which goes to `to`.
pub fn begin_entry_at(
    platform: Platform,
    root: Option<FileId>,
    from: PathBuf,
    to: PathBuf,
    ino: u64,
) -> (copy: EntryCopy<PathBuf>)
    ensures
        copy@ == EntryCopy::<Seq<u8>>::begin(platform, root, os_bytes(from), os_bytes(to), ino),
{
    let maybe_top = match root {
        Some(root) => root.ino == ino,
        None => false,
    };
    let phase = if platform.has_links() && maybe_top {
        Phase::Identifying
    } else {
        Phase::Typing
    };
    EntryCopy { from, to, platform, root, phase }
}

/// Begins the copy of the entry `name`, which is at `from` and goes into the directory
/// `to_dir`.
pub fn begin_entry(
    platform: Platform,
    root: Option<FileId>,
    from: PathBuf,
    to_dir: &PathBuf,
    name: &PathBuf,
    ino: u64,
) -> (copy: EntryCopy<PathBuf>)
    ensures
        copy@ == EntryCopy::<Seq<u8>>::begin(
            platform,
            root,
            os_bytes(from),
            joined_bytes(os_bytes(*to_dir), os_bytes(*name)),
            ino,
        ),
{
    begin_entry_at(platform, root, from, join(to_dir, name), ino)
}

impl EntryCopy<PathBuf> {
    /// The call to make next, or none when the entry is copied.
    pub fn request(&self) -> (request: Option<Request<PathBuf>>)
        ensures
            request_view(request) == self@.wants(),
    {
        match &self.phase {
            Phase::Identifying => Some(Request::Identify),
            Phase::Typing => Some(Request::FileType),
            Phase::Descending => Some(
                Request::CopyDir {
                    from: self.from.clone(),
                    to: self.to.clone(),
                    root_to_inode: self.root,
                },
            ),
            Phase::ReadingLink => Some(Request::ReadLink { path: self.from.clone() }),
            Phase::Linking { target } => Some(
                Request::MakeLink { target: target.clone(), path: self.to.clone() },
            ),
            Phase::Copying => Some(
                Request::CopyFile { from: self.from.clone(), to: self.to.clone() },
            ),
            Phase::Done => None,
        }
    }

    /// Whether an answer is one that the call under way can give.
    pub fn accepts<E>(&self, reply: &Reply<PathBuf, E>) -> (accepted: bool)
        ensures
            accepted == self@.takes(reply@),
    {
        match (&self.phase, reply) {
            (Phase::Identifying, Reply::Id(_)) => true,
            (Phase::Typing, Reply::Kind(_)) => true,
            (Phase::Descending, Reply::Unit(_)) => true,
            (Phase::ReadingLink, Reply::Link(_)) => true,
            (Phase::Linking { .. }, Reply::Unit(_)) => true,
            (Phase::Copying, Reply::Unit(_)) => true,
            _ => false,
        }
    }

    /// Goes on with what the call under way answered.
    pub fn advance<E>(self, reply: Reply<PathBuf, E>) -> (result: Result<EntryCopy<PathBuf>, E>)
        requires
            self@.takes(reply@),
        ensures
            result_view(result) == self@.after(reply@),
    {
        let EntryCopy { from, to, platform, root, phase } = self;
        let phase = match (phase, reply) {
            (_, Reply::Unit(Err(f))) => {
                return Err(f.error);
            },
            (Phase::Identifying, Reply::Id(Err(_))) => Phase::Done,
            (_, Reply::Kind(Err(f))) => {
                return Err(f.error);
            },
            (_, Reply::Link(Err(f))) => {
                return Err(f.error);
            },
            (Phase::Identifying, Reply::Id(Ok(id))) => {
                let at_top = match root {
                    Some(root) => root == id,
                    None => false,
                };
                if at_top {
                    Phase::Done
                } else {
                    Phase::Typing
                }
            },
            (Phase::Typing, Reply::Kind(Ok(kind))) => match kind {
                SourceKind::Directory => Phase::Descending,
                SourceKind::Symlink => if platform.has_links() {
                    Phase::ReadingLink
                } else {
                    Phase::Copying
                },
                SourceKind::Other => Phase::Copying,
            },
            (Phase::ReadingLink, Reply::Link(Ok(target))) => Phase::Linking { target },
            (Phase::Descending, Reply::Unit(Ok(_))) => Phase::Done,
            (Phase::Linking { .. }, Reply::Unit(Ok(_))) => Phase::Done,
            (Phase::Copying, Reply::Unit(Ok(_))) => Phase::Done,
            _ => unreached(),
        };
        Ok(EntryCopy { from, to, platform, root, phase })
    }
}

} // verus!
