//! Copying one directory, up to its entries.

use crate::error::{Failure, FailureKind};
use crate::file_id::FileId;
use crate::os_path::os_bytes;
use crate::platform::Platform;
use std::path::PathBuf;
use vstd::pervasive::unreached;
use vstd::prelude::*;

verus! {

/// How far the copy of a directory has come. `root` is the identity of the directory at
/// the top of the copy, on platforms that look at it.
#[derive(Debug, Clone, Copy, PartialEq, Eq, Structural)]
pub enum Phase {
    /// Making the directory that takes the copies.
    Making,
    /// Reading its identity, at the top of the copy.
    Statting,
    /// Listing the directory to copy.
    Listing { root: Option<FileId> },
    /// The directory is listed, and its entries are to be copied.
    Listed { root: Option<FileId> },
}

/// The copy of one directory.
#[derive(Debug, PartialEq, Eq)]
pub struct DirCopy<Q> {
    pub from: Q,
    pub to: Q,
    pub platform: Platform,
    /// The identity of the directory at the top of the copy, once it is known.
    pub root_to_inode: Option<FileId>,
    pub phase: Phase,
}

impl View for DirCopy<PathBuf> {
    type V = DirCopy<Seq<u8>>;

    open spec fn view(&self) -> DirCopy<Seq<u8>> {
        DirCopy {
            from: os_bytes(self.from),
            to: os_bytes(self.to),
            platform: self.platform,
            root_to_inode: self.root_to_inode,
            phase: self.phase,
        }
    }
}

/// A call to make for a directory.
#[derive(Debug, PartialEq, Eq)]
pub enum Request<Q> {
    /// Make a directory.
    CreateDir { path: Q },
    /// Read the identity of what stands at the path.
    Stat { path: Q },
    /// List a directory.
    ReadDir { path: Q },
}

/// What a call for a directory answered.
#[derive(Debug, PartialEq, Eq)]
pub enum Reply<E> {
    /// Of a call that answers nothing that matters here but whether it worked.
    Unit(Result<(), Failure<E>>),
    /// The identity of a file.
    Id(Result<FileId, Failure<E>>),
}

impl<E> Reply<E> {
    /// The failure that the answer reports, if the call failed.
    pub open spec fn failure(self) -> Option<Failure<E>> {
        match self {
            Reply::Unit(Err(failure)) => Some(failure),
            Reply::Id(Err(failure)) => Some(failure),
            _ => None,
        }
    }
}

/// Requests with every path taken by its bytes.
pub open spec fn request_view(request: Option<Request<PathBuf>>) -> Option<Request<Seq<u8>>> {
    match request {
        Some(Request::CreateDir { path }) => Some(Request::CreateDir { path: os_bytes(path) }),
        Some(Request::Stat { path }) => Some(Request::Stat { path: os_bytes(path) }),
        Some(Request::ReadDir { path }) => Some(Request::ReadDir { path: os_bytes(path) }),
        None => None,
    }
}

/// Copies by their views.
pub open spec fn result_view<E>(result: Result<DirCopy<PathBuf>, E>) -> Result<
    DirCopy<Seq<u8>>,
    E,
> {
    match result {
        Ok(copy) => Ok(copy@),
        Err(error) => Err(error),
    }
}

/// The phase that follows once the directory that takes the copies is there. Where the
/// top of the copy is looked out for and did not come with the directory, it is the one
/// just made, which is identified.
pub open spec fn made_phase(platform: Platform, root_to_inode: Option<FileId>) -> Phase {
    if !platform.copies_links() {
        Phase::Listing { root: None }
    } else {
        match root_to_inode {
            Some(root) => Phase::Listing { root: Some(root) },
            None => Phase::Statting,
        }
    }
}

impl DirCopy<Seq<u8>> {
    /// The copy of a directory at its beginning.
    pub open spec fn begin(
        platform: Platform,
        from: Seq<u8>,
        to: Seq<u8>,
        root_to_inode: Option<FileId>,
    ) -> DirCopy<Seq<u8>> {
        DirCopy { from, to, platform, root_to_inode, phase: Phase::Making }
    }

    /// The call that is under way, if the directory is not listed yet.
    pub open spec fn wants(self) -> Option<Request<Seq<u8>>> {
        match self.phase {
            Phase::Making => Some(Request::CreateDir { path: self.to }),
            Phase::Statting => Some(Request::Stat { path: self.to }),
            Phase::Listing { .. } => Some(Request::ReadDir { path: self.from }),
            Phase::Listed { .. } => None,
        }
    }

    /// Whether an answer is one that the call under way can give.
    pub open spec fn takes<E>(self, reply: Reply<E>) -> bool {
        match self.phase {
            Phase::Making => reply is Unit,
            Phase::Statting => reply is Id,
            Phase::Listing { .. } => reply is Unit,
            Phase::Listed { .. } => false,
        }
    }

    /// Whether a failure only means that the target directory is there already.
    pub open spec fn forgives<E>(self, failure: Failure<E>) -> bool {
        self.phase is Making && failure.kind == FailureKind::AlreadyExists
    }

    /// The phase that follows when the call worked.
    pub open spec fn follow_up<E>(self, reply: Reply<E>) -> Phase {
        match self.phase {
            Phase::Making => made_phase(self.platform, self.root_to_inode),
            Phase::Statting => Phase::Listing { root: Some(reply->Id_0->Ok_0) },
            Phase::Listing { root } => Phase::Listed { root },
            Phase::Listed { root } => Phase::Listed { root },
        }
    }

    /// What an answer leads to, or the error of the call.
    pub open spec fn after<E>(self, reply: Reply<E>) -> Result<DirCopy<Seq<u8>>, E> {
        match reply.failure() {
            Some(failure) if !self.forgives(failure) => Err(failure.error),
            _ => Ok(DirCopy { phase: self.follow_up(reply), ..self }),
        }
    }
}

/// Begins the copy of a directory.
pub fn copy_dir(
    platform: Platform,
    from: PathBuf,
    to: PathBuf,
    root_to_inode: Option<FileId>,
) -> (copy: DirCopy<PathBuf>)
    ensures
        copy@ == DirCopy::<Seq<u8>>::begin(platform, os_bytes(from), os_bytes(to), root_to_inode),
{
    DirCopy { from, to, platform, root_to_inode, phase: Phase::Making }
}

/// Where the identity of the top of the copy comes from: from the caller, or else, at the
/// top itself, from the directory that was just made.
pub fn maybe_compute_root_to_inode(platform: Platform, root_to_inode: Option<FileId>) -> (phase:
    Phase)
    ensures
        phase == made_phase(platform, root_to_inode),
{
    if !platform.has_links() {
        return Phase::Listing { root: None };
    }
    match root_to_inode {
        Some(root) => Phase::Listing { root: Some(root) },
        None => Phase::Statting,
    }
}

impl DirCopy<PathBuf> {
    /// The call to make next, or none when the directory is listed.
    pub fn request(&self) -> (request: Option<Request<PathBuf>>)
        ensures
            request_view(request) == self@.wants(),
    {
        match self.phase {
            Phase::Making => Some(Request::CreateDir { path: self.to.clone() }),
            Phase::Statting => Some(Request::Stat { path: self.to.clone() }),
            Phase::Listing { .. } => Some(Request::ReadDir { path: self.from.clone() }),
            Phase::Listed { .. } => None,
        }
    }

    /// Whether an answer is one that the call under way can give.
    pub fn accepts<E>(&self, reply: &Reply<E>) -> (accepted: bool)
        ensures
            accepted == self@.takes(*reply),
    {
        match (self.phase, reply) {
            (Phase::Making, Reply::Unit(_)) => true,
            (Phase::Statting, Reply::Id(_)) => true,
            (Phase::Listing { .. }, Reply::Unit(_)) => true,
            _ => false,
        }
    }

    /// Goes on with what the call under way answered.
    pub fn advance<E>(self, reply: Reply<E>) -> (result: Result<DirCopy<PathBuf>, E>)
        requires
            self@.takes(reply),
        ensures
            result_view(result) == self@.after(reply),
    {
        let phase = match (self.phase, reply) {
            (Phase::Making, Reply::Unit(Ok(_))) => maybe_compute_root_to_inode(
                self.platform,
                self.root_to_inode,
            ),
            (Phase::Making, Reply::Unit(Err(f))) => {
                if f.kind != FailureKind::AlreadyExists {
                    return Err(f.error);
                }
                maybe_compute_root_to_inode(self.platform, self.root_to_inode)
            },
            (Phase::Statting, Reply::Id(Ok(root))) => Phase::Listing { root: Some(root) },
            (Phase::Statting, Reply::Id(Err(f))) => {
                return Err(f.error);
            },
            (Phase::Listing { root }, Reply::Unit(Ok(_))) => Phase::Listed { root },
            (Phase::Listing { .. }, Reply::Unit(Err(f))) => {
                return Err(f.error);
            },
            _ => unreached(),
        };
        Ok(
            DirCopy {
                from: self.from,
                to: self.to,
                platform: self.platform,
                root_to_inode: self.root_to_inode,
                phase,
            },
        )
    }
}

} // verus!
