//! Copying one directory: the directory itself is made, files and links in it are
//! copied, and directories in it are queued.

use crate::c_path::{concat_cstrs, is_dot_name, CPath};
use crate::error::{
    io_error, io_error_view, Attempt, CopyError, ErrorView, Failure, FailureKind, Subject,
};
use crate::file_id::FileId;
use crate::file_type::{mode_of, permission_bits, FileType};
use crate::linux::file::{
    begin_entry, copy_any_file, copy_regular_file, copy_symlink, first_step, get_file_type,
    prep_regular_file, step_result_view, Step,
};
use crate::linux::node::{
    read_flags, source_dir_flags, target_dir_flags, Entry, OpenFlags, Reply, Request, TreeNode,
};
use vstd::pervasive::unreached;
use vstd::prelude::*;

verus! {

/// How far the copy of a directory has come: the call that is under way. `root`
/// is the identity of the directory at the top of the copy.
#[derive(Debug, PartialEq, Eq)]
pub enum Phase<P> {
    /// Opening the directory to copy.
    OpeningSource,
    /// Reading its mode.
    StattingSource,
    /// Making the directory that takes the copies.
    MakingTarget { mode: u32 },
    /// Opening that directory.
    OpeningTarget,
    /// Reading its identity, at the top of the copy.
    StattingTarget,
    /// Reading the next entry.
    Reading { root: FileId },
    /// Asking which file the entry is that was read last, as its inode number is that
    /// of the top of the copy.
    Identifying { root: FileId, name: P, file_type: FileType },
    /// Copying the entry that was read last.
    Copying { root: FileId, name: P, step: Step<P> },
    /// All entries have been read.
    Finished { root: FileId },
}

/// The copy of one directory.
#[derive(Debug, PartialEq, Eq)]
pub struct DirCopy<P> {
    pub node: TreeNode<P>,
    pub phase: Phase<P>,
}

impl View for Phase<CPath> {
    type V = Phase<Seq<u8>>;

    open spec fn view(&self) -> Phase<Seq<u8>> {
        match *self {
            Phase::OpeningSource => Phase::OpeningSource,
            Phase::StattingSource => Phase::StattingSource,
            Phase::MakingTarget { mode } => Phase::MakingTarget { mode },
            Phase::OpeningTarget => Phase::OpeningTarget,
            Phase::StattingTarget => Phase::StattingTarget,
            Phase::Reading { root } => Phase::Reading { root },
            Phase::Identifying { root, name, file_type } => Phase::Identifying {
                root,
                name: name@,
                file_type,
            },
            Phase::Copying { root, name, step } => Phase::Copying {
                root,
                name: name@,
                step: step@,
            },
            Phase::Finished { root } => Phase::Finished { root },
        }
    }
}

impl View for DirCopy<CPath> {
    type V = DirCopy<Seq<u8>>;

    open spec fn view(&self) -> DirCopy<Seq<u8>> {
        DirCopy { node: self.node@, phase: self.phase@ }
    }
}

/// Whether an entry is passed over, which is the file `id`, if that can be found out: it
/// is the directory itself or its parent, or it is the directory at the top of the copy,
/// which stands inside what is being copied. What has the inode number of that directory
/// and cannot be looked up is taken for it.
pub open spec fn passes_over(root: FileId, entry: Entry<Seq<u8>>, id: Option<FileId>) -> bool {
    is_dot_name(entry.name) || (entry.ino == root.ino && is_taken_for(root, id))
}

/// Whether a file that has the inode number of `root` is taken for it.
pub open spec fn is_taken_for(root: FileId, id: Option<FileId>) -> bool {
    match id {
        Some(id) => id == root,
        None => true,
    }
}

/// The phase that follows once an entry was listed. Whether it is the directory at the
/// top of the copy is asked only where the inode numbers are the same.
pub open spec fn listed_phase(root: FileId, entry: Entry<Seq<u8>>) -> Phase<Seq<u8>> {
    if is_dot_name(entry.name) {
        Phase::Reading { root }
    } else if entry.ino == root.ino {
        Phase::Identifying { root, name: entry.name, file_type: entry.file_type }
    } else {
        Phase::Copying { root, name: entry.name, step: first_step(entry.file_type) }
    }
}

/// The phase that follows once it is known which file an entry is, if that can be found
/// out.
pub open spec fn identified_phase(
    root: FileId,
    name: Seq<u8>,
    file_type: FileType,
    id: Option<FileId>,
) -> Phase<Seq<u8>> {
    if is_taken_for(root, id) {
        Phase::Reading { root }
    } else {
        Phase::Copying { root, name, step: first_step(file_type) }
    }
}

/// The phase in which the entries of a directory are read, or that in which the
/// directory is identified which they are compared with.
pub open spec fn reading_phase(root_to_inode: Option<FileId>) -> Phase<Seq<u8>> {
    match root_to_inode {
        Some(root) => Phase::Reading { root },
        None => Phase::StattingTarget,
    }
}

impl DirCopy<Seq<u8>> {
    /// The copy of a directory at its beginning.
    pub open spec fn begin(node: TreeNode<Seq<u8>>) -> DirCopy<Seq<u8>> {
        DirCopy { node, phase: Phase::OpeningSource }
    }

    /// The call that is under way, if the copy is not finished.
    pub open spec fn wants(self) -> Option<Request<Seq<u8>>> {
        match self.phase {
            Phase::OpeningSource => Some(
                Request::OpenSourceDir { path: self.node.from, flags: source_dir_flags() },
            ),
            Phase::StattingSource => Some(Request::StatSourceDir),
            Phase::MakingTarget { mode } => Some(Request::MakeDir { path: self.node.to, mode }),
            Phase::OpeningTarget => Some(
                Request::OpenTargetDir { path: self.node.to, flags: target_dir_flags() },
            ),
            Phase::StattingTarget => Some(Request::StatTargetDir),
            Phase::Reading { .. } => Some(Request::ReadEntry),
            Phase::Identifying { name, .. } => Some(Request::IdentifyEntry { name }),
            Phase::Copying { root, name, step } => Some(step.wants(self.node, name, root)),
            Phase::Finished { .. } => None,
        }
    }

    /// Whether an answer is one that the call under way can give.
    pub open spec fn takes<E>(self, reply: Reply<Seq<u8>, E>) -> bool {
        match self.phase {
            Phase::OpeningSource => reply is Unit,
            Phase::StattingSource => reply is Mode,
            Phase::MakingTarget { .. } => reply is Unit,
            Phase::OpeningTarget => reply is Unit,
            Phase::StattingTarget => reply is Id,
            Phase::Reading { .. } => reply is Entry,
            Phase::Identifying { .. } => reply is Id,
            Phase::Copying { step, .. } => step.takes(reply),
            Phase::Finished { .. } => false,
        }
    }

    /// What an error message is about, outside the steps that copy a single entry.
    pub open spec fn blame(self) -> (Attempt, Subject<Seq<u8>, Seq<u8>>) {
        let from = Subject::Directory(self.node.from);
        let to = Subject::Directory(self.node.to);
        match self.phase {
            Phase::OpeningSource => (Attempt::OpenDirectory, from),
            Phase::StattingSource => (Attempt::StatDirectory, from),
            Phase::MakingTarget { .. } => (Attempt::CreateDirectory, to),
            Phase::OpeningTarget => (Attempt::OpenDirectory, to),
            Phase::StattingTarget => (Attempt::StatDirectory, to),
            _ => (Attempt::ReadDirectory, from),
        }
    }

    /// Whether a failure is no reason to stop: that the target directory is there already,
    /// or that an entry cannot be identified.
    pub open spec fn forgives<E>(self, failure: Failure<E>) -> bool {
        (self.phase is MakingTarget && failure.kind == FailureKind::AlreadyExists)
            || self.phase is Identifying
    }

    /// The phase that follows when there is no reason to stop, outside the steps that
    /// copy a single entry.
    pub open spec fn follow_up<E>(self, reply: Reply<Seq<u8>, E>) -> Phase<Seq<u8>> {
        match self.phase {
            Phase::OpeningSource => Phase::StattingSource,
            Phase::StattingSource => Phase::MakingTarget {
                mode: permission_bits(reply->Mode_0->Ok_0),
            },
            Phase::MakingTarget { .. } => Phase::OpeningTarget,
            Phase::OpeningTarget => reading_phase(self.node.root_to_inode),
            Phase::StattingTarget => Phase::Reading { root: reply->Id_0->Ok_0 },
            Phase::Reading { root } => match reply->Entry_0 {
                Some(Ok(entry)) => listed_phase(root, entry),
                _ => Phase::Finished { root },
            },
            Phase::Identifying { root, name, file_type } => identified_phase(
                root,
                name,
                file_type,
                reply->Id_0.ok(),
            ),
            _ => self.phase,
        }
    }

    /// What an answer leads to: the next phase, or the end of the whole copy with
    /// an error.
    pub open spec fn after<E>(self, reply: Reply<Seq<u8>, E>) -> Result<
        DirCopy<Seq<u8>>,
        ErrorView<E>,
    > {
        match self.phase {
            Phase::Copying { root, name, step } => match step.after(self.node, name, reply) {
                Ok(Some(step)) => Ok(
                    DirCopy { node: self.node, phase: Phase::Copying { root, name, step } },
                ),
                Ok(None) => Ok(DirCopy { node: self.node, phase: Phase::Reading { root } }),
                Err(error) => Err(error),
            },
            _ => match reply.failure() {
                Some(failure) if !self.forgives(failure) => Err(
                    io_error_view(failure.error, self.blame().0, self.blame().1),
                ),
                _ => Ok(DirCopy { node: self.node, phase: self.follow_up(reply) }),
            },
        }
    }
}

/// Requests by their views.
pub open spec fn request_view(request: Option<Request<CPath>>) -> Option<Request<Seq<u8>>> {
    match request {
        Some(request) => Some(request@),
        None => None,
    }
}

/// Phases by their views, and errors by theirs.
pub open spec fn phase_result_view<E>(result: Result<Phase<CPath>, CopyError<E>>) -> Result<
    Phase<Seq<u8>>,
    ErrorView<E>,
> {
    match result {
        Ok(phase) => Ok(phase@),
        Err(error) => Err(error@),
    }
}

/// Copies by their views, and errors by theirs.
pub open spec fn copy_result_view<E>(result: Result<DirCopy<CPath>, CopyError<E>>) -> Result<
    DirCopy<Seq<u8>>,
    ErrorView<E>,
> {
    match result {
        Ok(copy) => Ok(copy@),
        Err(error) => Err(error@),
    }
}

/// The subject that messages about a directory show.
fn directory(path: &CPath) -> (subject: Subject<std::path::PathBuf, CPath>)
    ensures
        crate::error::subject_view(subject) == Subject::<Seq<u8>, Seq<u8>>::Directory(path@),
{
    Subject::Directory(path.clone())
}

/// Begins the copy of a directory.
pub fn copy_dir(node: TreeNode<CPath>) -> (copy: DirCopy<CPath>)
    ensures
        copy@ == DirCopy::begin(node@),
{
    DirCopy { node, phase: Phase::OpeningSource }
}

/// How to go on until the target directory is open: it is made with the mode of
/// the source directory, unless it is there already.
pub fn copy_one_dir<E>(
    node: &TreeNode<CPath>,
    phase: Phase<CPath>,
    reply: Reply<CPath, E>,
) -> (result: Result<Phase<CPath>, CopyError<E>>)
    requires
        phase is StattingSource || phase is MakingTarget || phase is OpeningTarget,
        (DirCopy { node: node@, phase: phase@ }).takes(reply@),
    ensures
        match (DirCopy { node: node@, phase: phase@ }).after(reply@) {
            Ok(copy) => phase_result_view(result) == Ok::<Phase<Seq<u8>>, ErrorView<E>>(
                copy.phase,
            ),
            Err(error) => phase_result_view(result) == Err::<Phase<Seq<u8>>, ErrorView<E>>(error),
        },
{
    match (phase, reply) {
        (Phase::StattingSource, Reply::Mode(Ok(raw))) => Ok(
            Phase::MakingTarget { mode: mode_of(raw) },
        ),
        (Phase::StattingSource, Reply::Mode(Err(f))) => Err(
            io_error(f.error, Attempt::StatDirectory, directory(&node.from)),
        ),
        (Phase::MakingTarget { .. }, Reply::Unit(Ok(_))) => Ok(Phase::OpeningTarget),
        (Phase::MakingTarget { .. }, Reply::Unit(Err(f))) => {
            if f.kind == FailureKind::AlreadyExists {
                Ok(Phase::OpeningTarget)
            } else {
                Err(io_error(f.error, Attempt::CreateDirectory, directory(&node.to)))
            }
        },
        (Phase::OpeningTarget, Reply::Unit(Ok(_))) => Ok(
            maybe_compute_root_to_inode(node.root_to_inode),
        ),
        (Phase::OpeningTarget, Reply::Unit(Err(f))) => Err(
            io_error(f.error, Attempt::OpenDirectory, directory(&node.to)),
        ),
        _ => unreached(),
    }
}

/// Where the identity of the top of the copy comes from: from the node, or else, at
/// the top itself, from the directory that was just opened.
pub fn maybe_compute_root_to_inode(root_to_inode: Option<FileId>) -> (phase: Phase<CPath>)
    ensures
        phase@ == reading_phase(root_to_inode),
{
    match root_to_inode {
        Some(root) => Phase::Reading { root },
        None => Phase::StattingTarget,
    }
}

/// How to go on with an entry that was read.
fn copy_listed_entry(root: FileId, entry: Entry<CPath>) -> (phase: Phase<CPath>)
    ensures
        phase@ == listed_phase(root, entry@),
{
    if entry.name.is_dot() {
        Phase::Reading { root }
    } else if entry.ino == root.ino {
        Phase::Identifying { root, name: entry.name, file_type: entry.file_type }
    } else {
        let step = begin_entry(entry.file_type);
        Phase::Copying { root, name: entry.name, step }
    }
}

/// How to go on with an entry that is the file `id`, if that can be found out.
fn copy_identified_entry(
    root: FileId,
    name: CPath,
    file_type: FileType,
    id: Option<FileId>,
) -> (phase: Phase<CPath>)
    ensures
        phase@ == identified_phase(root, name@, file_type, id),
{
    let taken = match id {
        Some(id) => id == root,
        None => true,
    };
    if taken {
        Phase::Reading { root }
    } else {
        let step = begin_entry(file_type);
        Phase::Copying { root, name, step }
    }
}

/// How to go on with the entry that is being copied.
fn copy_entry<E>(
    node: &TreeNode<CPath>,
    name: &CPath,
    step: Step<CPath>,
    reply: Reply<CPath, E>,
) -> (result: Result<Option<Step<CPath>>, CopyError<E>>)
    requires
        step@.takes(reply@),
    ensures
        step_result_view(result) == step@.after(node@, name@, reply@),
{
    match step {
        Step::Typing => get_file_type(node, name, reply),
        Step::Sending => match reply {
            Reply::Sent(true) => Ok(None),
            Reply::Sent(false) => Err(crate::error::Error::Internal),
            _ => unreached(),
        },
        Step::ReadingLink => copy_symlink(node, name, step, reply),
        Step::Linking { .. } => copy_symlink(node, name, step, reply),
        Step::OpeningFrom { .. } => prep_regular_file(node, name, step, reply),
        Step::StattingFrom { .. } => prep_regular_file(node, name, step, reply),
        Step::OpeningTo { .. } => prep_regular_file(node, name, step, reply),
        Step::Ranging { total } => copy_regular_file(node, name, total, reply),
        Step::Streaming => copy_any_file(node, name, reply),
    }
}

/// The flags that `read_flags` describes.
fn plain_flags() -> (flags: OpenFlags)
    ensures
        flags == read_flags(),
{
    OpenFlags {
        write: false,
        create: false,
        truncate: false,
        directory: false,
        no_follow: false,
        path: false,
    }
}

impl DirCopy<CPath> {
    /// The call to make next, or none when the directory has been copied.
    pub fn request(&self) -> (request: Option<Request<CPath>>)
        ensures
            request_view(request) == self@.wants(),
    {
        let read: OpenFlags = plain_flags();
        match &self.phase {
            Phase::OpeningSource => {
                let flags = OpenFlags { directory: true, no_follow: true, ..read };
                Some(Request::OpenSourceDir { path: self.node.from.clone(), flags })
            },
            Phase::StattingSource => Some(Request::StatSourceDir),
            Phase::MakingTarget { mode } => Some(
                Request::MakeDir { path: self.node.to.clone(), mode: *mode },
            ),
            Phase::OpeningTarget => {
                let flags = OpenFlags { directory: true, path: true, ..read };
                Some(Request::OpenTargetDir { path: self.node.to.clone(), flags })
            },
            Phase::StattingTarget => Some(Request::StatTargetDir),
            Phase::Reading { .. } => Some(Request::ReadEntry),
            Phase::Identifying { name, .. } => Some(Request::IdentifyEntry { name: name.clone() }),
            Phase::Copying { root, name, step } => Some(self.entry_request(*root, name, step)),
            Phase::Finished { .. } => None,
        }
    }

    /// The call to make next for the entry that is being copied.
    fn entry_request(&self, root: FileId, name: &CPath, step: &Step<CPath>) -> (request: Request<
        CPath,
    >)
        ensures
            request@ == step@.wants(self.node@, name@, root),
    {
        let read: OpenFlags = plain_flags();
        match step {
            Step::Typing => Request::StatEntry { name: name.clone(), follow: false },
            Step::Sending => Request::Send {
                node: TreeNode {
                    from: concat_cstrs(&self.node.from, name),
                    to: concat_cstrs(&self.node.to, name),
                    root_to_inode: Some(root),
                },
            },
            Step::ReadingLink => Request::ReadLink { name: name.clone() },
            Step::Linking { target } => Request::MakeLink {
                target: target.clone(),
                name: name.clone(),
            },
            Step::OpeningFrom { .. } => Request::OpenSourceFile { name: name.clone(), flags: read },
            Step::StattingFrom { .. } => Request::StatEntry { name: name.clone(), follow: true },
            Step::OpeningTo { mode, .. } => {
                let flags = OpenFlags { write: true, create: true, truncate: true, ..read };
                Request::OpenTargetFile { name: name.clone(), flags, mode: *mode }
            },
            Step::Ranging { total } => Request::CopyRange { len: usize::MAX - *total },
            Step::Streaming => Request::CopyRest,
        }
    }

    /// Whether an answer is one that the call under way can give.
    pub fn accepts<E>(&self, reply: &Reply<CPath, E>) -> (accepted: bool)
        ensures
            accepted == self@.takes(reply@),
    {
        match (&self.phase, reply) {
            (Phase::OpeningSource, Reply::Unit(_)) => true,
            (Phase::StattingSource, Reply::Mode(_)) => true,
            (Phase::MakingTarget { .. }, Reply::Unit(_)) => true,
            (Phase::OpeningTarget, Reply::Unit(_)) => true,
            (Phase::StattingTarget, Reply::Id(_)) => true,
            (Phase::Reading { .. }, Reply::Entry(_)) => true,
            (Phase::Identifying { .. }, Reply::Id(_)) => true,
            (Phase::Copying { step, .. }, _) => match (step, reply) {
                (Step::Typing, Reply::Mode(_)) => true,
                (Step::Sending, Reply::Sent(_)) => true,
                (Step::ReadingLink, Reply::Link(_)) => true,
                (Step::Linking { .. }, Reply::Unit(_)) => true,
                (Step::OpeningFrom { .. }, Reply::Unit(_)) => true,
                (Step::StattingFrom { .. }, Reply::Mode(_)) => true,
                (Step::OpeningTo { .. }, Reply::Unit(_)) => true,
                (Step::Ranging { total }, Reply::Copied(Ok(n))) => *n <= usize::MAX - *total,
                (Step::Ranging { .. }, Reply::Copied(Err(_))) => true,
                (Step::Streaming, Reply::Unit(_)) => true,
                _ => false,
            },
            _ => false,
        }
    }

    /// Goes on with what the call under way answered.
    pub fn advance<E>(self, reply: Reply<CPath, E>) -> (result: Result<
        DirCopy<CPath>,
        CopyError<E>,
    >)
        requires
            self@.takes(reply@),
        ensures
            copy_result_view(result) == self@.after(reply@),
    {
        let DirCopy { node, phase } = self;
        match phase {
            Phase::OpeningSource => match reply {
                Reply::Unit(Ok(_)) => Ok(DirCopy { node, phase: Phase::StattingSource }),
                Reply::Unit(Err(f)) => Err(
                    io_error(f.error, Attempt::OpenDirectory, directory(&node.from)),
                ),
                _ => unreached(),
            },
            Phase::StattingTarget => match reply {
                Reply::Id(Ok(root)) => Ok(DirCopy { node, phase: Phase::Reading { root } }),
                Reply::Id(Err(f)) => Err(
                    io_error(f.error, Attempt::StatDirectory, directory(&node.to)),
                ),
                _ => unreached(),
            },
            Phase::Reading { root } => match reply {
                Reply::Entry(None) => Ok(DirCopy { node, phase: Phase::Finished { root } }),
                Reply::Entry(Some(Ok(entry))) => Ok(
                    DirCopy { node, phase: copy_listed_entry(root, entry) },
                ),
                Reply::Entry(Some(Err(f))) => Err(
                    io_error(f.error, Attempt::ReadDirectory, directory(&node.from)),
                ),
                _ => unreached(),
            },
            Phase::Identifying { root, name, file_type } => match reply {
                Reply::Id(Ok(id)) => Ok(
                    DirCopy { node, phase: copy_identified_entry(root, name, file_type, Some(id)) },
                ),
                Reply::Id(Err(_)) => Ok(
                    DirCopy { node, phase: copy_identified_entry(root, name, file_type, None) },
                ),
                _ => unreached(),
            },
            Phase::Copying { root, name, step } => match copy_entry(&node, &name, step, reply) {
                Ok(Some(step)) => Ok(DirCopy { node, phase: Phase::Copying { root, name, step } }),
                Ok(None) => Ok(DirCopy { node, phase: Phase::Reading { root } }),
                Err(error) => Err(error),
            },
            Phase::Finished { .. } => unreached(),
            phase => match copy_one_dir(&node, phase, reply) {
                Ok(phase) => Ok(DirCopy { node, phase }),
                Err(error) => Err(error),
            },
        }
    }
}

} // verus!
