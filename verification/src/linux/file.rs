//! Copying one entry of a directory.

use crate::c_path::{child_path, CPath};
use crate::error::{
    io_error, io_error_view, Attempt, CopyError, Error, ErrorView, Failure, FailureKind,
    Subject,
};
use crate::file_id::FileId;
use crate::file_type::{file_type_of, mode_of, permission_bits, type_bits, FileType};
use crate::linux::node::{
    read_flags, target_file_flags, Reply, Request, TreeNode,
};
use vstd::pervasive::unreached;
use vstd::prelude::*;

verus! {

/// How far the copy of one entry has come: the call that is under way.
#[derive(Debug, PartialEq, Eq)]
pub enum Step<P> {
    /// Asking what the entry is, as the directory did not say.
    Typing,
    /// Queueing the directory that the entry is.
    Sending,
    /// Reading the link that the entry is.
    ReadingLink,
    /// Making the link.
    Linking { target: P },
    /// Opening the file to copy.
    OpeningFrom { regular: bool },
    /// Reading its mode.
    StattingFrom { regular: bool },
    /// Opening the file that takes the copy.
    OpeningTo { regular: bool, mode: u32 },
    /// Having the kernel copy, `total` bytes so far.
    Ranging { total: usize },
    /// Copying through a buffer.
    Streaming,
}

impl View for Step<CPath> {
    type V = Step<Seq<u8>>;

    open spec fn view(&self) -> Step<Seq<u8>> {
        match *self {
            Step::Typing => Step::Typing,
            Step::Sending => Step::Sending,
            Step::ReadingLink => Step::ReadingLink,
            Step::Linking { target } => Step::Linking { target: target@ },
            Step::OpeningFrom { regular } => Step::OpeningFrom { regular },
            Step::StattingFrom { regular } => Step::StattingFrom { regular },
            Step::OpeningTo { regular, mode } => Step::OpeningTo { regular, mode },
            Step::Ranging { total } => Step::Ranging { total },
            Step::Streaming => Step::Streaming,
        }
    }
}

/// Results with every path taken by its bytes.
pub open spec fn step_result_view<E>(
    result: Result<Option<Step<CPath>>, CopyError<E>>,
) -> Result<Option<Step<Seq<u8>>>, ErrorView<E>> {
    match result {
        Ok(Some(step)) => Ok(Some(step@)),
        Ok(None) => Ok(None),
        Err(error) => Err(error@),
    }
}

/// An entry of the directory that is copied from `node.from` to `node.to`.
pub open spec fn source_entry(node: TreeNode<Seq<u8>>, name: Seq<u8>) -> Subject<Seq<u8>, Seq<u8>> {
    Subject::Entry { dir: node.from, name }
}

/// The copy of an entry in the directory at `node.to`.
pub open spec fn target_entry(node: TreeNode<Seq<u8>>, name: Seq<u8>) -> Subject<Seq<u8>, Seq<u8>> {
    Subject::Entry { dir: node.to, name }
}

/// The first step for an entry of this type. An unknown type is asked for.
pub open spec fn first_step(file_type: FileType) -> Step<Seq<u8>> {
    match file_type {
        FileType::Unknown => Step::Typing,
        _ => known_step(file_type),
    }
}

/// The first step for an entry whose type is as known as it gets.
pub open spec fn known_step(file_type: FileType) -> Step<Seq<u8>> {
    match file_type {
        FileType::Directory => Step::Sending,
        FileType::Symlink => Step::ReadingLink,
        _ => Step::OpeningFrom { regular: file_type == FileType::RegularFile },
    }
}

/// The node for the directory `name` below `node`, of a copy whose top directory
/// is `root`.
pub open spec fn child_node(
    node: TreeNode<Seq<u8>>,
    name: Seq<u8>,
    root: FileId,
) -> TreeNode<Seq<u8>> {
    TreeNode {
        from: child_path(node.from, name),
        to: child_path(node.to, name),
        root_to_inode: Some(root),
    }
}

impl Step<Seq<u8>> {
    /// The call that is under way.
    pub open spec fn wants(self, node: TreeNode<Seq<u8>>, name: Seq<u8>, root: FileId) -> Request<
        Seq<u8>,
    > {
        match self {
            Step::Typing => Request::StatEntry { name, follow: false },
            Step::Sending => Request::Send { node: child_node(node, name, root) },
            Step::ReadingLink => Request::ReadLink { name },
            Step::Linking { target } => Request::MakeLink { target, name },
            Step::OpeningFrom { .. } => Request::OpenSourceFile { name, flags: read_flags() },
            Step::StattingFrom { .. } => Request::StatEntry { name, follow: true },
            Step::OpeningTo { mode, .. } => Request::OpenTargetFile {
                name,
                flags: target_file_flags(),
                mode,
            },
            Step::Ranging { total } => Request::CopyRange { len: (usize::MAX - total) as usize },
            Step::Streaming => Request::CopyRest,
        }
    }

    /// Whether an answer is one that the call can give. The kernel never copies
    /// more bytes than it was asked for.
    pub open spec fn takes<E>(self, reply: Reply<Seq<u8>, E>) -> bool {
        match self {
            Step::Typing => reply is Mode,
            Step::Sending => reply is Sent,
            Step::ReadingLink => reply is Link,
            Step::Linking { .. } => reply is Unit,
            Step::OpeningFrom { .. } => reply is Unit,
            Step::StattingFrom { .. } => reply is Mode,
            Step::OpeningTo { .. } => reply is Unit,
            Step::Ranging { total } => reply matches Reply::Copied(copied) && (copied matches Ok(
                n,
            ) ==> n <= usize::MAX - total),
            Step::Streaming => reply is Unit,
        }
    }

    /// What an error message for this step is about.
    pub open spec fn blame(self, node: TreeNode<Seq<u8>>, name: Seq<u8>) -> (
        Attempt,
        Subject<Seq<u8>, Seq<u8>>,
    ) {
        let from = source_entry(node, name);
        let to = target_entry(node, name);
        match self {
            Step::Typing => (Attempt::StatFile, from),
            // Queueing is no system call, and fails with an error of its own.
            Step::Sending => (Attempt::CopyDirectory, from),
            Step::ReadingLink => (Attempt::ReadSymlink, from),
            Step::Linking { .. } => (Attempt::CreateSymlink, to),
            Step::OpeningFrom { .. } => (Attempt::OpenFile, from),
            Step::StattingFrom { .. } => (Attempt::StatFile, from),
            Step::OpeningTo { .. } => (Attempt::OpenFile, to),
            Step::Ranging { .. } => (Attempt::CopyFile, from),
            Step::Streaming => (Attempt::CopyFile, from),
        }
    }

    /// The step that follows when the call worked, if one does.
    pub open spec fn follow_up<E>(self, reply: Reply<Seq<u8>, E>) -> Option<Step<Seq<u8>>> {
        match self {
            Step::Typing => Some(known_step(type_bits(reply->Mode_0->Ok_0))),
            Step::Sending => None,
            Step::ReadingLink => Some(Step::Linking { target: reply->Link_0->Ok_0 }),
            Step::Linking { .. } => None,
            Step::OpeningFrom { regular } => Some(Step::StattingFrom { regular }),
            Step::StattingFrom { regular } => Some(
                Step::OpeningTo { regular, mode: permission_bits(reply->Mode_0->Ok_0) },
            ),
            Step::OpeningTo { regular, .. } => Some(
                if regular {
                    Step::Ranging { total: 0 }
                } else {
                    Step::Streaming
                },
            ),
            Step::Ranging { total } => if reply->Copied_0->Ok_0 == 0 {
                None
            } else {
                Some(Step::Ranging { total: (total + reply->Copied_0->Ok_0) as usize })
            },
            Step::Streaming => None,
        }
    }

    /// Whether a failure only means that the kernel cannot copy between the two
    /// file systems, before it has copied anything.
    pub open spec fn forgives<E>(self, failure: Failure<E>) -> bool {
        self == (Step::<Seq<u8>>::Ranging { total: 0 }) && failure.kind == FailureKind::CrossDevice
    }

    /// What an answer leads to: the next step, no further step, or the end of the
    /// whole copy with an error.
    pub open spec fn after<E>(
        self,
        node: TreeNode<Seq<u8>>,
        name: Seq<u8>,
        reply: Reply<Seq<u8>, E>,
    ) -> Result<Option<Step<Seq<u8>>>, ErrorView<E>> {
        match reply.failure() {
            Some(failure) => if self.forgives(failure) {
                Ok(Some(Step::Streaming))
            } else {
                Err(
                    io_error_view(
                        failure.error,
                        self.blame(node, name).0,
                        self.blame(node, name).1,
                    ),
                )
            },
            None => if reply == Reply::<Seq<u8>, E>::Sent(false) {
                Err(Error::Internal)
            } else {
                Ok(self.follow_up(reply))
            },
        }
    }
}

/// The subject that messages about an entry of `dir` show.
fn join_cstr_paths(dir: &CPath, name: &CPath) -> (subject: Subject<std::path::PathBuf, CPath>)
    ensures
        crate::error::subject_view(subject) == (Subject::<Seq<u8>, Seq<u8>>::Entry {
            dir: dir@,
            name: name@,
        }),
{
    Subject::Entry { dir: dir.clone(), name: name.clone() }
}

/// How to go on with an entry of this type: a directory is queued, anything else
/// is copied on the spot, once its type is known.
pub fn begin_entry(file_type: FileType) -> (step: Step<CPath>)
    ensures
        step@ == first_step(file_type),
{
    match file_type {
        FileType::Unknown => Step::Typing,
        t => copy_entry(t),
    }
}

/// How to go on with an entry whose type is as known as it gets.
fn copy_entry(file_type: FileType) -> (step: Step<CPath>)
    ensures
        step@ == known_step(file_type),
{
    if file_type == FileType::Directory {
        Step::Sending
    } else {
        copy_one_file(file_type)
    }
}

/// How to go on with an entry that is taken for no directory: a link is made anew, a
/// file is opened and its bytes are copied.
pub fn copy_one_file(file_type: FileType) -> (step: Step<CPath>)
    ensures
        step@ == if file_type == FileType::Symlink {
            Step::<Seq<u8>>::ReadingLink
        } else {
            Step::OpeningFrom { regular: file_type == FileType::RegularFile }
        },
{
    if file_type == FileType::Symlink {
        Step::ReadingLink
    } else {
        Step::OpeningFrom { regular: file_type == FileType::RegularFile }
    }
}

/// How to go on once the type of an entry was asked for.
pub fn get_file_type<E>(node: &TreeNode<CPath>, name: &CPath, reply: Reply<CPath, E>) -> (result:
    Result<Option<Step<CPath>>, CopyError<E>>)
    requires
        reply is Mode,
    ensures
        step_result_view(result) == Step::<Seq<u8>>::Typing.after(node@, name@, reply@),
{
    match reply {
        Reply::Mode(Ok(raw)) => Ok(Some(copy_entry(file_type_of(raw)))),
        Reply::Mode(Err(f)) => Err(
            io_error(f.error, Attempt::StatFile, join_cstr_paths(&node.from, name)),
        ),
        _ => unreached(),
    }
}

/// How to go on with a symbolic link: it is read, and one with the same target is
/// made.
pub fn copy_symlink<E>(
    node: &TreeNode<CPath>,
    name: &CPath,
    step: Step<CPath>,
    reply: Reply<CPath, E>,
) -> (result: Result<Option<Step<CPath>>, CopyError<E>>)
    requires
        step is ReadingLink || step is Linking,
        step@.takes(reply@),
    ensures
        step_result_view(result) == step@.after(node@, name@, reply@),
{
    match (step, reply) {
        (Step::ReadingLink, Reply::Link(Ok(target))) => Ok(Some(Step::Linking { target })),
        (Step::ReadingLink, Reply::Link(Err(f))) => Err(
            io_error(f.error, Attempt::ReadSymlink, join_cstr_paths(&node.from, name)),
        ),
        (Step::Linking { .. }, Reply::Unit(Ok(_))) => Ok(None),
        (Step::Linking { .. }, Reply::Unit(Err(f))) => Err(
            io_error(f.error, Attempt::CreateSymlink, join_cstr_paths(&node.to, name)),
        ),
        _ => unreached(),
    }
}

/// How to go on until both files are open: the file to copy is opened and its
/// mode is read, and the file that takes the copy is opened with that mode.
pub fn prep_regular_file<E>(
    node: &TreeNode<CPath>,
    name: &CPath,
    step: Step<CPath>,
    reply: Reply<CPath, E>,
) -> (result: Result<Option<Step<CPath>>, CopyError<E>>)
    requires
        step is OpeningFrom || step is StattingFrom || step is OpeningTo,
        step@.takes(reply@),
    ensures
        step_result_view(result) == step@.after(node@, name@, reply@),
{
    match (step, reply) {
        (Step::OpeningFrom { regular }, Reply::Unit(Ok(_))) => Ok(
            Some(Step::StattingFrom { regular }),
        ),
        (Step::OpeningFrom { .. }, Reply::Unit(Err(f))) => Err(
            io_error(f.error, Attempt::OpenFile, join_cstr_paths(&node.from, name)),
        ),
        (Step::StattingFrom { regular }, Reply::Mode(Ok(raw))) => Ok(
            Some(Step::OpeningTo { regular, mode: mode_of(raw) }),
        ),
        (Step::StattingFrom { .. }, Reply::Mode(Err(f))) => Err(
            io_error(f.error, Attempt::StatFile, join_cstr_paths(&node.from, name)),
        ),
        (Step::OpeningTo { regular, .. }, Reply::Unit(Ok(_))) => Ok(
            Some(
                if regular {
                    Step::Ranging { total: 0 }
                } else {
                    Step::Streaming
                },
            ),
        ),
        (Step::OpeningTo { .. }, Reply::Unit(Err(f))) => Err(
            io_error(f.error, Attempt::OpenFile, join_cstr_paths(&node.to, name)),
        ),
        _ => unreached(),
    }
}

/// How to go on after the kernel copied some bytes of a regular file: until it
/// copies none. Where it cannot copy between the two file systems, and has not
/// copied a byte yet, the file is copied through a buffer.
pub fn copy_regular_file<E>(
    node: &TreeNode<CPath>,
    name: &CPath,
    total_copied: usize,
    reply: Reply<CPath, E>,
) -> (result: Result<Option<Step<CPath>>, CopyError<E>>)
    requires
        (Step::<Seq<u8>>::Ranging { total: total_copied }).takes(reply@),
    ensures
        step_result_view(result) == (Step::<Seq<u8>>::Ranging { total: total_copied }).after(
            node@,
            name@,
            reply@,
        ),
{
    match reply {
        Reply::Copied(Ok(byte_copied)) => {
            if byte_copied == 0 {
                return Ok(None);
            }
            Ok(Some(Step::Ranging { total: total_copied + byte_copied }))
        },
        Reply::Copied(Err(f)) => {
            if f.kind == FailureKind::CrossDevice && total_copied == 0 {
                return Ok(Some(Step::Streaming));
            }
            Err(io_error(f.error, Attempt::CopyFile, join_cstr_paths(&node.from, name)))
        },
        _ => unreached(),
    }
}

/// How to go on after a file was copied through a buffer.
pub fn copy_any_file<E>(node: &TreeNode<CPath>, name: &CPath, reply: Reply<CPath, E>) -> (result:
    Result<Option<Step<CPath>>, CopyError<E>>)
    requires
        reply is Unit,
    ensures
        step_result_view(result) == Step::<Seq<u8>>::Streaming.after(node@, name@, reply@),
{
    match reply {
        Reply::Unit(Ok(_)) => Ok(None),
        Reply::Unit(Err(f)) => Err(
            io_error(f.error, Attempt::CopyFile, join_cstr_paths(&node.from, name)),
        ),
        _ => unreached(),
    }
}

} // verus!
