//! What can go wrong, and what was being attempted when it did.

use crate::c_path::CPath;
use crate::os_path::os_bytes;
use std::path::PathBuf;
use vstd::prelude::*;

verus! {

/// The kinds of system error that the copy tells apart.
#[derive(Debug, Clone, Copy, PartialEq, Eq, Structural)]
pub enum FailureKind {
    NotFound,
    AlreadyExists,
    CrossDevice,
    Other,
}

/// A failed system call: its kind, and the error itself, which is handed on as
/// it came.
#[derive(Debug, PartialEq, Eq)]
pub struct Failure<E> {
    pub kind: FailureKind,
    pub error: E,
}

/// The kind of a system error number: `ENOENT` is 2, `EEXIST` is 17 and `EXDEV` is
/// 18.
pub open spec fn errno_kind(code: i32) -> FailureKind {
    if code == 2 {
        FailureKind::NotFound
    } else if code == 17 {
        FailureKind::AlreadyExists
    } else if code == 18 {
        FailureKind::CrossDevice
    } else {
        FailureKind::Other
    }
}

/// Calls `rustix::io::Errno::from_raw_os_error` and tells `Errno::NOENT`,
/// `Errno::EXIST` and `Errno::XDEV` apart from every other error. The call panics on
/// a number that no Linux error has.
#[verifier::external_body]
fn kind_of_errno(code: i32) -> (kind: FailureKind)
    requires
        1 <= code <= 4095,
    ensures
        kind == errno_kind(code),
{
    match rustix::io::Errno::from_raw_os_error(code) {
        rustix::io::Errno::NOENT => FailureKind::NotFound,
        rustix::io::Errno::EXIST => FailureKind::AlreadyExists,
        rustix::io::Errno::XDEV => FailureKind::CrossDevice,
        _ => FailureKind::Other,
    }
}

impl<E> Failure<E> {
    /// A failure that was reported with this system error number.
    pub fn from_errno(code: i32, error: E) -> (failure: Failure<E>)
        ensures
            failure.kind == errno_kind(code),
            failure.error == error,
    {
        let kind = if 1 <= code && code <= 4095 {
            kind_of_errno(code)
        } else {
            FailureKind::Other
        };
        Failure { kind, error }
    }
}

/// The operations that can fail with a system error.
#[derive(Debug, Clone, Copy, PartialEq, Eq, Structural)]
pub enum Attempt {
    ReadMetadata,
    CreateParent,
    ReadSymlink,
    CreateSymlink,
    CopyFile,
    CopyDirectory,
    OpenDirectory,
    ReadDirectory,
    StatDirectory,
    CreateDirectory,
    OpenFile,
    StatFile,
    UnshareDescriptors,
}

/// What an operation was attempted on. `Q` is the type of the paths that the
/// caller named, `P` that of the paths inside a directory tree.
#[derive(Debug, PartialEq, Eq)]
pub enum Subject<Q, P> {
    /// A path that the caller named.
    Named(Q),
    /// A directory of the tree.
    Directory(P),
    /// An entry of a directory of the tree.
    Entry { dir: P, name: P },
    /// No file at all.
    Nothing,
}

/// What was being done when a system call failed.
#[derive(Debug, PartialEq, Eq)]
pub struct Context<Q, P> {
    pub attempt: Attempt,
    pub subject: Subject<Q, P>,
}

/// Why a copy failed.
#[derive(Debug, PartialEq, Eq)]
pub enum Error<Q, P, E> {
    /// A system call failed.
    Io { error: E, context: Context<Q, P> },
    /// The destination is there already and was not to be replaced.
    AlreadyExists { file: Q },
    /// The path holds a zero byte, so that no system call can take it.
    BadPath { path: Q },
    /// A worker thread died.
    Join,
    /// The work queue was closed while there was still work.
    Internal,
}

/// The error type of the executable functions.
pub type CopyError<E> = Error<PathBuf, CPath, E>;

/// Errors with every path taken by its bytes.
pub type ErrorView<E> = Error<Seq<u8>, Seq<u8>, E>;

/// Subjects with every path taken by its bytes.
pub open spec fn subject_view(subject: Subject<PathBuf, CPath>) -> Subject<Seq<u8>, Seq<u8>> {
    match subject {
        Subject::Named(path) => Subject::Named(os_bytes(path)),
        Subject::Directory(path) => Subject::Directory(path@),
        Subject::Entry { dir, name } => Subject::Entry { dir: dir@, name: name@ },
        Subject::Nothing => Subject::Nothing,
    }
}

impl<E> View for Error<PathBuf, CPath, E> {
    type V = ErrorView<E>;

    open spec fn view(&self) -> ErrorView<E> {
        match *self {
            Error::Io { error, context } => Error::Io {
                error,
                context: Context {
                    attempt: context.attempt,
                    subject: subject_view(context.subject),
                },
            },
            Error::AlreadyExists { file } => Error::AlreadyExists { file: os_bytes(file) },
            Error::BadPath { path } => Error::BadPath { path: os_bytes(path) },
            Error::Join => Error::Join,
            Error::Internal => Error::Internal,
        }
    }
}

/// Outcomes with the error taken by its view.
pub open spec fn outcome_view<E>(outcome: Result<(), CopyError<E>>) -> Result<(), ErrorView<E>> {
    match outcome {
        Ok(_) => Ok(()),
        Err(error) => Err(error@),
    }
}

/// The error for a system call that failed during `attempt` on `subject`.
pub open spec fn io_error_view<E>(
    error: E,
    attempt: Attempt,
    subject: Subject<Seq<u8>, Seq<u8>>,
) -> ErrorView<E> {
    Error::Io { error, context: Context { attempt, subject } }
}

/// The error for a system call that failed during `attempt` on `subject`: the
/// call's own error, with what was attempted.
pub fn io_error<E>(
    error: E,
    attempt: Attempt,
    subject: Subject<PathBuf, CPath>,
) -> (result: CopyError<E>)
    ensures
        result@ == io_error_view(error, attempt, subject_view(subject)),
{
    Error::Io { error, context: Context { attempt, subject } }
}

impl Attempt {
    /// The words that stand before the path in the message for a failed attempt.
    pub open spec fn words(self) -> Seq<char> {
        match self {
            Attempt::ReadMetadata => "Failed to read metadata for file: "@,
            Attempt::CreateParent => "Failed to create parent directory: "@,
            Attempt::ReadSymlink => "Failed to read symlink: "@,
            Attempt::CreateSymlink => "Failed to create symlink: "@,
            Attempt::CopyFile => "Failed to copy file: "@,
            Attempt::CopyDirectory => "Failed to copy directory: "@,
            Attempt::OpenDirectory => "Failed to open directory: "@,
            Attempt::ReadDirectory => "Failed to read directory: "@,
            Attempt::StatDirectory => "Failed to stat directory: "@,
            Attempt::CreateDirectory => "Failed to create directory: "@,
            Attempt::OpenFile => "Failed to open file: "@,
            Attempt::StatFile => "Failed to stat file: "@,
            Attempt::UnshareDescriptors => "Failed to unshare FD table."@,
        }
    }

    /// The words that stand before the path in the message for a failed attempt.
    pub fn text(&self) -> (text: &'static str)
        ensures
            text@ == self.words(),
    {
        match self {
            Attempt::ReadMetadata => "Failed to read metadata for file: ",
            Attempt::CreateParent => "Failed to create parent directory: ",
            Attempt::ReadSymlink => "Failed to read symlink: ",
            Attempt::CreateSymlink => "Failed to create symlink: ",
            Attempt::CopyFile => "Failed to copy file: ",
            Attempt::CopyDirectory => "Failed to copy directory: ",
            Attempt::OpenDirectory => "Failed to open directory: ",
            Attempt::ReadDirectory => "Failed to read directory: ",
            Attempt::StatDirectory => "Failed to stat directory: ",
            Attempt::CreateDirectory => "Failed to create directory: ",
            Attempt::OpenFile => "Failed to open file: ",
            Attempt::StatFile => "Failed to stat file: ",
            Attempt::UnshareDescriptors => "Failed to unshare FD table.",
        }
    }
}

impl<Q, P> Context<Q, P> {
    /// The message for this context, where `quoted` is the subject as it is to
    /// be shown. A context without a subject shows none.
    pub fn message(&self, quoted: &str) -> (message: String)
        ensures
            message@ == if self.subject is Nothing {
                self.attempt.words()
            } else {
                self.attempt.words() + quoted@
            },
    {
        let mut message = self.attempt.text().to_string();
        match &self.subject {
            Subject::Nothing => {},
            _ => message.append(quoted),
        }
        message
    }
}

} // verus!
