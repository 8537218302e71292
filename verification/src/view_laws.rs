//! Laws of how values are seen in contracts: every request, answer and error by what it holds,
//! each path by its own bytes.

use crate::c_path::CPath;
use crate::error::{
    io_error_view, outcome_view, subject_view, Attempt, Context, CopyError, Error, ErrorView,
    Subject,
};
use crate::linux::backend::node_result_view;
use crate::linux::dir as linux_dir;
use crate::linux::file::{step_result_view, Step};
use crate::linux::node as linux;
use crate::linux::pool::{worker_result_view, RootWorker};
use crate::op::{
    run_request_view, CopyOp, CopyRun, RunPhase, RunReply, RunRequest, RunView,
};
use crate::os_path::{optional_bytes, os_bytes};
use crate::portable::dir as portable_dir;
use crate::portable::entry as portable_entry;
use crate::schedule::{
    schedule_request_view, schedule_result_view, Reply, Request, Schedule, ScheduleView,
};
use std::path::PathBuf;
use vstd::prelude::*;

verus! {

/// A directory of a tree, and an entry of one, are seen by what they hold.
pub proof fn law_nodes_and_entries_are_seen_as_they_are(
    node: linux::TreeNode<CPath>,
    entry: linux::Entry<CPath>,
)
    ensures
        node@.from == node.from@,
        node@.to == node.to@,
        node@.root_to_inode == node.root_to_inode,
        entry@.name == entry.name@,
        entry@.ino == entry.ino,
        entry@.file_type == entry.file_type,
{
}

/// A call for a directory of a tree is seen by what it asks for.
pub proof fn law_calls_on_linux_are_seen_as_they_are(request: linux::Request<CPath>)
    ensures
        linux_dir::request_view(None) is None,
        linux_dir::request_view(Some(request)) == Some(request@),
        match request {
            linux::Request::OpenSourceDir { path, flags } => request@
                matches linux::Request::OpenSourceDir { path: p, flags: f } && p == path@ && f
                == flags,
            linux::Request::StatSourceDir => request@ is StatSourceDir,
            linux::Request::MakeDir { path, mode } => request@
                matches linux::Request::MakeDir { path: p, mode: m } && p == path@ && m == mode,
            linux::Request::OpenTargetDir { path, flags } => request@
                matches linux::Request::OpenTargetDir { path: p, flags: f } && p == path@ && f
                == flags,
            linux::Request::StatTargetDir => request@ is StatTargetDir,
            linux::Request::ReadEntry => request@ is ReadEntry,
            linux::Request::StatEntry { name, follow } => request@
                matches linux::Request::StatEntry { name: n, follow: f } && n == name@ && f
                == follow,
            linux::Request::IdentifyEntry { name } => request@
                matches linux::Request::IdentifyEntry { name: n } && n == name@,
            linux::Request::Send { node } => request@ matches linux::Request::Send { node: n } && n
                == node@,
            linux::Request::ReadLink { name } => request@
                matches linux::Request::ReadLink { name: n } && n == name@,
            linux::Request::MakeLink { target, name } => request@
                matches linux::Request::MakeLink { target: t, name: n } && t == target@ && n
                == name@,
            linux::Request::OpenSourceFile { name, flags } => request@
                matches linux::Request::OpenSourceFile { name: n, flags: f } && n == name@ && f
                == flags,
            linux::Request::OpenTargetFile { name, flags, mode } => request@
                matches linux::Request::OpenTargetFile { name: n, flags: f, mode: m } && n == name@
                && f == flags && m == mode,
            linux::Request::CopyRange { len } => request@
                matches linux::Request::CopyRange { len: l } && l == len,
            linux::Request::CopyRest => request@ is CopyRest,
        },
{
}

/// What a call for a directory of a tree answered is seen by what it says.
pub proof fn law_answers_on_linux_are_seen_as_they_are<E>(reply: linux::Reply<CPath, E>)
    ensures
        match reply {
            linux::Reply::Unit(result) => reply@ == linux::Reply::<Seq<u8>, E>::Unit(result),
            linux::Reply::Mode(result) => reply@ == linux::Reply::<Seq<u8>, E>::Mode(result),
            linux::Reply::Id(result) => reply@ == linux::Reply::<Seq<u8>, E>::Id(result),
            linux::Reply::Entry(None) => reply@ == linux::Reply::<Seq<u8>, E>::Entry(None),
            linux::Reply::Entry(Some(Ok(entry))) => reply@ == linux::Reply::<Seq<u8>, E>::Entry(
                Some(Ok(entry@)),
            ),
            linux::Reply::Entry(Some(Err(failure))) => reply@ == linux::Reply::<Seq<u8>, E>::Entry(
                Some(Err(failure)),
            ),
            linux::Reply::Link(Ok(target)) => reply@ == linux::Reply::<Seq<u8>, E>::Link(
                Ok(target@),
            ),
            linux::Reply::Link(Err(failure)) => reply@ == linux::Reply::<Seq<u8>, E>::Link(
                Err(failure),
            ),
            linux::Reply::Copied(result) => reply@ == linux::Reply::<Seq<u8>, E>::Copied(result),
            linux::Reply::Sent(taken) => reply@ == linux::Reply::<Seq<u8>, E>::Sent(taken),
        },
{
}

/// A call for a directory or an entry on another platform is seen by what it asks for.
pub proof fn law_portable_calls_are_seen_as_they_are(
    dir: portable_dir::Request<PathBuf>,
    entry: portable_entry::Request<PathBuf>,
)
    ensures
        portable_dir::request_view(None) is None,
        match dir {
            portable_dir::Request::CreateDir { path } => portable_dir::request_view(Some(dir))
                == Some(portable_dir::Request::CreateDir { path: os_bytes(path) }),
            portable_dir::Request::Stat { path } => portable_dir::request_view(Some(dir)) == Some(
                portable_dir::Request::Stat { path: os_bytes(path) },
            ),
            portable_dir::Request::ReadDir { path } => portable_dir::request_view(Some(dir))
                == Some(portable_dir::Request::ReadDir { path: os_bytes(path) }),
        },
        portable_entry::request_view(None) is None,
        match entry {
            portable_entry::Request::Identify => portable_entry::request_view(Some(entry)) == Some(
                portable_entry::Request::<Seq<u8>>::Identify,
            ),
            portable_entry::Request::FileType => portable_entry::request_view(Some(entry)) == Some(
                portable_entry::Request::<Seq<u8>>::FileType,
            ),
            portable_entry::Request::CopyDir {
                from,
                to,
                root_to_inode,
            } => portable_entry::request_view(Some(entry)) == Some(
                portable_entry::Request::CopyDir {
                    from: os_bytes(from),
                    to: os_bytes(to),
                    root_to_inode,
                },
            ),
            portable_entry::Request::ReadLink { path } => portable_entry::request_view(Some(entry))
                == Some(portable_entry::Request::ReadLink { path: os_bytes(path) }),
            portable_entry::Request::MakeLink { target, path } => portable_entry::request_view(
                Some(entry),
            ) == Some(
                portable_entry::Request::MakeLink {
                    target: os_bytes(target),
                    path: os_bytes(path),
                },
            ),
            portable_entry::Request::CopyFile { from, to } => portable_entry::request_view(
                Some(entry),
            ) == Some(
                portable_entry::Request::CopyFile { from: os_bytes(from), to: os_bytes(to) },
            ),
        },
{
}

/// What a call for an entry answered on another platform is seen by what it says.
pub proof fn law_portable_answers_are_seen_as_they_are<E>(
    reply: portable_entry::Reply<PathBuf, E>,
)
    ensures
        match reply {
            portable_entry::Reply::Unit(result) => reply@ == portable_entry::Reply::<
                Seq<u8>,
                E,
            >::Unit(result),
            portable_entry::Reply::Id(result) => reply@ == portable_entry::Reply::<
                Seq<u8>,
                E,
            >::Id(result),
            portable_entry::Reply::Kind(result) => reply@ == portable_entry::Reply::<
                Seq<u8>,
                E,
            >::Kind(result),
            portable_entry::Reply::Link(Ok(target)) => reply@ == portable_entry::Reply::<
                Seq<u8>,
                E,
            >::Link(Ok(os_bytes(target))),
            portable_entry::Reply::Link(Err(failure)) => reply@ == portable_entry::Reply::<
                Seq<u8>,
                E,
            >::Link(Err(failure)),
        },
{
}

/// A copy operation is seen by its files, in their order, and by whether it may replace.
pub proof fn law_operations_are_seen_as_they_are(op: CopyOp)
    ensures
        op@.force == op.force,
        op@.files.len() == op.files@.len(),
        forall|i: int|
            0 <= i < op.files@.len() ==> (#[trigger] op@.files[i]).0 == os_bytes(op.files@[i].0)
                && op@.files[i].1 == os_bytes(op.files@[i].1),
{
}

/// A call for a file of an operation is seen by what it asks for.
pub proof fn law_calls_of_operations_are_seen_as_they_are(request: Request<PathBuf>)
    ensures
        schedule_request_view(None) is None,
        schedule_request_view(Some(request)) == Some(request@),
        run_request_view(None) is None,
        run_request_view(Some(RunRequest::Finish)) == Some(RunRequest::<Seq<u8>>::Finish),
        run_request_view(Some(RunRequest::File(request))) == Some(RunRequest::File(request@)),
        match request {
            Request::Check { path } => request@ == (Request::Check { path: os_bytes(path) }),
            Request::Inspect { path } => request@ == (Request::Inspect { path: os_bytes(path) }),
            Request::CreateDirAll { path } => request@ == (Request::CreateDirAll {
                path: os_bytes(path),
            }),
            Request::HandOver { from, to } => request@ == (Request::HandOver {
                from: os_bytes(from),
                to: os_bytes(to),
            }),
            Request::ReadLink { path } => request@ == (Request::ReadLink { path: os_bytes(path) }),
            Request::MakeLink { target, path } => request@ == (Request::MakeLink {
                target: os_bytes(target),
                path: os_bytes(path),
            }),
            Request::CopyFile { from, to } => request@ == (Request::CopyFile {
                from: os_bytes(from),
                to: os_bytes(to),
            }),
        },
{
}

/// What a call for a file of an operation answered is seen by what it says.
pub proof fn law_answers_of_operations_are_seen_as_they_are<E>(
    reply: Reply<PathBuf, CPath, E>,
    finish: Result<(), CopyError<E>>,
)
    ensures
        match reply {
            Reply::Unit(result) => reply@ == Reply::<Seq<u8>, Seq<u8>, E>::Unit(result),
            Reply::Kind(result) => reply@ == Reply::<Seq<u8>, Seq<u8>, E>::Kind(result),
            Reply::Link(Ok(target)) => reply@ == Reply::<Seq<u8>, Seq<u8>, E>::Link(
                Ok(os_bytes(target)),
            ),
            Reply::Link(Err(failure)) => reply@ == Reply::<Seq<u8>, Seq<u8>, E>::Link(
                Err(failure),
            ),
            Reply::HandedOver(Ok(_)) => reply@ == Reply::<Seq<u8>, Seq<u8>, E>::HandedOver(Ok(())),
            Reply::HandedOver(Err(error)) => reply@ == Reply::<Seq<u8>, Seq<u8>, E>::HandedOver(
                Err(error@),
            ),
        },
        RunReply::File(reply)@ == RunReply::<Seq<u8>, Seq<u8>, E>::File(reply@),
        match finish {
            Ok(_) => RunReply::<PathBuf, CPath, E>::Finished(finish)@ == RunReply::<
                Seq<u8>,
                Seq<u8>,
                E,
            >::Finished(Ok(())),
            Err(error) => RunReply::<PathBuf, CPath, E>::Finished(finish)@ == RunReply::<
                Seq<u8>,
                Seq<u8>,
                E,
            >::Finished(Err(error@)),
        },
{
}

/// An error is seen by its kind and by what it holds: the error of the system, what was
/// attempted, and on what.
pub proof fn law_errors_are_seen_as_they_are<E>(error: CopyError<E>)
    ensures
        match error {
            Error::Io { error: cause, context } => {
                &&& error@ is Io && error@->error == cause
                &&& error@->context.attempt == context.attempt
                &&& error@->context.subject == subject_view(context.subject)
                &&& match context.subject {
                    Subject::Named(path) => subject_view(context.subject) == Subject::<
                        Seq<u8>,
                        Seq<u8>,
                    >::Named(os_bytes(path)),
                    Subject::Directory(path) => subject_view(context.subject) == Subject::<
                        Seq<u8>,
                        Seq<u8>,
                    >::Directory(path@),
                    Subject::Entry { dir, name } => subject_view(context.subject) == (Subject::<
                        Seq<u8>,
                        Seq<u8>,
                    >::Entry { dir: dir@, name: name@ }),
                    Subject::Nothing => subject_view(context.subject) == Subject::<
                        Seq<u8>,
                        Seq<u8>,
                    >::Nothing,
                }
            },
            Error::AlreadyExists { file } => error@ == (ErrorView::<E>::AlreadyExists {
                file: os_bytes(file),
            }),
            Error::BadPath { path } => error@ == (ErrorView::<E>::BadPath {
                path: os_bytes(path),
            }),
            Error::Join => error@ == ErrorView::<E>::Join,
            Error::Internal => error@ == ErrorView::<E>::Internal,
        },
{
}

/// The error of a call is the one that the system gave, with what was attempted and on what.
pub proof fn law_the_error_of_a_call<E>(
    error: E,
    attempt: Attempt,
    subject: Subject<Seq<u8>, Seq<u8>>,
)
    ensures
        io_error_view(error, attempt, subject) == (ErrorView::<E>::Io {
            error,
            context: Context { attempt, subject },
        }),
{
}

/// An outcome is seen as good if it is, and else by its error.
pub proof fn law_outcomes_are_seen_as_they_are<E>(
    outcome: Result<(), CopyError<E>>,
    node: Result<linux::TreeNode<CPath>, CopyError<E>>,
    worker: Result<RootWorker, CopyError<E>>,
    path: Option<PathBuf>,
)
    ensures
        match outcome {
            Ok(_) => outcome_view(outcome) == Ok::<(), ErrorView<E>>(()),
            Err(error) => outcome_view(outcome) == Err::<(), ErrorView<E>>(error@),
        },
        match node {
            Ok(handed) => node_result_view(node) == Ok::<
                linux::TreeNode<Seq<u8>>,
                ErrorView<E>,
            >(handed@),
            Err(error) => node_result_view(node) == Err::<
                linux::TreeNode<Seq<u8>>,
                ErrorView<E>,
            >(error@),
        },
        match worker {
            Ok(next) => worker_result_view(worker) == Ok::<RootWorker, ErrorView<E>>(next),
            Err(error) => worker_result_view(worker) == Err::<RootWorker, ErrorView<E>>(error@),
        },
        match path {
            Some(named) => optional_bytes(path) == Some(os_bytes(named)),
            None => optional_bytes(path) is None,
        },
{
}

/// An answer reports a failure exactly where it holds one, whatever its kind, and that one.
pub proof fn law_failures_are_seen_as_they_are<E>(
    linux: linux::Reply<Seq<u8>, E>,
    dir: portable_dir::Reply<E>,
    entry: portable_entry::Reply<Seq<u8>, E>,
    file: Reply<Seq<u8>, Seq<u8>, E>,
)
    ensures
        match linux {
            linux::Reply::Unit(result) => linux.failure() == result.err(),
            linux::Reply::Mode(result) => linux.failure() == result.err(),
            linux::Reply::Id(result) => linux.failure() == result.err(),
            linux::Reply::Entry(Some(result)) => linux.failure() == result.err(),
            linux::Reply::Entry(None) => linux.failure() is None,
            linux::Reply::Link(result) => linux.failure() == result.err(),
            linux::Reply::Copied(result) => linux.failure() == result.err(),
            linux::Reply::Sent(_) => linux.failure() is None,
        },
        match dir {
            portable_dir::Reply::Unit(result) => dir.failure() == result.err(),
            portable_dir::Reply::Id(result) => dir.failure() == result.err(),
        },
        match entry {
            portable_entry::Reply::Unit(result) => entry.failure() == result.err(),
            portable_entry::Reply::Id(result) => entry.failure() == result.err(),
            portable_entry::Reply::Kind(result) => entry.failure() == result.err(),
            portable_entry::Reply::Link(result) => entry.failure() == result.err(),
        },
        match file {
            Reply::Unit(result) => file.failure() == result.err(),
            Reply::Kind(result) => file.failure() == result.err(),
            Reply::Link(result) => file.failure() == result.err(),
            Reply::HandedOver(_) => file.failure() is None,
        },
{
}

/// The copy of a directory of a tree is seen by the directory and by how far it has come.
pub proof fn law_copies_on_linux_are_seen_as_they_are(copy: linux_dir::DirCopy<CPath>)
    ensures
        copy@.node == copy.node@,
        match copy.phase {
            linux_dir::Phase::OpeningSource => copy@.phase is OpeningSource,
            linux_dir::Phase::StattingSource => copy@.phase is StattingSource,
            linux_dir::Phase::MakingTarget { mode } => copy@.phase == (linux_dir::Phase::<
                Seq<u8>,
            >::MakingTarget { mode }),
            linux_dir::Phase::OpeningTarget => copy@.phase is OpeningTarget,
            linux_dir::Phase::StattingTarget => copy@.phase is StattingTarget,
            linux_dir::Phase::Reading { root } => copy@.phase == (linux_dir::Phase::<
                Seq<u8>,
            >::Reading { root }),
            linux_dir::Phase::Identifying { root, name, file_type } => copy@.phase == (
            linux_dir::Phase::Identifying { root, name: name@, file_type }),
            linux_dir::Phase::Copying { root, name, step } => {
                &&& copy@.phase == (linux_dir::Phase::Copying { root, name: name@, step: step@ })
                &&& match step {
                    Step::Typing => step@ is Typing,
                    Step::Sending => step@ is Sending,
                    Step::ReadingLink => step@ is ReadingLink,
                    Step::Linking { target } => step@ == (Step::Linking { target: target@ }),
                    Step::OpeningFrom { regular } => step@ == (Step::<Seq<u8>>::OpeningFrom {
                        regular,
                    }),
                    Step::StattingFrom { regular } => step@ == (Step::<Seq<u8>>::StattingFrom {
                        regular,
                    }),
                    Step::OpeningTo { regular, mode } => step@ == (Step::<Seq<u8>>::OpeningTo {
                        regular,
                        mode,
                    }),
                    Step::Ranging { total } => step@ == (Step::<Seq<u8>>::Ranging { total }),
                    Step::Streaming => step@ is Streaming,
                }
            },
            linux_dir::Phase::Finished { root } => copy@.phase == (linux_dir::Phase::<
                Seq<u8>,
            >::Finished { root }),
        },
{
}

/// The copy of a directory or an entry on another platform is seen by what it holds.
pub proof fn law_portable_copies_are_seen_as_they_are(
    dir: portable_dir::DirCopy<PathBuf>,
    entry: portable_entry::EntryCopy<PathBuf>,
)
    ensures
        dir@.from == os_bytes(dir.from),
        dir@.to == os_bytes(dir.to),
        dir@.platform == dir.platform,
        dir@.root_to_inode == dir.root_to_inode,
        dir@.phase == dir.phase,
        entry@.from == os_bytes(entry.from),
        entry@.to == os_bytes(entry.to),
        entry@.platform == entry.platform,
        entry@.root == entry.root,
        match entry.phase {
            portable_entry::Phase::Identifying => entry@.phase is Identifying,
            portable_entry::Phase::Typing => entry@.phase is Typing,
            portable_entry::Phase::Descending => entry@.phase is Descending,
            portable_entry::Phase::ReadingLink => entry@.phase is ReadingLink,
            portable_entry::Phase::Linking { target } => entry@.phase == (
            portable_entry::Phase::Linking { target: os_bytes(target) }),
            portable_entry::Phase::Copying => entry@.phase is Copying,
            portable_entry::Phase::Done => entry@.phase is Done,
        },
{
}

/// The run of an operation is seen by how far it has come, and by its outcome.
pub proof fn law_runs_are_seen_as_they_are<E>(run: CopyRun<E>)
    ensures
        match run.phase {
            RunPhase::Scheduling(schedule) => run@ == RunView::<E>::Scheduling(schedule@),
            RunPhase::Finishing(Ok(_)) => run@ == RunView::<E>::Finishing(Ok(())),
            RunPhase::Finishing(Err(error)) => run@ == RunView::<E>::Finishing(Err(error@)),
            RunPhase::Done(Ok(_)) => run@ == RunView::<E>::Done(Ok(())),
            RunPhase::Done(Err(error)) => run@ == RunView::<E>::Done(Err(error@)),
        },
{
}

/// What a step led to is seen as good if it is, by where it led, and else by its error.
pub proof fn law_results_are_seen_as_they_are<E>(
    copy: Result<linux_dir::DirCopy<CPath>, CopyError<E>>,
    phase: Result<linux_dir::Phase<CPath>, CopyError<E>>,
    step: Result<Option<Step<CPath>>, CopyError<E>>,
    dir: Result<portable_dir::DirCopy<PathBuf>, E>,
    entry: Result<portable_entry::EntryCopy<PathBuf>, E>,
    schedule: Result<Schedule, CopyError<E>>,
)
    ensures
        match copy {
            Ok(next) => linux_dir::copy_result_view(copy) == Ok::<
                linux_dir::DirCopy<Seq<u8>>,
                ErrorView<E>,
            >(next@),
            Err(error) => linux_dir::copy_result_view(copy) == Err::<
                linux_dir::DirCopy<Seq<u8>>,
                ErrorView<E>,
            >(error@),
        },
        match phase {
            Ok(next) => linux_dir::phase_result_view(phase) == Ok::<
                linux_dir::Phase<Seq<u8>>,
                ErrorView<E>,
            >(next@),
            Err(error) => linux_dir::phase_result_view(phase) == Err::<
                linux_dir::Phase<Seq<u8>>,
                ErrorView<E>,
            >(error@),
        },
        match step {
            Ok(Some(next)) => step_result_view(step) == Ok::<
                Option<Step<Seq<u8>>>,
                ErrorView<E>,
            >(Some(next@)),
            Ok(None) => step_result_view(step) == Ok::<Option<Step<Seq<u8>>>, ErrorView<E>>(None),
            Err(error) => step_result_view(step) == Err::<Option<Step<Seq<u8>>>, ErrorView<E>>(
                error@,
            ),
        },
        match dir {
            Ok(next) => portable_dir::result_view(dir) == Ok::<
                portable_dir::DirCopy<Seq<u8>>,
                E,
            >(next@),
            Err(error) => portable_dir::result_view(dir) == Err::<
                portable_dir::DirCopy<Seq<u8>>,
                E,
            >(error),
        },
        match entry {
            Ok(next) => portable_entry::result_view(entry) == Ok::<
                portable_entry::EntryCopy<Seq<u8>>,
                E,
            >(next@),
            Err(error) => portable_entry::result_view(entry) == Err::<
                portable_entry::EntryCopy<Seq<u8>>,
                E,
            >(error),
        },
        match schedule {
            Ok(next) => schedule_result_view(schedule) == Ok::<ScheduleView, ErrorView<E>>(next@),
            Err(error) => schedule_result_view(schedule) == Err::<ScheduleView, ErrorView<E>>(
                error@,
            ),
        },
{
}

} // verus!
