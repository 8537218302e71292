//! Laws of the calls that a copy operation makes: what each asks for, by what was answered
//! before, and with which error the operation ends.

use crate::error::{Attempt, ErrorView, FailureKind, Subject};
use crate::linux::call_laws::tells_of;
use crate::op::{CopyOpView, RunPhase, RunReply, RunRequest, RunView};
use crate::os_path::parent_bytes;
use crate::platform::Platform;
use crate::schedule::{Phase, Reply, Request, ScheduleView, SourceKind};
use crate::schedule_laws::{
    file_replies, fitting, law_handed_over_directories_are_waited_for, possible, run, run_through,
    transfers,
};
use vstd::prelude::*;

verus! {

/// The call that is made for the files of an operation after these answers, if one is.
pub open spec fn call<E>(
    op: CopyOpView,
    platform: Platform,
    replies: Seq<Reply<Seq<u8>, Seq<u8>, E>>,
) -> Option<Request<Seq<u8>>> {
    match run(ScheduleView::begin(op, platform), replies) {
        Ok(schedule) => schedule.wants(),
        Err(_) => None,
    }
}

/// How many files were transferred.
pub open spec fn done<E>(
    op: CopyOpView,
    platform: Platform,
    replies: Seq<Reply<Seq<u8>, Seq<u8>, E>>,
) -> int {
    transfers(ScheduleView::begin(op, platform), replies).len() as int
}

/// What the file is that was looked at last.
pub open spec fn seen<E>(replies: Seq<Reply<Seq<u8>, Seq<u8>, E>>) -> Option<SourceKind>
    decreases replies.len(),
{
    if replies.len() == 0 {
        None
    } else {
        match replies.last() {
            Reply::Kind(Ok(kind)) => Some(kind),
            _ => seen(replies.drop_last()),
        }
    }
}

/// The first call for the file at `index`: whether something stands where the copy goes, or
/// else, where that may be replaced, what the file is. There is none when there are no more
/// files.
pub open spec fn first_call(op: CopyOpView, index: int) -> Option<Request<Seq<u8>>> {
    if index >= op.files.len() {
        None
    } else if op.force {
        Some(Request::Inspect { path: op.files[index].0 })
    } else {
        Some(Request::Check { path: op.files[index].1 })
    }
}

/// The call that transfers a file: a directory is handed over, a link is read where links
/// are, and any other file is copied.
pub open spec fn transfer_call(
    platform: Platform,
    file: (Seq<u8>, Seq<u8>),
    kind: SourceKind,
) -> Option<Request<Seq<u8>>> {
    if kind == SourceKind::Directory {
        Some(Request::HandOver { from: file.0, to: file.1 })
    } else if kind == SourceKind::Symlink && platform != Platform::Other {
        Some(Request::ReadLink { path: file.0 })
    } else {
        Some(Request::CopyFile { from: file.0, to: file.1 })
    }
}

/// What holds wherever a run stands, of what was answered before.
spec fn fits<E>(
    op: CopyOpView,
    platform: Platform,
    replies: Seq<Reply<Seq<u8>, Seq<u8>, E>>,
) -> bool {
    match run(ScheduleView::begin(op, platform), replies) {
        Ok(schedule) => {
            &&& schedule.op == op
            &&& schedule.platform == platform
            &&& schedule.index == done(op, platform, replies)
            &&& 0 <= schedule.index <= op.files.len()
            &&& schedule.phase is Finished <==> schedule.index == op.files.len()
            &&& schedule.phase matches Phase::MakingParent { kind, parent } ==> seen(replies)
                == Some(kind) && parent_bytes(op.files[schedule.index].1) == Some(parent)
        },
        Err(_) => true,
    }
}

proof fn lemma_fits<E>(
    op: CopyOpView,
    platform: Platform,
    replies: Seq<Reply<Seq<u8>, Seq<u8>, E>>,
)
    requires
        possible(ScheduleView::begin(op, platform), replies),
    ensures
        fits(op, platform, replies),
    decreases replies.len(),
{
    if replies.len() > 0 {
        lemma_fits(op, platform, replies.drop_last());
    }
}

/// The files are gone through in their order, each from its own path to that of its own copy.
/// Unless what is there may be replaced, it is looked first whether something stands where the
/// copy goes; then it is looked what the file is, the directory that the copy goes into is
/// made, where there is one, and the file is transferred by what it is. A link is made with
/// the target that was read, byte for byte. Then the next file follows.
pub proof fn law_each_file_is_copied_by_its_own_calls<E>(
    op: CopyOpView,
    platform: Platform,
    replies: Seq<Reply<Seq<u8>, Seq<u8>, E>>,
    reply: Reply<Seq<u8>, Seq<u8>, E>,
)
    requires
        possible(ScheduleView::begin(op, platform), replies.push(reply)),
    ensures
        call(op, platform, Seq::<Reply<Seq<u8>, Seq<u8>, E>>::empty()) == first_call(op, 0),
        0 <= done(op, platform, replies) < op.files.len(),
        ({
            let index = done(op, platform, replies);
            let file = op.files[index];
            let next = call(op, platform, replies.push(reply));
            match (call(op, platform, replies), reply) {
                (Some(Request::Check { .. }), Reply::Unit(Err(failure))) => failure.kind
                    == FailureKind::NotFound ==> next == Some(Request::Inspect { path: file.0 }),
                (Some(Request::Inspect { .. }), Reply::Kind(Ok(kind))) => match parent_bytes(
                    file.1,
                ) {
                    Some(parent) => next == Some(Request::CreateDirAll { path: parent }),
                    None => next == transfer_call(platform, file, kind),
                },
                (Some(Request::CreateDirAll { .. }), Reply::Unit(Ok(_))) => seen(replies) is Some
                    && next == transfer_call(platform, file, seen(replies)->0),
                (Some(Request::ReadLink { .. }), Reply::Link(Ok(target))) => next == Some(
                    Request::MakeLink { target, path: file.1 },
                ),
                (Some(Request::HandOver { .. }), Reply::HandedOver(Ok(_))) => next == first_call(
                    op,
                    index + 1,
                ),
                (Some(Request::MakeLink { .. }), Reply::Unit(Ok(_))) => next == first_call(
                    op,
                    index + 1,
                ),
                (Some(Request::CopyFile { .. }), Reply::Unit(Ok(_))) => next == first_call(
                    op,
                    index + 1,
                ),
                _ => true,
            }
        }),
{
    assert(replies.push(reply).drop_last() =~= replies);
    lemma_fits(op, platform, replies);
    lemma_fits(op, platform, replies.push(reply));
}

/// Every call is for the file that is at hand: the one behind those that were transferred.
/// When there is none, all files were transferred.
pub proof fn law_calls_are_for_the_file_at_hand<E>(
    op: CopyOpView,
    platform: Platform,
    replies: Seq<Reply<Seq<u8>, Seq<u8>, E>>,
)
    requires
        possible(ScheduleView::begin(op, platform), replies),
        run(ScheduleView::begin(op, platform), replies) is Ok,
    ensures
        ({
            let index = done(op, platform, replies);
            let (from, to) = op.files[index];
            &&& 0 <= index <= op.files.len()
            &&& call(op, platform, replies) is None <==> index == op.files.len()
            &&& match call(op, platform, replies) {
                Some(Request::Check { path }) => path == to,
                Some(Request::Inspect { path }) => path == from,
                Some(Request::CreateDirAll { path }) => parent_bytes(to) == Some(path),
                Some(Request::HandOver { from: source, to: target }) => source == from && target
                    == to,
                Some(Request::ReadLink { path }) => path == from,
                Some(Request::MakeLink { path, .. }) => path == to,
                Some(Request::CopyFile { from: source, to: target }) => source == from && target
                    == to,
                None => true,
            }
        }),
{
    lemma_fits(op, platform, replies);
}

/// An error tells what was attempted, and on which of the paths. A destination that is there
/// is named, and the error of handing over is handed on.
pub proof fn law_an_error_tells_what_was_attempted<E>(
    op: CopyOpView,
    platform: Platform,
    replies: Seq<Reply<Seq<u8>, Seq<u8>, E>>,
    reply: Reply<Seq<u8>, Seq<u8>, E>,
)
    requires
        possible(ScheduleView::begin(op, platform), replies.push(reply)),
        run(ScheduleView::begin(op, platform), replies.push(reply)) is Err,
    ensures
        ({
            let error = run(ScheduleView::begin(op, platform), replies.push(reply))->Err_0;
            let (from, to) = op.files[done(op, platform, replies)];
            let source = Subject::<Seq<u8>, Seq<u8>>::Named(from);
            let target = Subject::<Seq<u8>, Seq<u8>>::Named(to);
            match call(op, platform, replies) {
                None => false,
                Some(Request::Check { .. }) => if reply.failure() is None {
                    error == (ErrorView::<E>::AlreadyExists { file: to })
                } else {
                    tells_of(error, Attempt::ReadMetadata, target)
                },
                Some(Request::Inspect { .. }) => tells_of(error, Attempt::ReadMetadata, source),
                Some(Request::CreateDirAll { path }) => tells_of(
                    error,
                    Attempt::CreateParent,
                    Subject::Named(path),
                ),
                Some(Request::HandOver { .. }) => reply == Reply::<Seq<u8>, Seq<u8>, E>::HandedOver(
                    Err(error),
                ),
                Some(Request::ReadLink { .. }) => tells_of(error, Attempt::ReadSymlink, source),
                Some(Request::MakeLink { .. }) => tells_of(error, Attempt::CreateSymlink, target),
                Some(Request::CopyFile { .. }) => tells_of(error, Attempt::CopyFile, source),
            }
        }),
{
    assert(replies.push(reply).drop_last() =~= replies);
    lemma_fits(op, platform, replies);
}

/// Each call for a file takes the answers that it can give, and no others.
pub proof fn law_each_call_takes_its_answers<E>(
    schedule: ScheduleView,
    reply: Reply<Seq<u8>, Seq<u8>, E>,
)
    ensures
        schedule.takes(reply) <==> match schedule.wants() {
            None => false,
            Some(Request::Check { .. }) => reply is Unit,
            Some(Request::Inspect { .. }) => reply is Kind,
            Some(Request::CreateDirAll { .. }) => reply is Unit,
            Some(Request::HandOver { .. }) => reply is HandedOver,
            Some(Request::ReadLink { .. }) => reply is Link,
            Some(Request::MakeLink { .. }) => reply is Unit,
            Some(Request::CopyFile { .. }) => reply is Unit,
        },
{
}

/// A run makes the calls for its files, and then waits for the directories that were handed
/// over, once, whether the calls came to an end or failed. Then it is done, with the error of
/// the directories, if there is one, else with the error of the calls, if there is one, and
/// else without an error. Before that it has no outcome.
pub proof fn law_a_run_makes_its_calls_and_waits<E>(
    op: CopyOpView,
    platform: Platform,
    replies: Seq<RunReply<Seq<u8>, Seq<u8>, E>>,
)
    requires
        fitting(RunView::<E>::begin(op, platform), replies),
    ensures
        ({
            let now = run_through(RunView::<E>::begin(op, platform), replies);
            let calls = run(ScheduleView::begin(op, platform), file_replies(replies));
            let waited = replies.len() > 0 && replies.last() is Finished;
            &&& now.wants() == if waited {
                None
            } else {
                match call(op, platform, file_replies(replies)) {
                    Some(request) => Some(RunRequest::File(request)),
                    None => Some(RunRequest::<Seq<u8>>::Finish),
                }
            }
            &&& now is Done <==> waited
            &&& now matches RunPhase::Done(outcome) ==> match (
                replies.last()->Finished_0,
                calls,
            ) {
                (Err(error), _) => outcome == Err::<(), ErrorView<E>>(error),
                (Ok(_), Err(error)) => outcome == Err::<(), ErrorView<E>>(error),
                (Ok(_), Ok(_)) => outcome == Ok::<(), ErrorView<E>>(()),
            }
        }),
    decreases replies.len(),
{
    law_handed_over_directories_are_waited_for(op, platform, replies);
    lemma_run_stands(op, platform, replies);
}

/// Where the run of an operation stands.
proof fn lemma_run_stands<E>(
    op: CopyOpView,
    platform: Platform,
    replies: Seq<RunReply<Seq<u8>, Seq<u8>, E>>,
)
    requires
        fitting(RunView::<E>::begin(op, platform), replies),
    ensures
        ({
            let calls = run(ScheduleView::begin(op, platform), file_replies(replies));
            &&& possible(ScheduleView::begin(op, platform), file_replies(replies))
            &&& match run_through(RunView::<E>::begin(op, platform), replies) {
                RunPhase::Scheduling(schedule) => calls == Ok::<ScheduleView, ErrorView<E>>(
                    schedule,
                ) && schedule.wants() is Some && !(replies.len() > 0
                    && replies.last() is Finished),
                RunPhase::Finishing(_) => call(op, platform, file_replies(replies)) is None && !(
                replies.len() > 0 && replies.last() is Finished),
                RunPhase::Done(_) => replies.len() > 0 && replies.last() is Finished,
            }
        }),
    decreases replies.len(),
{
    if replies.len() > 0 {
        let before = replies.drop_last();
        lemma_run_stands(op, platform, before);
        match replies.last() {
            RunReply::File(_) => {
                assert(file_replies(replies).drop_last() =~= file_replies(before));
            },
            RunReply::Finished(_) => {},
        }
    }
}

/// A run takes what its calls can answer, and, when it waits, how the directories ended.
pub proof fn law_a_run_takes_its_answers<E>(
    now: RunView<E>,
    reply: RunReply<Seq<u8>, Seq<u8>, E>,
)
    ensures
        now.takes(reply) <==> match (now, reply) {
            (RunPhase::Scheduling(schedule), RunReply::File(reply)) => schedule.takes(reply),
            (RunPhase::Finishing(_), RunReply::Finished(_)) => true,
            _ => false,
        },
{
}

} // verus!
