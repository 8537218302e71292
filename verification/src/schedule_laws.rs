//! Laws of copy operations, over whole runs of them.

use crate::error::{Error, ErrorView, FailureKind};
use crate::op::{overall, CopyOpView, RunPhase, RunReply, RunView};
use crate::os_path::parent_bytes;
use crate::platform::Platform;
use crate::schedule::{transfer_phase, Phase, Reply, Request, ScheduleView, SourceKind};
use vstd::prelude::*;

verus! {

/// Where a schedule stands after these answers.
pub open spec fn run<E>(schedule: ScheduleView, replies: Seq<Reply<Seq<u8>, Seq<u8>, E>>) -> Result<
    ScheduleView,
    ErrorView<E>,
>
    decreases replies.len(),
{
    if replies.len() == 0 {
        Ok(schedule)
    } else {
        match run(schedule, replies.drop_last()) {
            Ok(schedule) => schedule.after(replies.last()),
            Err(error) => Err(error),
        }
    }
}

/// Whether each answer is one that its call can give.
pub open spec fn possible<E>(
    schedule: ScheduleView,
    replies: Seq<Reply<Seq<u8>, Seq<u8>, E>>,
) -> bool
    decreases replies.len(),
{
    replies.len() == 0 || {
        let before = replies.drop_last();
        &&& possible(schedule, before)
        &&& run(schedule, before) matches Ok(schedule) && schedule.takes(replies.last())
    }
}

/// What was asked and answered for the file at `index`, in its order.
pub open spec fn exchanges<E>(
    schedule: ScheduleView,
    replies: Seq<Reply<Seq<u8>, Seq<u8>, E>>,
    index: int,
) -> Seq<(Request<Seq<u8>>, Reply<Seq<u8>, Seq<u8>, E>)>
    decreases replies.len(),
{
    if replies.len() == 0 {
        seq![]
    } else {
        let before = replies.drop_last();
        let earlier = exchanges(schedule, before, index);
        match run(schedule, before) {
            Ok(schedule) if schedule.index == index && schedule.wants() is Some => earlier.push(
                (schedule.wants()->0, replies.last()),
            ),
            _ => earlier,
        }
    }
}

/// Whether a request changes something, at the path of the copy or above it.
pub open spec fn writes(request: Request<Seq<u8>>) -> bool {
    match request {
        Request::CreateDirAll { .. } => true,
        Request::HandOver { .. } => true,
        Request::MakeLink { .. } => true,
        Request::CopyFile { .. } => true,
        _ => false,
    }
}

/// A file that was transferred: how, from where and to where.
pub enum Transfer {
    /// A directory was handed over.
    HandedOver { from: Seq<u8>, to: Seq<u8> },
    /// A symbolic link to `target` was made.
    Linked { target: Seq<u8>, to: Seq<u8> },
    /// A file was copied.
    Copied { from: Seq<u8>, to: Seq<u8> },
}

/// The transfer that an answer completes, if it completes one.
pub open spec fn completed<E>(
    schedule: ScheduleView,
    reply: Reply<Seq<u8>, Seq<u8>, E>,
) -> Seq<Transfer> {
    match (schedule.wants(), reply) {
        (Some(Request::HandOver { from, to }), Reply::HandedOver(Ok(_))) => seq![
            Transfer::HandedOver { from, to },
        ],
        (Some(Request::MakeLink { target, path }), Reply::Unit(Ok(_))) => seq![
            Transfer::Linked { target, to: path },
        ],
        (Some(Request::CopyFile { from, to }), Reply::Unit(Ok(_))) => seq![
            Transfer::Copied { from, to },
        ],
        _ => seq![],
    }
}

/// The transfers that were completed, in their order.
pub open spec fn transfers<E>(
    schedule: ScheduleView,
    replies: Seq<Reply<Seq<u8>, Seq<u8>, E>>,
) -> Seq<Transfer>
    decreases replies.len(),
{
    if replies.len() == 0 {
        seq![]
    } else {
        let before = replies.drop_last();
        transfers(schedule, before) + match run(schedule, before) {
            Ok(schedule) => completed(schedule, replies.last()),
            Err(_) => seq![],
        }
    }
}

/// What the files of an operation are: the kind of each, and where it points if it
/// is a symbolic link.
pub struct Sources {
    pub kinds: Seq<SourceKind>,
    pub targets: Seq<Seq<u8>>,
}

/// Whether an answer about the file that is being copied, as far as it is one, is
/// true of it. Nothing is known of what stands at any other path.
pub open spec fn tells<E>(
    schedule: ScheduleView,
    sources: Sources,
    reply: Reply<Seq<u8>, Seq<u8>, E>,
) -> bool {
    match reply {
        Reply::Kind(Ok(kind)) => schedule.wants() == Some(
            Request::Inspect { path: schedule.op.files[schedule.index].0 },
        ) ==> kind == sources.kinds[schedule.index],
        Reply::Link(Ok(target)) => schedule.wants() == Some(
            Request::ReadLink { path: schedule.op.files[schedule.index].0 },
        ) ==> target == sources.targets[schedule.index],
        _ => true,
    }
}

/// Whether each answer is one that its call can give, and is true of the files.
pub open spec fn truthful<E>(
    schedule: ScheduleView,
    sources: Sources,
    replies: Seq<Reply<Seq<u8>, Seq<u8>, E>>,
) -> bool
    decreases replies.len(),
{
    replies.len() == 0 || {
        let before = replies.drop_last();
        &&& truthful(schedule, sources, before)
        &&& run(schedule, before) matches Ok(schedule) && schedule.takes(replies.last()) && tells(
            schedule,
            sources,
            replies.last(),
        )
    }
}

/// The transfer that the file at `index` calls for.
pub open spec fn due_transfer(
    op: CopyOpView,
    platform: Platform,
    sources: Sources,
    index: int,
) -> Transfer {
    let (from, to) = op.files[index];
    match sources.kinds[index] {
        SourceKind::Directory => Transfer::HandedOver { from, to },
        SourceKind::Symlink if platform.copies_links() => Transfer::Linked {
            target: sources.targets[index],
            to,
        },
        _ => Transfer::Copied { from, to },
    }
}

/// A schedule stays what it is for, and has a file as long as it is not finished.
proof fn lemma_steps_keep<E>(schedule: ScheduleView, reply: Reply<Seq<u8>, Seq<u8>, E>)
    requires
        schedule.wf(),
        schedule.takes(reply),
    ensures
        schedule.after(reply) matches Ok(next) ==> {
            &&& next.wf()
            &&& next.op == schedule.op
            &&& next.platform == schedule.platform
            &&& schedule.index <= next.index <= schedule.index + 1
        },
{
}

/// What holds of the exchanges for the file that is being copied.
spec fn in_order<E>(
    schedule: ScheduleView,
    done: Seq<(Request<Seq<u8>>, Reply<Seq<u8>, Seq<u8>, E>)>,
) -> bool {
    &&& !schedule.op.force && !(schedule.phase is Checking || schedule.phase is Finished)
        ==> found_missing(done, schedule.to())
    &&& schedule.phase is Checking || schedule.phase is Finished ==> done.len() == 0
    &&& schedule.op.force ==> !(schedule.phase is Checking)
    &&& schedule.phase is HandingOver || schedule.phase is ReadingLink
        || schedule.phase is Linking || schedule.phase is Copying ==> parent_is_made(
        done,
        schedule.to(),
    )
    &&& schedule.phase matches Phase::MakingParent { parent, .. } ==> parent_bytes(schedule.to())
        == Some(parent)
}

/// Whether one of the exchanges said that nothing stands at `path`.
pub open spec fn found_missing<E>(
    done: Seq<(Request<Seq<u8>>, Reply<Seq<u8>, Seq<u8>, E>)>,
    path: Seq<u8>,
) -> bool {
    exists|i: int|
        0 <= i < done.len() && (#[trigger] done[i]).0 == (Request::Check { path })
            && done[i].1.failure() is Some && done[i].1.failure()->0.kind == FailureKind::NotFound
}

/// Whether one of the exchanges made the parent of `path`, unless that has none.
pub open spec fn parent_is_made<E>(
    done: Seq<(Request<Seq<u8>>, Reply<Seq<u8>, Seq<u8>, E>)>,
    path: Seq<u8>,
) -> bool {
    match parent_bytes(path) {
        Some(parent) => exists|i: int|
            0 <= i < done.len() && (#[trigger] done[i]).0 == (Request::CreateDirAll {
                path: parent,
            }) && done[i].1.failure() is None,
        None => true,
    }
}

/// One more exchange takes nothing from those before it.
proof fn lemma_exchanges_grow<E>(
    done: Seq<(Request<Seq<u8>>, Reply<Seq<u8>, Seq<u8>, E>)>,
    one: (Request<Seq<u8>>, Reply<Seq<u8>, Seq<u8>, E>),
    path: Seq<u8>,
)
    ensures
        found_missing(done, path) ==> found_missing(done.push(one), path),
        parent_is_made(done, path) ==> parent_is_made(done.push(one), path),
{
    let more = done.push(one);
    assert forall|i: int| 0 <= i < done.len() implies #[trigger] done[i] == more[i] by {}
    if found_missing(done, path) {
        let i = choose|i: int|
            0 <= i < done.len() && (#[trigger] done[i]).0 == (Request::Check { path })
                && done[i].1.failure() is Some && done[i].1.failure()->0.kind
                == FailureKind::NotFound;
        assert(more[i] == done[i]);
    }
    if parent_is_made(done, path) && parent_bytes(path) is Some {
        let i = choose|i: int|
            0 <= i < done.len() && (#[trigger] done[i]).0 == (Request::CreateDirAll {
                path: parent_bytes(path)->0,
            }) && done[i].1.failure() is None;
        assert(more[i] == done[i]);
    }
}

/// Nothing was asked yet about files that were not come to.
proof fn lemma_later_files_untouched<E>(
    start: ScheduleView,
    replies: Seq<Reply<Seq<u8>, Seq<u8>, E>>,
    index: int,
)
    requires
        start.wf(),
        possible(start, replies),
        run(start, replies) matches Ok(schedule) ==> index > schedule.index,
        run(start, replies) is Ok,
    ensures
        exchanges(start, replies, index).len() == 0,
    decreases replies.len(),
{
    if replies.len() > 0 {
        let before = replies.drop_last();
        lemma_runs_keep(start, before);
        lemma_steps_keep(run(start, before)->Ok_0, replies.last());
        lemma_later_files_untouched(start, before, index);
    }
}

/// A schedule stays what it is for throughout a run.
proof fn lemma_runs_keep<E>(start: ScheduleView, replies: Seq<Reply<Seq<u8>, Seq<u8>, E>>)
    requires
        start.wf(),
        possible(start, replies),
    ensures
        run(start, replies) matches Ok(schedule) ==> {
            &&& schedule.wf()
            &&& schedule.op == start.op
            &&& schedule.platform == start.platform
        },
    decreases replies.len(),
{
    if replies.len() > 0 {
        let before = replies.drop_last();
        lemma_runs_keep(start, before);
        lemma_steps_keep(run(start, before)->Ok_0, replies.last());
    }
}

/// The exchanges for a file are in order throughout a run.
proof fn lemma_runs_in_order<E>(
    op: CopyOpView,
    platform: Platform,
    replies: Seq<Reply<Seq<u8>, Seq<u8>, E>>,
)
    requires
        possible(ScheduleView::begin(op, platform), replies),
        run(ScheduleView::begin(op, platform), replies) is Ok,
    ensures
        ({
            let start = ScheduleView::begin(op, platform);
            let schedule = run(start, replies)->Ok_0;
            in_order(schedule, exchanges(start, replies, schedule.index))
        }),
    decreases replies.len(),
{
    let start = ScheduleView::begin(op, platform);
    if replies.len() > 0 {
        let before = replies.drop_last();
        let reply = replies.last();
        let schedule = run(start, before)->Ok_0;
        let next = schedule.after(reply)->Ok_0;
        lemma_runs_in_order(op, platform, before);
        lemma_runs_keep(start, before);
        lemma_steps_keep(schedule, reply);
        let done = exchanges(start, before, schedule.index);
        let one = (schedule.wants()->0, reply);
        let more = done.push(one);
        if next.index == schedule.index {
            assert(exchanges(start, replies, next.index) == more);
            lemma_exchanges_grow(done, one, schedule.to());
            assert(more[done.len() as int] == one);
            assert forall|i: int| 0 <= i < done.len() implies #[trigger] more[i] == done[i] by {}
        } else {
            lemma_later_files_untouched(start, before, next.index);
        }
    }
}

/// Without force, nothing is overwritten. Whenever a call is asked for that changes
/// something for a file, it was asked before whether something stands at the path of
/// the copy, and the answer was that nothing does.
pub proof fn law_nothing_is_overwritten_without_force<E>(
    op: CopyOpView,
    platform: Platform,
    replies: Seq<Reply<Seq<u8>, Seq<u8>, E>>,
)
    requires
        !op.force,
        possible(ScheduleView::begin(op, platform), replies),
    ensures
        ({
            let start = ScheduleView::begin(op, platform);
            run(start, replies) matches Ok(schedule) ==> schedule.wants() is Some && writes(
                schedule.wants()->0,
            ) ==> found_missing(exchanges(start, replies, schedule.index), schedule.to())
        }),
{
    let start = ScheduleView::begin(op, platform);
    lemma_runs_keep(start, replies);
    if run(start, replies) is Ok {
        lemma_runs_in_order(op, platform, replies);
    }
}

/// A destination that is there already is refused, and nothing was changed for it.
/// Without force, the run ends with the error that names the destination exactly when
/// something is found at its path, and by then no call that changes something was
/// asked for that file.
pub proof fn law_an_existing_destination_is_refused<E>(
    op: CopyOpView,
    platform: Platform,
    replies: Seq<Reply<Seq<u8>, Seq<u8>, E>>,
    reply: Reply<Seq<u8>, Seq<u8>, E>,
)
    requires
        possible(ScheduleView::begin(op, platform), replies.push(reply)),
        run(ScheduleView::begin(op, platform), replies) matches Ok(schedule)
            && schedule.phase is Checking,
    ensures
        ({
            let start = ScheduleView::begin(op, platform);
            let schedule = run(start, replies)->Ok_0;
            &&& reply.failure() is None <==> run(start, replies.push(reply)) == Err::<
                ScheduleView,
                ErrorView<E>,
            >(Error::AlreadyExists { file: schedule.to() })
            &&& exchanges(start, replies, schedule.index).len() == 0
        }),
{
    let start = ScheduleView::begin(op, platform);
    assert(replies.push(reply).drop_last() =~= replies);
    lemma_runs_in_order(op, platform, replies);
}

/// With force, it is never asked what stands at the path of a copy.
pub proof fn law_force_never_checks<E>(
    op: CopyOpView,
    platform: Platform,
    replies: Seq<Reply<Seq<u8>, Seq<u8>, E>>,
)
    requires
        op.force,
        possible(ScheduleView::begin(op, platform), replies),
    ensures
        run(ScheduleView::begin(op, platform), replies) matches Ok(schedule) ==> !(
        schedule.wants() is Some && schedule.wants()->0 is Check),
{
    let start = ScheduleView::begin(op, platform);
    lemma_runs_keep(start, replies);
    if run(start, replies) is Ok {
        lemma_runs_in_order(op, platform, replies);
    }
}

/// The parent comes first. Whenever a file is to be handed over, linked or copied, the
/// parent of the path of its copy was made before, if it has one.
pub proof fn law_the_parent_comes_first<E>(
    op: CopyOpView,
    platform: Platform,
    replies: Seq<Reply<Seq<u8>, Seq<u8>, E>>,
)
    requires
        possible(ScheduleView::begin(op, platform), replies),
    ensures
        ({
            let start = ScheduleView::begin(op, platform);
            run(start, replies) matches Ok(schedule) ==> match schedule.wants() {
                Some(Request::HandOver { to, .. }) => parent_is_made(
                    exchanges(start, replies, schedule.index),
                    to,
                ),
                Some(Request::MakeLink { path, .. }) => parent_is_made(
                    exchanges(start, replies, schedule.index),
                    path,
                ),
                Some(Request::CopyFile { to, .. }) => parent_is_made(
                    exchanges(start, replies, schedule.index),
                    to,
                ),
                _ => true,
            }
        }),
{
    let start = ScheduleView::begin(op, platform);
    lemma_runs_keep(start, replies);
    if run(start, replies) is Ok {
        lemma_runs_in_order(op, platform, replies);
    }
}

/// The transfers that are due for the first files.
pub open spec fn due_transfers(
    op: CopyOpView,
    platform: Platform,
    sources: Sources,
    count: int,
) -> Seq<Transfer> {
    Seq::new(count as nat, |i: int| due_transfer(op, platform, sources, i))
}

/// Whether a phase fits the kind of the file that is being copied.
spec fn phase_fits(schedule: ScheduleView, sources: Sources) -> bool {
    let kind = sources.kinds[schedule.index];
    match schedule.phase {
        Phase::MakingParent { kind: seen, .. } => seen == kind,
        Phase::HandingOver => transfer_phase(schedule.platform, kind) is HandingOver,
        Phase::ReadingLink => transfer_phase(schedule.platform, kind) is ReadingLink,
        Phase::Linking { target } => transfer_phase(schedule.platform, kind) is ReadingLink
            && target == sources.targets[schedule.index],
        Phase::Copying => transfer_phase(schedule.platform, kind) is Copying,
        _ => true,
    }
}

/// Every file is transferred, in its turn and by what it is. Whatever a run has come
/// to, if all answers were true, the transfers that it completed are those that are due
/// for the files before the one it is at. When it is finished, that is all of them.
pub proof fn law_every_file_is_transferred_in_turn<E>(
    op: CopyOpView,
    platform: Platform,
    sources: Sources,
    replies: Seq<Reply<Seq<u8>, Seq<u8>, E>>,
)
    requires
        truthful(ScheduleView::begin(op, platform), sources, replies),
    ensures
        ({
            let start = ScheduleView::begin(op, platform);
            run(start, replies) matches Ok(schedule) ==> {
                &&& transfers(start, replies) == due_transfers(
                    op,
                    platform,
                    sources,
                    schedule.index,
                )
                &&& schedule.phase is Finished <==> schedule.index == op.files.len()
            }
        }),
{
    lemma_transfers(op, platform, sources, replies);
}

proof fn lemma_transfers<E>(
    op: CopyOpView,
    platform: Platform,
    sources: Sources,
    replies: Seq<Reply<Seq<u8>, Seq<u8>, E>>,
)
    requires
        truthful(ScheduleView::begin(op, platform), sources, replies),
    ensures
        ({
            let start = ScheduleView::begin(op, platform);
            run(start, replies) matches Ok(schedule) ==> {
                &&& schedule.wf()
                &&& schedule.op == op
                &&& schedule.platform == platform
                &&& phase_fits(schedule, sources)
                &&& transfers(start, replies) == due_transfers(
                    op,
                    platform,
                    sources,
                    schedule.index,
                )
            }
        }),
    decreases replies.len(),
{
    let start = ScheduleView::begin(op, platform);
    if replies.len() == 0 {
        assert(transfers(start, replies) =~= due_transfers(op, platform, sources, 0));
    } else {
        let before = replies.drop_last();
        let reply = replies.last();
        lemma_transfers(op, platform, sources, before);
        let schedule = run(start, before)->Ok_0;
        lemma_steps_keep(schedule, reply);
        if schedule.after(reply) is Ok {
            let next = schedule.after(reply)->Ok_0;
            assert(transfers(start, replies) =~= due_transfers(
                op,
                platform,
                sources,
                next.index,
            ));
        }
    }
}

/// A way through the files fails exactly when a directory could not be handed over,
/// when something stands where nothing may be replaced, or when a call fails; that
/// nothing stands at the path of a copy is no failure. The error of a call, or of
/// handing over, is handed on as it came.
pub proof fn law_a_schedule_fails_with_the_error_of_the_call<E>(
    schedule: ScheduleView,
    reply: Reply<Seq<u8>, Seq<u8>, E>,
)
    requires
        schedule.takes(reply),
    ensures
        schedule.after(reply) is Err <==> match reply.failure() {
            Some(failure) => !(schedule.wants()->0 is Check && failure.kind
                == FailureKind::NotFound),
            None => schedule.wants()->0 is Check || (reply is HandedOver
                && reply->HandedOver_0 is Err),
        },
        schedule.after(reply) matches Err(error) ==> match reply {
            Reply::HandedOver(Err(handed)) => error == handed,
            _ => match reply.failure() {
                Some(failure) => error is Io && error->error == failure.error,
                None => error == (ErrorView::<E>::AlreadyExists { file: schedule.to() }),
            },
        },
{
}

/// Where the run of an operation stands after these answers.
pub open spec fn run_through<E>(
    start: RunView<E>,
    replies: Seq<RunReply<Seq<u8>, Seq<u8>, E>>,
) -> RunView<E>
    decreases replies.len(),
{
    if replies.len() == 0 {
        start
    } else {
        run_through(start, replies.drop_last()).after(replies.last())
    }
}

/// Whether each answer fits what was asked.
pub open spec fn fitting<E>(
    start: RunView<E>,
    replies: Seq<RunReply<Seq<u8>, Seq<u8>, E>>,
) -> bool
    decreases replies.len(),
{
    replies.len() == 0 || {
        &&& fitting(start, replies.drop_last())
        &&& run_through(start, replies.drop_last()).takes(replies.last())
    }
}

/// The answers to the calls for files among these answers.
pub open spec fn file_replies<E>(replies: Seq<RunReply<Seq<u8>, Seq<u8>, E>>) -> Seq<
    Reply<Seq<u8>, Seq<u8>, E>,
>
    decreases replies.len(),
{
    if replies.len() == 0 {
        seq![]
    } else {
        match replies.last() {
            RunReply::File(reply) => file_replies(replies.drop_last()).push(reply),
            RunReply::Finished(_) => file_replies(replies.drop_last()),
        }
    }
}

/// The outcome of a way through the files.
pub open spec fn schedule_outcome<E>(result: Result<ScheduleView, ErrorView<E>>) -> Result<
    (),
    ErrorView<E>,
> {
    match result {
        Ok(_) => Ok(()),
        Err(error) => Err(error),
    }
}

/// The directories that were handed over are always waited for, and their error comes
/// first. A run is done only when the last thing that it learned is how they ended, also
/// where the way through the files failed, and it has gone through the files to their
/// end or to the first error. The outcome is the error of the directories, if there is
/// one, and else that of the way through the files.
pub proof fn law_handed_over_directories_are_waited_for<E>(
    op: CopyOpView,
    platform: Platform,
    replies: Seq<RunReply<Seq<u8>, Seq<u8>, E>>,
)
    requires
        fitting(RunView::<E>::begin(op, platform), replies),
    ensures
        ({
            let schedule = run(ScheduleView::begin(op, platform), file_replies(replies));
            run_through(RunView::<E>::begin(op, platform), replies) matches RunPhase::Done(outcome)
                ==> {
                &&& replies.len() > 0
                &&& replies.last() matches RunReply::Finished(finish) && outcome == overall(
                    finish,
                    schedule_outcome(schedule),
                )
                &&& schedule matches Ok(schedule) ==> schedule.phase is Finished
            }
        }),
{
    lemma_run_through(op, platform, replies);
}

proof fn lemma_run_through<E>(
    op: CopyOpView,
    platform: Platform,
    replies: Seq<RunReply<Seq<u8>, Seq<u8>, E>>,
)
    requires
        fitting(RunView::<E>::begin(op, platform), replies),
    ensures
        ({
            let schedule = run(ScheduleView::begin(op, platform), file_replies(replies));
            match run_through(RunView::<E>::begin(op, platform), replies) {
                RunPhase::Scheduling(now) => schedule == Ok::<ScheduleView, ErrorView<E>>(now)
                    && !(now.phase is Finished),
                RunPhase::Finishing(outcome) => outcome == schedule_outcome(schedule) && (
                schedule matches Ok(schedule) ==> schedule.phase is Finished),
                RunPhase::Done(outcome) => {
                    &&& replies.len() > 0
                    &&& replies.last() matches RunReply::Finished(finish) && outcome == overall(
                        finish,
                        schedule_outcome(schedule),
                    )
                    &&& schedule matches Ok(schedule) ==> schedule.phase is Finished
                },
            }
        }),
    decreases replies.len(),
{
    if replies.len() > 0 {
        let before = replies.drop_last();
        lemma_run_through(op, platform, before);
        match replies.last() {
            RunReply::File(reply) => {
                assert(file_replies(replies).drop_last() =~= file_replies(before));
            },
            RunReply::Finished(_) => {},
        }
    }
}

/// The operation on the files of two operations, one list behind the other.
pub open spec fn put_together(one: CopyOpView, other: CopyOpView) -> CopyOpView {
    CopyOpView { files: one.files + other.files, force: one.force }
}

/// A schedule for the first files of `op`, as part of the way through all of them.
pub open spec fn going_on(schedule: ScheduleView, op: CopyOpView) -> ScheduleView {
    if schedule.phase is Finished {
        ScheduleView::at(op, schedule.platform, schedule.index)
    } else {
        ScheduleView { op, ..schedule }
    }
}

/// A schedule for the last files of `op`, which `count` files come before, as part of
/// the way through all of them.
pub open spec fn further_on(schedule: ScheduleView, op: CopyOpView, count: int) -> ScheduleView {
    ScheduleView { op, index: schedule.index + count, ..schedule }
}

/// A step for one of the first files is the same step on the way through all.
proof fn lemma_step_goes_on<E>(
    schedule: ScheduleView,
    other: CopyOpView,
    reply: Reply<Seq<u8>, Seq<u8>, E>,
)
    requires
        schedule.wf(),
        schedule.op.force == other.force,
        schedule.takes(reply),
    ensures
        ({
            let op = put_together(schedule.op, other);
            let here = going_on(schedule, op);
            &&& here.takes(reply)
            &&& here.after(reply) == match schedule.after(reply) {
                Ok(next) => Ok::<ScheduleView, ErrorView<E>>(going_on(next, op)),
                Err(error) => Err(error),
            }
            &&& completed(here, reply) == completed(schedule, reply)
        }),
{
    let op = put_together(schedule.op, other);
    assert(op.files[schedule.index] == schedule.op.files[schedule.index]);
}

/// A step for one of the last files is the same step on the way through all.
proof fn lemma_step_further_on<E>(
    one: CopyOpView,
    schedule: ScheduleView,
    reply: Reply<Seq<u8>, Seq<u8>, E>,
)
    requires
        schedule.wf(),
        one.force == schedule.op.force,
        schedule.takes(reply),
    ensures
        ({
            let op = put_together(one, schedule.op);
            let count = one.files.len() as int;
            let here = further_on(schedule, op, count);
            &&& here.takes(reply)
            &&& here.after(reply) == match schedule.after(reply) {
                Ok(next) => Ok::<ScheduleView, ErrorView<E>>(further_on(next, op, count)),
                Err(error) => Err(error),
            }
            &&& completed(here, reply) == completed(schedule, reply)
        }),
{
    let op = put_together(one, schedule.op);
    assert(op.files[schedule.index + one.files.len()] == schedule.op.files[schedule.index]);
}

/// A longer list begins like a shorter one. As long as a run has not come to the end of the
/// first files, it is of no account whether others follow: the run stands at the same call,
/// has transferred the same files and fails with the same error. At the end of the first
/// files it goes on to the next one.
pub proof fn law_a_longer_list_begins_the_same<E>(
    one: CopyOpView,
    other: CopyOpView,
    platform: Platform,
    replies: Seq<Reply<Seq<u8>, Seq<u8>, E>>,
)
    requires
        one.force == other.force,
        possible(ScheduleView::begin(one, platform), replies),
    ensures
        ({
            let op = put_together(one, other);
            let start = ScheduleView::begin(op, platform);
            &&& possible(start, replies)
            &&& run(start, replies) == match run(ScheduleView::begin(one, platform), replies) {
                Ok(schedule) => Ok::<ScheduleView, ErrorView<E>>(going_on(schedule, op)),
                Err(error) => Err(error),
            }
            &&& transfers(start, replies) == transfers(
                ScheduleView::begin(one, platform),
                replies,
            )
        }),
    decreases replies.len(),
{
    let short = ScheduleView::begin(one, platform);
    if replies.len() > 0 {
        let before = replies.drop_last();
        law_a_longer_list_begins_the_same(one, other, platform, before);
        lemma_runs_keep(short, before);
        lemma_step_goes_on(run(short, before)->Ok_0, other, replies.last());
    }
}

/// Two lists put together are run one after the other. If a run came to the end of the
/// first list, then what follows is a run of the second list: the same calls are asked for,
/// the same files are transferred, and it fails with the same error.
pub proof fn law_two_lists_are_run_one_after_the_other<E>(
    one: CopyOpView,
    other: CopyOpView,
    platform: Platform,
    first: Seq<Reply<Seq<u8>, Seq<u8>, E>>,
    second: Seq<Reply<Seq<u8>, Seq<u8>, E>>,
)
    requires
        one.force == other.force,
        possible(ScheduleView::begin(one, platform), first),
        run(ScheduleView::begin(one, platform), first) matches Ok(schedule)
            && schedule.phase is Finished,
        possible(ScheduleView::begin(other, platform), second),
    ensures
        ({
            let op = put_together(one, other);
            let start = ScheduleView::begin(op, platform);
            let count = one.files.len() as int;
            &&& possible(start, first + second)
            &&& run(start, first + second) == match run(
                ScheduleView::begin(other, platform),
                second,
            ) {
                Ok(schedule) => Ok::<ScheduleView, ErrorView<E>>(
                    further_on(schedule, op, count),
                ),
                Err(error) => Err(error),
            }
            &&& transfers(start, first + second) == transfers(
                ScheduleView::begin(one, platform),
                first,
            ) + transfers(ScheduleView::begin(other, platform), second)
        }),
    decreases second.len(),
{
    let op = put_together(one, other);
    let start = ScheduleView::begin(op, platform);
    let short = ScheduleView::begin(one, platform);
    let rest = ScheduleView::begin(other, platform);
    if second.len() == 0 {
        assert(first + second =~= first);
        law_a_longer_list_begins_the_same(one, other, platform, first);
        lemma_runs_keep(short, first);
        assert(transfers(start, first + second) =~= transfers(short, first) + transfers(
            rest,
            second,
        ));
    } else {
        let before = second.drop_last();
        law_two_lists_are_run_one_after_the_other(one, other, platform, first, before);
        lemma_runs_keep(rest, before);
        lemma_step_further_on(one, run(rest, before)->Ok_0, second.last());
        assert((first + second).drop_last() =~= first + before);
        assert((first + second).last() == second.last());
        assert(transfers(start, first + second) =~= transfers(short, first) + transfers(
            rest,
            second,
        ));
    }
}

/// Every run of two lists put together is a run of the first list, followed, if that came
/// to its end, by a run of the second.
pub proof fn law_a_run_of_two_lists_is_two_runs<E>(
    one: CopyOpView,
    other: CopyOpView,
    platform: Platform,
    replies: Seq<Reply<Seq<u8>, Seq<u8>, E>>,
) -> (parts: (Seq<Reply<Seq<u8>, Seq<u8>, E>>, Seq<Reply<Seq<u8>, Seq<u8>, E>>))
    requires
        one.force == other.force,
        possible(ScheduleView::begin(put_together(one, other), platform), replies),
    ensures
        replies == parts.0 + parts.1,
        possible(ScheduleView::begin(one, platform), parts.0),
        possible(ScheduleView::begin(other, platform), parts.1),
        parts.1.len() > 0 ==> (run(ScheduleView::begin(one, platform), parts.0) matches Ok(schedule)
            && schedule.phase is Finished),
    decreases replies.len(),
{
    let op = put_together(one, other);
    let start = ScheduleView::begin(op, platform);
    let short = ScheduleView::begin(one, platform);
    let rest = ScheduleView::begin(other, platform);
    if replies.len() == 0 {
        assert(replies =~= replies + replies);
        (replies, replies)
    } else {
        let before = replies.drop_last();
        let reply = replies.last();
        let (first, second) = law_a_run_of_two_lists_is_two_runs(one, other, platform, before);
        lemma_runs_keep(short, first);
        lemma_runs_keep(rest, second);
        law_a_longer_list_begins_the_same(one, other, platform, first);
        if second.len() == 0 {
            assert(before =~= first);
        }
        let schedule = run(short, first)->Ok_0;
        if schedule.phase is Finished {
            law_two_lists_are_run_one_after_the_other(one, other, platform, first, second);
            let longer = second.push(reply);
            assert(longer.drop_last() =~= second);
            assert(replies =~= before.push(reply));
            assert((first + second).push(reply) =~= first + longer);
            assert(possible(rest, longer));
            (first, longer)
        } else {
            let longer = first.push(reply);
            assert(longer.drop_last() =~= first);
            assert(replies =~= longer + second);
            assert(possible(short, longer));
            (longer, second)
        }
    }
}

/// The same operation, which may replace what is there.
pub open spec fn forced(op: CopyOpView) -> CopyOpView {
    CopyOpView { force: true, ..op }
}

/// The answers but for those on whether something stands at the path of a copy.
pub open spec fn without_checks<E>(
    start: ScheduleView,
    replies: Seq<Reply<Seq<u8>, Seq<u8>, E>>,
) -> Seq<Reply<Seq<u8>, Seq<u8>, E>>
    decreases replies.len(),
{
    if replies.len() == 0 {
        seq![]
    } else {
        let before = replies.drop_last();
        match run(start, before) {
            Ok(schedule) if schedule.phase is Checking => without_checks(start, before),
            _ => without_checks(start, before).push(replies.last()),
        }
    }
}

/// Where a schedule stands that does not ask whether something stands at the path of a
/// copy.
pub open spec fn past_the_check(schedule: ScheduleView) -> ScheduleView {
    ScheduleView {
        op: forced(schedule.op),
        phase: if schedule.phase is Checking {
            Phase::Inspecting
        } else {
            schedule.phase
        },
        ..schedule
    }
}

/// Force leaves out the checks and changes nothing else. Whatever a run has come to, a run
/// with force that is answered the same, but for the checks, has come to the same and has
/// transferred the same files. It fails with the same error, unless that was found by a
/// check.
pub proof fn law_force_only_leaves_out_the_checks<E>(
    op: CopyOpView,
    platform: Platform,
    replies: Seq<Reply<Seq<u8>, Seq<u8>, E>>,
)
    requires
        possible(ScheduleView::begin(op, platform), replies),
    ensures
        ({
            let start = ScheduleView::begin(op, platform);
            let force = ScheduleView::begin(forced(op), platform);
            let fewer = without_checks(start, replies);
            &&& possible(force, fewer)
            &&& transfers(force, fewer) == transfers(start, replies)
            &&& match run(start, replies) {
                Ok(schedule) => run(force, fewer) == Ok::<ScheduleView, ErrorView<E>>(
                    past_the_check(schedule),
                ),
                Err(error) => run(start, replies.drop_last()) matches Ok(schedule) && run(
                    force,
                    fewer,
                ) == if schedule.phase is Checking {
                    Ok(past_the_check(schedule))
                } else {
                    Err(error)
                },
            }
        }),
    decreases replies.len(),
{
    let start = ScheduleView::begin(op, platform);
    let force = ScheduleView::begin(forced(op), platform);
    if replies.len() > 0 {
        let before = replies.drop_last();
        law_force_only_leaves_out_the_checks(op, platform, before);
        lemma_runs_keep(start, before);
        let schedule = run(start, before)->Ok_0;
        let fewer = without_checks(start, before);
        let change = completed(schedule, replies.last());
        if schedule.phase is Checking {
            assert(transfers(start, replies) =~= transfers(start, before));
        } else {
            let longer = fewer.push(replies.last());
            assert(longer.drop_last() =~= fewer);
            assert(past_the_check(schedule).wants() == schedule.wants());
            assert(transfers(force, longer) =~= transfers(force, fewer) + change);
        }
    }
}

} // verus!
