//! The law that the order of independent files does not show, for whatever world the files
//! are copied in.

use crate::error::ErrorView;
use crate::op::{CopyOpView, RunPhase, RunReply, RunView};
use crate::os_path::parent_bytes;
use crate::platform::Platform;
use crate::schedule::{Phase, Reply, Request, ScheduleView};
use crate::schedule_laws::{
    going_on, law_a_longer_list_begins_the_same, law_a_run_of_two_lists_is_two_runs,
    law_two_lists_are_run_one_after_the_other, possible, put_together, run, run_through,
};
use vstd::prelude::*;

verus! {

/// A world that files are copied in: what it answers to a call in each of its states, and
/// the state that the call leaves.
pub type World<S, E> = spec_fn(S, Request<Seq<u8>>) -> (Reply<Seq<u8>, Seq<u8>, E>, S);

/// The state of the world after the calls that were answered.
pub open spec fn state_after<S, E>(
    world: World<S, E>,
    state: S,
    start: ScheduleView,
    replies: Seq<Reply<Seq<u8>, Seq<u8>, E>>,
) -> S
    decreases replies.len(),
{
    if replies.len() == 0 {
        state
    } else {
        let before = replies.drop_last();
        let now = state_after(world, state, start, before);
        match run(start, before) {
            Ok(schedule) if schedule.wants() is Some => world(now, schedule.wants()->0).1,
            _ => now,
        }
    }
}

/// Whether these are the answers that the world gives to the calls of a schedule, each one
/// that its call can give.
pub open spec fn answered<S, E>(
    world: World<S, E>,
    state: S,
    start: ScheduleView,
    replies: Seq<Reply<Seq<u8>, Seq<u8>, E>>,
) -> bool
    decreases replies.len(),
{
    replies.len() == 0 || {
        let before = replies.drop_last();
        &&& answered(world, state, start, before)
        &&& run(start, before) matches Ok(schedule) && schedule.takes(replies.last())
            && schedule.wants() is Some && replies.last() == world(
            state_after(world, state, start, before),
            schedule.wants()->0,
        ).0
    }
}

/// Whether an operation goes through all of its files without an error, with these answers
/// of the world.
pub open spec fn ends_well<S, E>(
    world: World<S, E>,
    state: S,
    op: CopyOpView,
    platform: Platform,
    replies: Seq<Reply<Seq<u8>, Seq<u8>, E>>,
) -> bool {
    &&& answered(world, state, ScheduleView::begin(op, platform), replies)
    &&& run(ScheduleView::begin(op, platform), replies) matches Ok(schedule)
        && schedule.phase is Finished
}

/// Whether a call is one that can be asked for to copy this file.
pub open spec fn calls_for(file: (Seq<u8>, Seq<u8>), request: Request<Seq<u8>>) -> bool {
    match request {
        Request::Check { path } => path == file.1,
        Request::Inspect { path } => path == file.0,
        Request::CreateDirAll { path } => parent_bytes(file.1) == Some(path),
        Request::HandOver { from, to } => (from, to) == file,
        Request::ReadLink { path } => path == file.0,
        Request::MakeLink { path, .. } => path == file.1,
        Request::CopyFile { from, to } => (from, to) == file,
    }
}

/// Whether the order of two calls does not show: each is answered the same, before or after
/// the other, and the state that they leave is the same.
pub open spec fn commute<S, E>(
    world: World<S, E>,
    state: S,
    one: Request<Seq<u8>>,
    other: Request<Seq<u8>>,
) -> bool {
    let (one_first, one_done) = world(state, one);
    let (other_second, both_done) = world(one_done, other);
    let (other_first, other_done) = world(state, other);
    let (one_second, done_both) = world(other_done, one);
    &&& one_first == one_second
    &&& other_first == other_second
    &&& both_done == done_both
}

/// Whether there is, in a state of the world, a directory for something to stand in at a
/// path.
pub type HasPlace<S> = spec_fn(S, Seq<u8>) -> bool;

/// Whether a call puts something at the path of a copy.
pub open spec fn needs_place(request: Request<Seq<u8>>) -> bool {
    match request {
        Request::HandOver { .. } => true,
        Request::MakeLink { .. } => true,
        Request::CopyFile { .. } => true,
        _ => false,
    }
}

/// Whether a call leaves the place that a path has.
pub open spec fn leaves_place<S, E>(
    world: World<S, E>,
    has_place: HasPlace<S>,
    state: S,
    request: Request<Seq<u8>>,
    path: Seq<u8>,
) -> bool {
    has_place(state, path) ==> has_place(world(state, request).1, path)
}

/// Whether making the directory that a path is in makes a place for the path.
pub open spec fn makes_place<S, E>(
    world: World<S, E>,
    has_place: HasPlace<S>,
    state: S,
    path: Seq<u8>,
) -> bool {
    match parent_bytes(path) {
        Some(parent) => {
            let (reply, after) = world(state, Request::CreateDirAll { path: parent });
            reply.failure() is None ==> has_place(after, path)
        },
        None => has_place(state, path),
    }
}

/// Whether directories behave as they should while this file is copied: there is a place for
/// its copy once the directory was made that the copy goes into, and no call for the file
/// takes a place away.
pub open spec fn keeps_places<S, E>(
    world: World<S, E>,
    has_place: HasPlace<S>,
    file: (Seq<u8>, Seq<u8>),
) -> bool {
    &&& forall|state: S| #[trigger] makes_place(world, has_place, state, file.1)
    &&& forall|state: S, request: Request<Seq<u8>>, path: Seq<u8>|
        calls_for(file, request) ==> #[trigger] leaves_place(
            world,
            has_place,
            state,
            request,
            path,
        )
}

/// Whether two files are independent: the order of a call for the one and a call for the
/// other never shows, where there is a place for what they put.
pub open spec fn independent<S, E>(
    world: World<S, E>,
    has_place: HasPlace<S>,
    one: (Seq<u8>, Seq<u8>),
    other: (Seq<u8>, Seq<u8>),
) -> bool {
    forall|state: S, p: Request<Seq<u8>>, q: Request<Seq<u8>>|
        calls_for(one, p) && calls_for(other, q) && (needs_place(p) ==> has_place(state, one.1))
            && (needs_place(q) ==> has_place(state, other.1)) ==> #[trigger] commute(
            world,
            state,
            p,
            q,
        )
}

/// Whether all of these files are independent of each other.
pub open spec fn all_independent<S, E>(
    world: World<S, E>,
    has_place: HasPlace<S>,
    files: Seq<(Seq<u8>, Seq<u8>)>,
) -> bool {
    &&& forall|i: int|
        0 <= i < files.len() ==> keeps_places(world, has_place, #[trigger] files[i])
    &&& forall|i: int, j: int|
        0 <= i < files.len() && 0 <= j < files.len() && i != j ==> independent(
            world,
            has_place,
            #[trigger] files[i],
            #[trigger] files[j],
        )
}

/// All that a run is answered: how its calls for files were, and how the directories that
/// were handed over ended.
pub open spec fn whole_run<E>(
    replies: Seq<Reply<Seq<u8>, Seq<u8>, E>>,
    finish: Result<(), ErrorView<E>>,
) -> Seq<RunReply<Seq<u8>, Seq<u8>, E>> {
    replies.map_values(|reply: Reply<Seq<u8>, Seq<u8>, E>| RunReply::File(reply)).push(
        RunReply::Finished(finish),
    )
}

/// The operation on one file.
spec fn single(file: (Seq<u8>, Seq<u8>), force: bool) -> CopyOpView {
    CopyOpView { files: seq![file], force }
}

/// Answers that a world gives are answers that the calls can give.
proof fn lemma_answered_possible<S, E>(
    world: World<S, E>,
    state: S,
    start: ScheduleView,
    replies: Seq<Reply<Seq<u8>, Seq<u8>, E>>,
)
    requires
        answered(world, state, start, replies),
    ensures
        possible(start, replies),
    decreases replies.len(),
{
    if replies.len() > 0 {
        lemma_answered_possible(world, state, start, replies.drop_last());
    }
}

/// A run on one file makes only calls for that file.
proof fn lemma_calls_for_one<E>(
    file: (Seq<u8>, Seq<u8>),
    force: bool,
    platform: Platform,
    replies: Seq<Reply<Seq<u8>, Seq<u8>, E>>,
)
    requires
        possible(ScheduleView::begin(single(file, force), platform), replies),
    ensures
        run(ScheduleView::begin(single(file, force), platform), replies) matches Ok(schedule) ==> {
            &&& schedule.wf()
            &&& schedule.op == single(file, force)
            &&& schedule.phase matches Phase::MakingParent { parent, .. } ==> parent_bytes(file.1)
                == Some(parent)
            &&& schedule.wants() matches Some(request) ==> calls_for(file, request)
        },
    decreases replies.len(),
{
    if replies.len() > 0 {
        lemma_calls_for_one(file, force, platform, replies.drop_last());
    }
}

/// There is a place for the copy of a file before anything is put there.
proof fn lemma_has_place<S, E>(
    world: World<S, E>,
    has_place: HasPlace<S>,
    state: S,
    file: (Seq<u8>, Seq<u8>),
    force: bool,
    platform: Platform,
    replies: Seq<Reply<Seq<u8>, Seq<u8>, E>>,
)
    requires
        keeps_places(world, has_place, file),
        answered(world, state, ScheduleView::begin(single(file, force), platform), replies),
    ensures
        ({
            let start = ScheduleView::begin(single(file, force), platform);
            run(start, replies) matches Ok(schedule) ==> schedule.phase is HandingOver
                || schedule.phase is ReadingLink || schedule.phase is Linking
                || schedule.phase is Copying ==> has_place(
                state_after(world, state, start, replies),
                file.1,
            )
        }),
    decreases replies.len(),
{
    let start = ScheduleView::begin(single(file, force), platform);
    if replies.len() > 0 {
        let before = replies.drop_last();
        let now = state_after(world, state, start, before);
        lemma_has_place(world, has_place, state, file, force, platform, before);
        lemma_answered_possible(world, state, start, before);
        lemma_calls_for_one(file, force, platform, before);
        let request = run(start, before)->Ok_0.wants()->0;
        assert(makes_place(world, has_place, now, file.1));
        assert(makes_place(world, has_place, world(now, request).1, file.1));
        assert(leaves_place(world, has_place, now, request, file.1));
    }
}

/// A run on a file leaves the places of all other paths.
proof fn lemma_leaves_place<S, E>(
    world: World<S, E>,
    has_place: HasPlace<S>,
    state: S,
    file: (Seq<u8>, Seq<u8>),
    force: bool,
    platform: Platform,
    replies: Seq<Reply<Seq<u8>, Seq<u8>, E>>,
    path: Seq<u8>,
)
    requires
        keeps_places(world, has_place, file),
        answered(world, state, ScheduleView::begin(single(file, force), platform), replies),
        has_place(state, path),
    ensures
        has_place(
            state_after(
                world,
                state,
                ScheduleView::begin(single(file, force), platform),
                replies,
            ),
            path,
        ),
    decreases replies.len(),
{
    let start = ScheduleView::begin(single(file, force), platform);
    if replies.len() > 0 {
        let before = replies.drop_last();
        lemma_leaves_place(world, has_place, state, file, force, platform, before, path);
        lemma_answered_possible(world, state, start, before);
        lemma_calls_for_one(file, force, platform, before);
        assert(leaves_place(
            world,
            has_place,
            state_after(world, state, start, before),
            run(start, before)->Ok_0.wants()->0,
            path,
        ));
    }
}

/// A call for one file can be made before all the calls for another.
proof fn lemma_call_moves_ahead<S, E>(
    world: World<S, E>,
    has_place: HasPlace<S>,
    state: S,
    file: (Seq<u8>, Seq<u8>),
    other: (Seq<u8>, Seq<u8>),
    force: bool,
    platform: Platform,
    replies: Seq<Reply<Seq<u8>, Seq<u8>, E>>,
    request: Request<Seq<u8>>,
)
    requires
        keeps_places(world, has_place, file),
        independent(world, has_place, file, other),
        calls_for(other, request),
        needs_place(request) ==> has_place(state, other.1),
        answered(world, state, ScheduleView::begin(single(file, force), platform), replies),
    ensures
        ({
            let start = ScheduleView::begin(single(file, force), platform);
            let (reply, ahead) = world(state, request);
            &&& world(state_after(world, state, start, replies), request) == (
                reply,
                state_after(world, ahead, start, replies),
            )
            &&& answered(world, ahead, start, replies)
        }),
    decreases replies.len(),
{
    let start = ScheduleView::begin(single(file, force), platform);
    if replies.len() > 0 {
        let before = replies.drop_last();
        lemma_call_moves_ahead(
            world,
            has_place,
            state,
            file,
            other,
            force,
            platform,
            before,
            request,
        );
        lemma_has_place(world, has_place, state, file, force, platform, before);
        if needs_place(request) {
            lemma_leaves_place(
                world,
                has_place,
                state,
                file,
                force,
                platform,
                before,
                other.1,
            );
        }
        lemma_answered_possible(world, state, start, before);
        lemma_calls_for_one(file, force, platform, before);
        let own = run(start, before)->Ok_0.wants()->0;
        assert(commute(world, state_after(world, state, start, before), own, request));
    }
}

/// The runs on two independent files can change places.
proof fn lemma_runs_change_places<S, E>(
    world: World<S, E>,
    has_place: HasPlace<S>,
    state: S,
    file: (Seq<u8>, Seq<u8>),
    other: (Seq<u8>, Seq<u8>),
    force: bool,
    platform: Platform,
    replies: Seq<Reply<Seq<u8>, Seq<u8>, E>>,
    others: Seq<Reply<Seq<u8>, Seq<u8>, E>>,
)
    requires
        keeps_places(world, has_place, file),
        keeps_places(world, has_place, other),
        independent(world, has_place, file, other),
        answered(world, state, ScheduleView::begin(single(file, force), platform), replies),
        answered(
            world,
            state_after(
                world,
                state,
                ScheduleView::begin(single(file, force), platform),
                replies,
            ),
            ScheduleView::begin(single(other, force), platform),
            others,
        ),
    ensures
        ({
            let start = ScheduleView::begin(single(file, force), platform);
            let first = ScheduleView::begin(single(other, force), platform);
            let between = state_after(world, state, first, others);
            &&& answered(world, state, first, others)
            &&& answered(world, between, start, replies)
            &&& state_after(world, between, start, replies) == state_after(
                world,
                state_after(world, state, start, replies),
                first,
                others,
            )
        }),
    decreases others.len(),
{
    let first = ScheduleView::begin(single(other, force), platform);
    if others.len() > 0 {
        let before = others.drop_last();
        lemma_runs_change_places(
            world,
            has_place,
            state,
            file,
            other,
            force,
            platform,
            replies,
            before,
        );
        lemma_answered_possible(world, state, first, before);
        lemma_calls_for_one(other, force, platform, before);
        lemma_has_place(world, has_place, state, other, force, platform, before);
        lemma_call_moves_ahead(
            world,
            has_place,
            state_after(world, state, first, before),
            file,
            other,
            force,
            platform,
            replies,
            run(first, before)->Ok_0.wants()->0,
        );
    }
}

/// Whether these runs, one for each file, are the ways through the files one by one.
spec fn in_turn<S, E>(
    world: World<S, E>,
    state: S,
    files: Seq<(Seq<u8>, Seq<u8>)>,
    force: bool,
    platform: Platform,
    runs: Seq<Seq<Reply<Seq<u8>, Seq<u8>, E>>>,
) -> bool
    decreases files.len(),
{
    &&& files.len() == runs.len()
    &&& files.len() > 0 ==> {
        &&& ends_well(world, state, single(files[0], force), platform, runs[0])
        &&& in_turn(
            world,
            state_after(
                world,
                state,
                ScheduleView::begin(single(files[0], force), platform),
                runs[0],
            ),
            files.drop_first(),
            force,
            platform,
            runs.drop_first(),
        )
    }
}

/// The state of the world after these runs.
spec fn end_state<S, E>(
    world: World<S, E>,
    state: S,
    files: Seq<(Seq<u8>, Seq<u8>)>,
    force: bool,
    platform: Platform,
    runs: Seq<Seq<Reply<Seq<u8>, Seq<u8>, E>>>,
) -> S
    decreases files.len(),
{
    if files.len() == 0 {
        state
    } else {
        end_state(
            world,
            state_after(
                world,
                state,
                ScheduleView::begin(single(files[0], force), platform),
                runs[0],
            ),
            files.drop_first(),
            force,
            platform,
            runs.drop_first(),
        )
    }
}

/// The world goes through two lists put together as through one after the other.
proof fn lemma_world_goes_on<S, E>(
    world: World<S, E>,
    state: S,
    one: CopyOpView,
    other: CopyOpView,
    platform: Platform,
    first: Seq<Reply<Seq<u8>, Seq<u8>, E>>,
)
    requires
        one.force == other.force,
        possible(ScheduleView::begin(one, platform), first),
    ensures
        ({
            let start = ScheduleView::begin(put_together(one, other), platform);
            let short = ScheduleView::begin(one, platform);
            &&& state_after(world, state, start, first) == state_after(world, state, short, first)
            &&& answered(world, state, start, first) == answered(world, state, short, first)
        }),
    decreases first.len(),
{
    if first.len() > 0 {
        let before = first.drop_last();
        let short = ScheduleView::begin(one, platform);
        lemma_world_goes_on(world, state, one, other, platform, before);
        law_a_longer_list_begins_the_same(one, other, platform, before);
        law_a_longer_list_begins_the_same(one, other, platform, first);
        lemma_has_a_file(one, platform, before);
        let op = put_together(one, other);
        let schedule = run(short, before)->Ok_0;
        assert(op.files[schedule.index] == one.files[schedule.index]);
        assert(going_on(schedule, op).wants() == schedule.wants());
    }
}

/// There is a file to copy until the schedule is finished, throughout a run.
proof fn lemma_has_a_file<E>(
    op: CopyOpView,
    platform: Platform,
    replies: Seq<Reply<Seq<u8>, Seq<u8>, E>>,
)
    requires
        possible(ScheduleView::begin(op, platform), replies),
    ensures
        run(ScheduleView::begin(op, platform), replies) matches Ok(schedule) ==> schedule.wf()
            && schedule.op == op,
    decreases replies.len(),
{
    if replies.len() > 0 {
        lemma_has_a_file(op, platform, replies.drop_last());
    }
}

/// The same of the second list.
proof fn lemma_world_goes_further<S, E>(
    world: World<S, E>,
    state: S,
    one: CopyOpView,
    other: CopyOpView,
    platform: Platform,
    first: Seq<Reply<Seq<u8>, Seq<u8>, E>>,
    second: Seq<Reply<Seq<u8>, Seq<u8>, E>>,
)
    requires
        one.force == other.force,
        possible(ScheduleView::begin(one, platform), first),
        run(ScheduleView::begin(one, platform), first) matches Ok(schedule)
            && schedule.phase is Finished,
        possible(ScheduleView::begin(other, platform), second),
    ensures
        ({
            let start = ScheduleView::begin(put_together(one, other), platform);
            let short = ScheduleView::begin(one, platform);
            let rest = ScheduleView::begin(other, platform);
            let between = state_after(world, state, short, first);
            &&& state_after(world, state, start, first + second) == state_after(
                world,
                between,
                rest,
                second,
            )
            &&& answered(world, state, start, first + second) == (answered(
                world,
                state,
                short,
                first,
            ) && answered(world, between, rest, second))
        }),
    decreases second.len(),
{
    if second.len() == 0 {
        assert(first + second =~= first);
        lemma_world_goes_on(world, state, one, other, platform, first);
    } else {
        let before = second.drop_last();
        let rest = ScheduleView::begin(other, platform);
        lemma_world_goes_further(world, state, one, other, platform, first, before);
        law_two_lists_are_run_one_after_the_other(one, other, platform, first, before);
        law_two_lists_are_run_one_after_the_other(one, other, platform, first, second);
        lemma_has_a_file(other, platform, before);
        assert((first + second).drop_last() =~= first + before);
        assert((first + second).last() == second.last());
        let op = put_together(one, other);
        let schedule = run(rest, before)->Ok_0;
        assert(op.files[schedule.index + one.files.len()] == other.files[schedule.index]);
    }
}

/// Runs that go through the files one by one make up a run of the whole list.
proof fn lemma_runs_make_up_one<S, E>(
    world: World<S, E>,
    state: S,
    files: Seq<(Seq<u8>, Seq<u8>)>,
    force: bool,
    platform: Platform,
    runs: Seq<Seq<Reply<Seq<u8>, Seq<u8>, E>>>,
) -> (replies: Seq<Reply<Seq<u8>, Seq<u8>, E>>)
    requires
        in_turn(world, state, files, force, platform, runs),
    ensures
        ends_well(world, state, CopyOpView { files, force }, platform, replies),
        state_after(
            world,
            state,
            ScheduleView::begin(CopyOpView { files, force }, platform),
            replies,
        ) == end_state(world, state, files, force, platform, runs),
    decreases files.len(),
{
    let op = CopyOpView { files, force };
    if files.len() == 0 {
        seq![]
    } else {
        let one = single(files[0], force);
        let other = CopyOpView { files: files.drop_first(), force };
        let short = ScheduleView::begin(one, platform);
        let between = state_after(world, state, short, runs[0]);
        let rest = lemma_runs_make_up_one(
            world,
            between,
            files.drop_first(),
            force,
            platform,
            runs.drop_first(),
        );
        assert(files =~= one.files + other.files);
        assert(op == put_together(one, other));
        lemma_answered_possible(world, state, short, runs[0]);
        lemma_answered_possible(world, between, ScheduleView::begin(other, platform), rest);
        lemma_world_goes_further(world, state, one, other, platform, runs[0], rest);
        law_two_lists_are_run_one_after_the_other(one, other, platform, runs[0], rest);
        runs[0] + rest
    }
}

/// A run of a whole list is made up of runs that go through the files one by one.
proof fn lemma_run_is_made_up<S, E>(
    world: World<S, E>,
    state: S,
    files: Seq<(Seq<u8>, Seq<u8>)>,
    force: bool,
    platform: Platform,
    replies: Seq<Reply<Seq<u8>, Seq<u8>, E>>,
) -> (runs: Seq<Seq<Reply<Seq<u8>, Seq<u8>, E>>>)
    requires
        ends_well(world, state, CopyOpView { files, force }, platform, replies),
    ensures
        in_turn(world, state, files, force, platform, runs),
        end_state(world, state, files, force, platform, runs) == state_after(
            world,
            state,
            ScheduleView::begin(CopyOpView { files, force }, platform),
            replies,
        ),
    decreases files.len(),
{
    let op = CopyOpView { files, force };
    let start = ScheduleView::begin(op, platform);
    lemma_answered_possible(world, state, start, replies);
    if files.len() == 0 {
        lemma_nothing_to_ask(op, platform, replies);
        seq![]
    } else {
        let one = single(files[0], force);
        let other = CopyOpView { files: files.drop_first(), force };
        let short = ScheduleView::begin(one, platform);
        assert(files =~= one.files + other.files);
        assert(op == put_together(one, other));
        let (first, second) = law_a_run_of_two_lists_is_two_runs(one, other, platform, replies);
        law_a_longer_list_begins_the_same(one, other, platform, first);
        lemma_has_a_file(one, platform, first);
        if second.len() == 0 {
            assert(replies =~= first);
        }
        assert(run(short, first)->Ok_0.phase is Finished);
        law_two_lists_are_run_one_after_the_other(one, other, platform, first, second);
        lemma_world_goes_further(world, state, one, other, platform, first, second);
        let between = state_after(world, state, short, first);
        let rest = lemma_run_is_made_up(
            world,
            between,
            files.drop_first(),
            force,
            platform,
            second,
        );
        let runs = seq![first] + rest;
        assert(runs.drop_first() =~= rest);
        runs
    }
}

/// An operation on no files asks for nothing.
proof fn lemma_nothing_to_ask<E>(
    op: CopyOpView,
    platform: Platform,
    replies: Seq<Reply<Seq<u8>, Seq<u8>, E>>,
)
    requires
        op.files.len() == 0,
        possible(ScheduleView::begin(op, platform), replies),
    ensures
        replies.len() == 0,
    decreases replies.len(),
{
    if replies.len() > 0 {
        lemma_nothing_to_ask(op, platform, replies.drop_last());
    }
}

/// Any of the files can be copied first.
proof fn lemma_any_file_first<S, E>(
    world: World<S, E>,
    has_place: HasPlace<S>,
    state: S,
    files: Seq<(Seq<u8>, Seq<u8>)>,
    force: bool,
    platform: Platform,
    runs: Seq<Seq<Reply<Seq<u8>, Seq<u8>, E>>>,
    k: int,
) -> (moved: Seq<Seq<Reply<Seq<u8>, Seq<u8>, E>>>)
    requires
        all_independent(world, has_place, files),
        in_turn(world, state, files, force, platform, runs),
        0 <= k < files.len(),
    ensures
        in_turn(world, state, seq![files[k]] + files.remove(k), force, platform, moved),
        end_state(world, state, seq![files[k]] + files.remove(k), force, platform, moved)
            == end_state(world, state, files, force, platform, runs),
    decreases k,
{
    let tail = files.drop_first();
    if k == 0 {
        assert(seq![files[0]] + files.remove(0) =~= files);
        runs
    } else {
        let head = files[0];
        let file = files[k];
        let begin = ScheduleView::begin(single(head, force), platform);
        let between = state_after(world, state, begin, runs[0]);
        assert(all_independent(world, has_place, tail)) by {
            assert forall|i: int| 0 <= i < tail.len() implies keeps_places(
                world,
                has_place,
                #[trigger] tail[i],
            ) by {
                assert(tail[i] == files[i + 1]);
            }
            assert forall|i: int, j: int|
                0 <= i < tail.len() && 0 <= j < tail.len() && i != j implies independent(
                world,
                has_place,
                #[trigger] tail[i],
                #[trigger] tail[j],
            ) by {
                assert(tail[i] == files[i + 1] && tail[j] == files[j + 1]);
            }
        }
        assert(tail[k - 1] == file);
        let others = lemma_any_file_first(
            world,
            has_place,
            between,
            tail,
            force,
            platform,
            runs.drop_first(),
            k - 1,
        );
        let rest = tail.remove(k - 1);
        let swapped = seq![file] + rest;
        assert(swapped[0] == file);
        assert(swapped.drop_first() =~= rest);
        assert(independent(world, has_place, files[0], files[k]));
        lemma_runs_change_places(
            world,
            has_place,
            state,
            head,
            file,
            force,
            platform,
            runs[0],
            others[0],
        );
        let list = seq![file] + files.remove(k);
        let moved = seq![others[0], runs[0]] + others.drop_first();
        reveal_with_fuel(in_turn, 3);
        reveal_with_fuel(end_state, 3);
        assert(list.drop_first() =~= files.remove(k));
        assert(list.drop_first()[0] == head);
        assert(list.drop_first().drop_first() =~= rest);
        assert(moved.drop_first()[0] == runs[0]);
        assert(moved.drop_first().drop_first() =~= others.drop_first());
        moved
    }
}

/// Independent files can be copied in any order.
proof fn lemma_any_order<S, E>(
    world: World<S, E>,
    has_place: HasPlace<S>,
    state: S,
    files: Seq<(Seq<u8>, Seq<u8>)>,
    others: Seq<(Seq<u8>, Seq<u8>)>,
    force: bool,
    platform: Platform,
    runs: Seq<Seq<Reply<Seq<u8>, Seq<u8>, E>>>,
) -> (moved: Seq<Seq<Reply<Seq<u8>, Seq<u8>, E>>>)
    requires
        all_independent(world, has_place, files),
        in_turn(world, state, files, force, platform, runs),
        files.to_multiset() == others.to_multiset(),
    ensures
        in_turn(world, state, others, force, platform, moved),
        end_state(world, state, others, force, platform, moved) == end_state(
            world,
            state,
            files,
            force,
            platform,
            runs,
        ),
    decreases others.len(),
{
    broadcast use vstd::seq_lib::group_to_multiset_ensures;

    assert(files.len() == files.to_multiset().len());
    assert(others.len() == others.to_multiset().len());
    if others.len() == 0 {
        assert(files =~= others);
        runs
    } else {
        let file = others[0];
        assert(others.contains(file));
        assert(others.to_multiset().count(file) > 0);
        assert(files.contains(file));
        let k = choose|k: int| 0 <= k < files.len() && files[k] == file;
        let list = seq![file] + files.remove(k);
        let ahead = lemma_any_file_first(
            world,
            has_place,
            state,
            files,
            force,
            platform,
            runs,
            k,
        );
        let rest = files.remove(k);
        assert(list.drop_first() =~= rest);
        assert(all_independent(world, has_place, rest)) by {
            assert forall|i: int| 0 <= i < rest.len() implies keeps_places(
                world,
                has_place,
                #[trigger] rest[i],
            ) by {
                let a = if i < k { i } else { i + 1 };
                assert(rest[i] == files[a]);
            }
            assert forall|i: int, j: int|
                0 <= i < rest.len() && 0 <= j < rest.len() && i != j implies independent(
                world,
                has_place,
                #[trigger] rest[i],
                #[trigger] rest[j],
            ) by {
                let a = if i < k { i } else { i + 1 };
                let b = if j < k { j } else { j + 1 };
                assert(rest[i] == files[a] && rest[j] == files[b]);
            }
        }
        assert(rest.to_multiset() =~= files.to_multiset().remove(file));
        assert(others.drop_first() =~= others.remove(0));
        assert(others.drop_first().to_multiset() =~= others.to_multiset().remove(file));
        let begin = ScheduleView::begin(single(file, force), platform);
        let after = lemma_any_order(
            world,
            has_place,
            state_after(world, state, begin, ahead[0]),
            rest,
            others.drop_first(),
            force,
            platform,
            ahead.drop_first(),
        );
        let moved = seq![ahead[0]] + after;
        assert(moved.drop_first() =~= after);
        moved
    }
}

/// A run that went through all of the files ends as the directories that were handed over
/// do.
proof fn lemma_whole_run<E>(
    op: CopyOpView,
    platform: Platform,
    replies: Seq<Reply<Seq<u8>, Seq<u8>, E>>,
    finish: Result<(), ErrorView<E>>,
)
    requires
        possible(ScheduleView::begin(op, platform), replies),
        run(ScheduleView::begin(op, platform), replies) matches Ok(schedule)
            && schedule.phase is Finished,
    ensures
        run_through(RunView::<E>::begin(op, platform), whole_run(replies, finish))
            == RunPhase::<ScheduleView, Seq<u8>, Seq<u8>, E>::Done(finish),
{
    let files = replies.map_values(|reply: Reply<Seq<u8>, Seq<u8>, E>| RunReply::File(reply));
    let all = whole_run(replies, finish);
    lemma_files_of_run(op, platform, replies);
    assert(all.drop_last() =~= files);
    assert(all.last() == RunReply::<Seq<u8>, Seq<u8>, E>::Finished(finish));
    assert(run_through(RunView::<E>::begin(op, platform), all.drop_last()) == RunPhase::<
        ScheduleView,
        Seq<u8>,
        Seq<u8>,
        E,
    >::Finishing(Ok(())));
    if finish is Ok {
        assert(finish->Ok_0 == ());
    }
}

proof fn lemma_files_of_run<E>(
    op: CopyOpView,
    platform: Platform,
    replies: Seq<Reply<Seq<u8>, Seq<u8>, E>>,
)
    requires
        possible(ScheduleView::begin(op, platform), replies),
    ensures
        run(ScheduleView::begin(op, platform), replies) matches Ok(schedule) ==> run_through(
            RunView::<E>::begin(op, platform),
            replies.map_values(|reply: Reply<Seq<u8>, Seq<u8>, E>| RunReply::File(reply)),
        ) == crate::op::scheduling::<E>(schedule),
    decreases replies.len(),
{
    if replies.len() > 0 {
        let before = replies.drop_last();
        lemma_files_of_run(op, platform, before);
        assert(replies.map_values(
            |reply: Reply<Seq<u8>, Seq<u8>, E>| RunReply::File(reply),
        ).drop_last() =~= before.map_values(
            |reply: Reply<Seq<u8>, Seq<u8>, E>| RunReply::File(reply),
        ));
    }
}

/// The order of independent files does not show. Let an operation go through all of its
/// files without an error in a world where they are independent of each other. Then the
/// operation on the same files in any other order does so too, from the same state. The
/// world is left in the same state, and the outcomes are the same, whatever became of the
/// directories that were handed over.
pub proof fn law_the_order_of_independent_files_does_not_show<S, E>(
    world: World<S, E>,
    has_place: HasPlace<S>,
    state: S,
    op: CopyOpView,
    other: CopyOpView,
    platform: Platform,
    replies: Seq<Reply<Seq<u8>, Seq<u8>, E>>,
    finish: Result<(), ErrorView<E>>,
) -> (others: Seq<Reply<Seq<u8>, Seq<u8>, E>>)
    requires
        other.force == op.force,
        other.files.to_multiset() == op.files.to_multiset(),
        all_independent(world, has_place, op.files),
        ends_well(world, state, op, platform, replies),
    ensures
        ends_well(world, state, other, platform, others),
        state_after(world, state, ScheduleView::begin(other, platform), others) == state_after(
            world,
            state,
            ScheduleView::begin(op, platform),
            replies,
        ),
        run_through(RunView::<E>::begin(other, platform), whole_run(others, finish))
            == RunPhase::<ScheduleView, Seq<u8>, Seq<u8>, E>::Done(finish),
        run_through(RunView::<E>::begin(op, platform), whole_run(replies, finish))
            == RunPhase::<ScheduleView, Seq<u8>, Seq<u8>, E>::Done(finish),
{
    let runs = lemma_run_is_made_up(world, state, op.files, op.force, platform, replies);
    let moved = lemma_any_order(
        world,
        has_place,
        state,
        op.files,
        other.files,
        op.force,
        platform,
        runs,
    );
    let others = lemma_runs_make_up_one(
        world,
        state,
        other.files,
        op.force,
        platform,
        moved,
    );
    lemma_answered_possible(world, state, ScheduleView::begin(op, platform), replies);
    lemma_answered_possible(world, state, ScheduleView::begin(other, platform), others);
    lemma_whole_run(op, platform, replies, finish);
    lemma_whole_run(other, platform, others, finish);
    others
}

/// A world leaves no choice. Of two runs of an operation in the same world and from the
/// same state, the one that is answered more often goes on where the other stands. So a run
/// that went through all of the files is the only one that came to an end.
pub proof fn law_a_world_leaves_no_choice<S, E>(
    world: World<S, E>,
    state: S,
    op: CopyOpView,
    platform: Platform,
    one: Seq<Reply<Seq<u8>, Seq<u8>, E>>,
    other: Seq<Reply<Seq<u8>, Seq<u8>, E>>,
)
    requires
        answered(world, state, ScheduleView::begin(op, platform), one),
        answered(world, state, ScheduleView::begin(op, platform), other),
        one.len() <= other.len(),
    ensures
        one == other.take(one.len() as int),
        ends_well(world, state, op, platform, one) || run(
            ScheduleView::begin(op, platform),
            one,
        ) is Err ==> one == other,
    decreases other.len(),
{
    let start = ScheduleView::begin(op, platform);
    if one.len() < other.len() {
        let before = other.drop_last();
        law_a_world_leaves_no_choice(world, state, op, platform, one, before);
        assert(other.take(one.len() as int) =~= before.take(one.len() as int));
        if ends_well(world, state, op, platform, one) || run(start, one) is Err {
            assert(before == one);
        }
    } else {
        if one.len() > 0 {
            law_a_world_leaves_no_choice(
                world,
                state,
                op,
                platform,
                one.drop_last(),
                other.drop_last(),
            );
            assert(other.drop_last().take(one.drop_last().len() as int) =~= other.drop_last());
            assert(one =~= one.drop_last().push(one.last()));
            assert(other =~= other.drop_last().push(other.last()));
        }
        assert(one =~= other);
        assert(other.take(one.len() as int) =~= other);
    }
}

} // verus!
