//! Laws of the threads, one by one: how many are started and waited for, and how they end.

use crate::error::{Attempt, CopyError, Error, ErrorView, Subject};
use crate::linux::backend::root_node;
use crate::linux::call_laws::tells_of;
use crate::linux::pool::{
    joined_view, joins, possible, run, Joined, PoolEvent, PoolPhase, RootWorker, Worker,
    WorkerEvent,
};
use vstd::prelude::*;

verus! {

/// How often a directory came that more were queued behind.
pub open spec fn came_with_more<E>(events: Seq<PoolEvent<E>>) -> nat
    decreases events.len(),
{
    if events.len() == 0 {
        0
    } else {
        let before = came_with_more(events.drop_last());
        match events.last() {
            PoolEvent::Task { queue_empty: false } => before + 1,
            _ => before,
        }
    }
}

/// How many threads the first thread can start: one less than run at once, and none where that
/// is not known.
pub open spec fn most(parallelism: Option<usize>) -> int {
    match parallelism {
        Some(threads) => threads - 1,
        None => 0,
    }
}

/// How many threads the first thread has started after these events: one for each directory
/// that more were queued behind, as long as there is a processor for it.
pub open spec fn started<E>(parallelism: Option<usize>, events: Seq<PoolEvent<E>>) -> int {
    if came_with_more(events) < most(parallelism) {
        came_with_more(events) as int
    } else {
        most(parallelism)
    }
}

/// A thread is started for each directory that more are queued behind, as long as there is a
/// processor for it. After a directory was copied, the next one is waited for; when there are
/// no more, each thread that was started is waited for, and then all is done.
pub proof fn law_threads_are_started_where_there_is_work<E>(
    parallelism: Option<usize>,
    events: Seq<PoolEvent<E>>,
)
    requires
        parallelism matches Some(threads) ==> threads > 0,
        possible(RootWorker::begin(parallelism), events),
        run(RootWorker::begin(parallelism), events) is Ok,
    ensures
        ({
            let worker = run(RootWorker::begin(parallelism), events)->Ok_0;
            let now = started(parallelism, events);
            let ended = if joins(events) == now {
                PoolPhase::Done
            } else {
                PoolPhase::Joining { joined: joins(events) as usize }
            };
            &&& worker.spawned == now
            &&& worker.available_parallelism == most(parallelism) - now
            &&& joins(events) <= now
            &&& if events.len() == 0 {
                worker.phase == PoolPhase::Receiving
            } else {
                match events.last() {
                    PoolEvent::Task { .. } => worker.phase == (PoolPhase::Copying {
                        spawn: now > started(parallelism, events.drop_last()),
                    }),
                    PoolEvent::Copied(_) => worker.phase == PoolPhase::Receiving,
                    PoolEvent::Closed => worker.phase == ended,
                    PoolEvent::Joined(_) => worker.phase == ended,
                }
            }
        }),
{
    lemma_started(parallelism, events);
}

proof fn lemma_started<E>(parallelism: Option<usize>, events: Seq<PoolEvent<E>>)
    requires
        parallelism matches Some(threads) ==> threads > 0,
        possible(RootWorker::begin(parallelism), events),
        run(RootWorker::begin(parallelism), events) is Ok,
    ensures
        ({
            let worker = run(RootWorker::begin(parallelism), events)->Ok_0;
            let now = started(parallelism, events);
            &&& worker.spawned == now
            &&& worker.available_parallelism == most(parallelism) - now
            &&& match worker.phase {
                PoolPhase::Receiving => joins(events) == 0 && (events.len() == 0
                    || events.last() is Copied),
                PoolPhase::Copying { spawn } => joins(events) == 0 && events.len() > 0
                    && events.last() is Task && spawn == (now > started(
                    parallelism,
                    events.drop_last(),
                )),
                PoolPhase::Joining { joined } => joins(events) == joined && joined < now
                    && events.len() > 0 && (events.last() is Closed || events.last() is Joined),
                PoolPhase::Done => joins(events) == now && events.len() > 0 && (
                events.last() is Closed || events.last() is Joined),
            }
        }),
    decreases events.len(),
{
    if events.len() > 0 {
        lemma_started(parallelism, events.drop_last());
    }
}

/// The first thread ends with an error exactly when the copy of a directory failed, or when a
/// thread that it waited for died or failed. The error is that of the copy or of the thread,
/// as it came.
pub proof fn law_the_first_thread_ends_with_the_error_that_came<E>(
    worker: RootWorker,
    event: PoolEvent<E>,
)
    requires
        worker.takes(event),
    ensures
        match event {
            PoolEvent::Copied(Err(error)) => worker.after(event) == Err::<
                RootWorker,
                ErrorView<E>,
            >(error@),
            PoolEvent::Joined(Joined::Panicked) => worker.after(event) == Err::<
                RootWorker,
                ErrorView<E>,
            >(Error::Join),
            PoolEvent::Joined(Joined::Returned(Err(error))) => worker.after(event) == Err::<
                RootWorker,
                ErrorView<E>,
            >(error@),
            _ => worker.after(event) is Ok,
        },
{
}

/// What the first thread can learn: a directory or the end of the queue while it waits for
/// one, how the copy ended while it copies, and how a thread ended while it waits for that.
pub proof fn law_the_first_thread_learns_what_it_waits_for<E>(
    worker: RootWorker,
    event: PoolEvent<E>,
)
    ensures
        worker.takes(event) <==> match (worker.phase, event) {
            (PoolPhase::Receiving, PoolEvent::Task { .. }) => true,
            (PoolPhase::Receiving, PoolEvent::Closed) => true,
            (PoolPhase::Copying { .. }, PoolEvent::Copied(_)) => true,
            (PoolPhase::Joining { .. }, PoolEvent::Joined(_)) => true,
            _ => false,
        },
{
}

/// A further thread takes a descriptor table of its own, copies directories one after the
/// other and is done when the queue is closed. It ends with an error exactly when it could not
/// get a table or the copy of a directory failed, and with that error.
pub proof fn law_a_further_thread_copies_until_the_queue_is_closed<E>(
    worker: Worker,
    event: WorkerEvent<E>,
)
    ensures
        worker.takes(event) <==> match (worker, event) {
            (Worker::Unsharing, WorkerEvent::Unshared(_)) => true,
            (Worker::Receiving, WorkerEvent::Task) => true,
            (Worker::Receiving, WorkerEvent::Closed) => true,
            (Worker::Copying, WorkerEvent::Copied(_)) => true,
            _ => false,
        },
        match event {
            WorkerEvent::Unshared(Ok(_)) => worker.after(event) == Ok::<Worker, ErrorView<E>>(
                Worker::Receiving,
            ),
            WorkerEvent::Unshared(Err(failure)) => worker.after(event) is Err && tells_of(
                worker.after(event)->Err_0,
                Attempt::UnshareDescriptors,
                Subject::Nothing,
            ) && worker.after(event)->Err_0->error == failure.error,
            WorkerEvent::Task => worker.after(event) == Ok::<Worker, ErrorView<E>>(
                Worker::Copying,
            ),
            WorkerEvent::Copied(Ok(_)) => worker.after(event) == Ok::<Worker, ErrorView<E>>(
                Worker::Receiving,
            ),
            WorkerEvent::Copied(Err(error)) => worker.after(event) == Err::<Worker, ErrorView<E>>(
                error@,
            ),
            WorkerEvent::Closed => worker.after(event) == Ok::<Worker, ErrorView<E>>(
                Worker::Done,
            ),
        },
{
}

/// A thread stands for the outcome that it returned, and one that died for an error of its
/// own.
pub proof fn law_a_thread_stands_for_its_outcome<E>(joined: Joined<Result<(), CopyError<E>>>)
    ensures
        match joined {
            Joined::Panicked => joined_view(joined) == Err::<(), ErrorView<E>>(Error::Join),
            Joined::Returned(Ok(_)) => joined_view(joined) == Ok::<(), ErrorView<E>>(()),
            Joined::Returned(Err(error)) => joined_view(joined) == Err::<(), ErrorView<E>>(error@),
        },
{
}

/// A directory is handed over as it was named, from and to, as the top of its own copy. One
/// with a zero byte in a path is refused, and the error names the first such path.
pub proof fn law_a_directory_is_handed_over_as_it_was_named<E>(from: Seq<u8>, to: Seq<u8>)
    ensures
        root_node::<E>(from, to) is Ok <==> (forall|i: int|
            0 <= i < from.len() ==> #[trigger] from[i] != 0) && (forall|i: int|
            0 <= i < to.len() ==> #[trigger] to[i] != 0),
        root_node::<E>(from, to) matches Ok(node) ==> node.from == from && node.to == to
            && node.root_to_inode is None,
        root_node::<E>(from, to) matches Err(error) ==> error == (ErrorView::<E>::BadPath {
            path: if exists|i: int| 0 <= i < from.len() && #[trigger] from[i] == 0 {
                from
            } else {
                to
            },
        }),
{
    if from.contains(0u8) {
        let i = choose|i: int| 0 <= i < from.len() && #[trigger] from[i] == 0u8;
        assert(from[i] == 0);
    } else {
        assert forall|i: int| 0 <= i < from.len() implies #[trigger] from[i] != 0 by {
            assert(from.contains(from[i]));
        }
    }
    if to.contains(0u8) {
        let i = choose|i: int| 0 <= i < to.len() && #[trigger] to[i] == 0u8;
        assert(to[i] == 0);
    } else {
        assert forall|i: int| 0 <= i < to.len() implies #[trigger] to[i] != 0 by {
            assert(to.contains(to[i]));
        }
    }
}

} // verus!
