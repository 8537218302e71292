//! The threads that work off the queue of directories.

use crate::error::{
    io_error, io_error_view, outcome_view, Attempt, CopyError, Error, ErrorView, Failure, Subject,
};
use vstd::pervasive::unreached;
use vstd::prelude::*;

verus! {

/// How a thread ended.
#[derive(Debug, PartialEq, Eq)]
pub enum Joined<T> {
    /// It panicked.
    Panicked,
    /// It returned this.
    Returned(T),
}

/// The outcome that a thread which ended this way stands for.
pub open spec fn joined_view<E>(joined: Joined<Result<(), CopyError<E>>>) -> Result<
    (),
    ErrorView<E>,
> {
    match joined {
        Joined::Panicked => Err(Error::Join),
        Joined::Returned(Ok(_)) => Ok(()),
        Joined::Returned(Err(error)) => Err(error@),
    }
}

/// The outcome that a thread which ended this way stands for: its own, or the error
/// for a thread that died.
pub fn join_outcome<E>(joined: Joined<Result<(), CopyError<E>>>) -> (outcome: Result<
    (),
    CopyError<E>,
>)
    ensures
        outcome_view(outcome) == joined_view(joined),
{
    match joined {
        Joined::Panicked => Err(Error::Join),
        Joined::Returned(outcome) => outcome,
    }
}

/// What a thread is doing.
#[derive(Debug, Clone, Copy, PartialEq, Eq, Structural)]
pub enum PoolPhase {
    /// Waiting for a directory.
    Receiving,
    /// Copying the directory that it got, beside a new thread if `spawn` is set.
    Copying { spawn: bool },
    /// Waiting for the threads that it started to end; `joined` of them have.
    Joining { joined: usize },
    /// All is done.
    Done,
}

/// What a thread learns.
#[derive(Debug, PartialEq, Eq)]
pub enum PoolEvent<E> {
    /// It got a directory, and the queue was empty behind it or not.
    Task { queue_empty: bool },
    /// The directory that it got is copied, or its copy failed.
    Copied(Result<(), CopyError<E>>),
    /// The queue is closed and empty.
    Closed,
    /// The thread that was waited for ended.
    Joined(Joined<Result<(), CopyError<E>>>),
}

/// The first thread: it copies directories, and starts further threads as long as
/// there is work for them and a processor to run them on.
#[derive(Debug, Clone, Copy, PartialEq, Eq, Structural)]
pub struct RootWorker {
    /// How many more threads may be started.
    pub available_parallelism: usize,
    /// How many threads were started.
    pub spawned: usize,
    pub phase: PoolPhase,
}

/// The phase in which threads are waited for, if any are left.
pub open spec fn joining_phase(joined: usize, spawned: usize) -> PoolPhase {
    if joined == spawned {
        PoolPhase::Done
    } else {
        PoolPhase::Joining { joined }
    }
}

impl RootWorker {
    /// The threads that may be started and those that were started are as many as
    /// could be started at first, and no more threads are waited for than were
    /// started.
    pub open spec fn wf(self, limit: nat) -> bool {
        &&& self.available_parallelism + self.spawned == limit
        &&& self.phase matches PoolPhase::Joining { joined } ==> joined < self.spawned
    }

    /// The first thread at its beginning, on a machine that runs this many threads at
    /// once, or of which that is not known. It counts as one of them itself.
    pub open spec fn begin(parallelism: Option<usize>) -> RootWorker {
        RootWorker {
            available_parallelism: match parallelism {
                Some(threads) => (threads - 1) as usize,
                None => 0,
            },
            spawned: 0,
            phase: PoolPhase::Receiving,
        }
    }

    /// Whether the thread can learn this now.
    pub open spec fn takes<E>(self, event: PoolEvent<E>) -> bool {
        match self.phase {
            PoolPhase::Receiving => event is Task || event is Closed,
            PoolPhase::Copying { .. } => event is Copied,
            PoolPhase::Joining { .. } => event is Joined,
            PoolPhase::Done => false,
        }
    }

    /// Whether a thread is to be started, to work off what is behind a directory in
    /// the queue.
    pub open spec fn spawns(self, queue_empty: bool) -> bool {
        self.available_parallelism > 0 && !queue_empty
    }

    /// What the thread does next, or the error with which it ends.
    pub open spec fn after<E>(self, event: PoolEvent<E>) -> Result<RootWorker, ErrorView<E>> {
        match event {
            PoolEvent::Task { queue_empty } => if self.spawns(queue_empty) {
                Ok(
                    RootWorker {
                        available_parallelism: (self.available_parallelism - 1) as usize,
                        spawned: (self.spawned + 1) as usize,
                        phase: PoolPhase::Copying { spawn: true },
                    },
                )
            } else {
                Ok(RootWorker { phase: PoolPhase::Copying { spawn: false }, ..self })
            },
            PoolEvent::Copied(Ok(_)) => Ok(RootWorker { phase: PoolPhase::Receiving, ..self }),
            PoolEvent::Copied(Err(error)) => Err(error@),
            PoolEvent::Closed => Ok(RootWorker { phase: joining_phase(0, self.spawned), ..self }),
            PoolEvent::Joined(joined) => match joined_view(joined) {
                Ok(_) => Ok(
                    RootWorker {
                        phase: joining_phase(
                            (self.phase->Joining_joined + 1) as usize,
                            self.spawned,
                        ),
                        ..self
                    },
                ),
                Err(error) => Err(error),
            },
        }
    }
}

/// Results with the error taken by its view.
pub open spec fn worker_result_view<W, E>(result: Result<W, CopyError<E>>) -> Result<
    W,
    ErrorView<E>,
> {
    match result {
        Ok(worker) => Ok(worker),
        Err(error) => Err(error@),
    }
}

/// Begins the work of the first thread.
pub fn root_worker_thread(parallelism: Option<usize>) -> (worker: RootWorker)
    requires
        parallelism matches Some(threads) ==> threads > 0,
    ensures
        worker == RootWorker::begin(parallelism),
        worker.wf(worker.available_parallelism as nat),
{
    let threads: usize = match parallelism {
        Some(threads) => threads,
        None => 1,
    };
    RootWorker {
        available_parallelism: threads - 1,
        spawned: 0,
        phase: PoolPhase::Receiving,
    }
}

impl RootWorker {
    /// Whether the thread can learn this now.
    pub fn accepts<E>(&self, event: &PoolEvent<E>) -> (accepted: bool)
        ensures
            accepted == self.takes(*event),
    {
        match (self.phase, event) {
            (PoolPhase::Receiving, PoolEvent::Task { .. }) => true,
            (PoolPhase::Receiving, PoolEvent::Closed) => true,
            (PoolPhase::Copying { .. }, PoolEvent::Copied(_)) => true,
            (PoolPhase::Joining { .. }, PoolEvent::Joined(_)) => true,
            _ => false,
        }
    }

    /// Goes on with what the thread learned.
    pub fn advance<E>(self, event: PoolEvent<E>) -> (result: Result<RootWorker, CopyError<E>>)
        requires
            self.takes(event),
            self.wf((self.available_parallelism + self.spawned) as nat),
            self.available_parallelism + self.spawned <= usize::MAX,
        ensures
            worker_result_view(result) == self.after(event),
            result matches Ok(worker) ==> worker.wf(
                (self.available_parallelism + self.spawned) as nat,
            ),
    {
        match event {
            PoolEvent::Task { queue_empty } => {
                if self.available_parallelism > 0 && !queue_empty {
                    Ok(
                        RootWorker {
                            available_parallelism: self.available_parallelism - 1,
                            spawned: self.spawned + 1,
                            phase: PoolPhase::Copying { spawn: true },
                        },
                    )
                } else {
                    Ok(RootWorker { phase: PoolPhase::Copying { spawn: false }, ..self })
                }
            },
            PoolEvent::Copied(outcome) => match outcome {
                Ok(_) => Ok(RootWorker { phase: PoolPhase::Receiving, ..self }),
                Err(error) => Err(error),
            },
            PoolEvent::Closed => {
                if self.spawned == 0 {
                    Ok(RootWorker { phase: PoolPhase::Done, ..self })
                } else {
                    Ok(RootWorker { phase: PoolPhase::Joining { joined: 0 }, ..self })
                }
            },
            PoolEvent::Joined(thread) => match join_outcome(thread) {
                Ok(_) => {
                    let joined: usize = match self.phase {
                        PoolPhase::Joining { joined } => joined + 1,
                        _ => unreached(),
                    };
                    if joined == self.spawned {
                        Ok(RootWorker { phase: PoolPhase::Done, ..self })
                    } else {
                        Ok(RootWorker { phase: PoolPhase::Joining { joined }, ..self })
                    }
                },
                Err(error) => Err(error),
            },
        }
    }
}

/// A further thread: it takes a descriptor table of its own and copies directories
/// until there are no more.
#[derive(Debug, Clone, Copy, PartialEq, Eq, Structural)]
pub enum Worker {
    /// Taking a descriptor table of its own.
    Unsharing,
    /// Waiting for a directory.
    Receiving,
    /// Copying the directory that it got.
    Copying,
    /// All is done.
    Done,
}

/// What a further thread learns.
#[derive(Debug, PartialEq, Eq)]
pub enum WorkerEvent<E> {
    /// It has its own descriptor table, or could not get one.
    Unshared(Result<(), Failure<E>>),
    /// It got a directory.
    Task,
    /// The directory that it got is copied, or its copy failed.
    Copied(Result<(), CopyError<E>>),
    /// The queue is closed and empty.
    Closed,
}

impl Worker {
    /// Whether the thread can learn this now.
    pub open spec fn takes<E>(self, event: WorkerEvent<E>) -> bool {
        match self {
            Worker::Unsharing => event is Unshared,
            Worker::Receiving => event is Task || event is Closed,
            Worker::Copying => event is Copied,
            Worker::Done => false,
        }
    }

    /// What the thread does next, or the error with which it ends.
    pub open spec fn after<E>(self, event: WorkerEvent<E>) -> Result<Worker, ErrorView<E>> {
        match event {
            WorkerEvent::Unshared(Ok(_)) => Ok(Worker::Receiving),
            WorkerEvent::Unshared(Err(failure)) => Err(
                io_error_view(failure.error, Attempt::UnshareDescriptors, Subject::Nothing),
            ),
            WorkerEvent::Task => Ok(Worker::Copying),
            WorkerEvent::Copied(Ok(_)) => Ok(Worker::Receiving),
            WorkerEvent::Copied(Err(error)) => Err(error@),
            WorkerEvent::Closed => Ok(Worker::Done),
        }
    }

    /// Whether the thread can learn this now.
    pub fn accepts<E>(&self, event: &WorkerEvent<E>) -> (accepted: bool)
        ensures
            accepted == self.takes(*event),
    {
        match (self, event) {
            (Worker::Unsharing, WorkerEvent::Unshared(_)) => true,
            (Worker::Receiving, WorkerEvent::Task) => true,
            (Worker::Receiving, WorkerEvent::Closed) => true,
            (Worker::Copying, WorkerEvent::Copied(_)) => true,
            _ => false,
        }
    }

    /// Goes on with what the thread learned.
    pub fn advance<E>(self, event: WorkerEvent<E>) -> (result: Result<Worker, CopyError<E>>)
        requires
            self.takes(event),
        ensures
            worker_result_view(result) == self.after(event),
    {
        match event {
            WorkerEvent::Unshared(Ok(_)) => Ok(Worker::Receiving),
            WorkerEvent::Unshared(Err(f)) => Err(
                io_error(f.error, Attempt::UnshareDescriptors, Subject::Nothing),
            ),
            WorkerEvent::Task => Ok(Worker::Copying),
            WorkerEvent::Copied(Ok(_)) => Ok(Worker::Receiving),
            WorkerEvent::Copied(Err(error)) => Err(error),
            WorkerEvent::Closed => Ok(Worker::Done),
        }
    }
}

/// Begins the work of a further thread.
pub fn worker_thread() -> (worker: Worker)
    ensures
        worker == Worker::Unsharing,
{
    Worker::Unsharing
}

/// What the first thread does after these events.
pub open spec fn run<E>(worker: RootWorker, events: Seq<PoolEvent<E>>) -> Result<
    RootWorker,
    ErrorView<E>,
>
    decreases events.len(),
{
    if events.len() == 0 {
        Ok(worker)
    } else {
        match run(worker, events.drop_last()) {
            Ok(worker) => worker.after(events.last()),
            Err(error) => Err(error),
        }
    }
}

/// Whether each event is one that the thread could learn when it came.
pub open spec fn possible<E>(worker: RootWorker, events: Seq<PoolEvent<E>>) -> bool
    decreases events.len(),
{
    events.len() == 0 || {
        &&& possible(worker, events.drop_last())
        &&& run(worker, events.drop_last()) matches Ok(worker) && worker.takes(events.last())
    }
}

/// How many of the events are the end of a thread that was waited for.
pub open spec fn joins<E>(events: Seq<PoolEvent<E>>) -> nat
    decreases events.len(),
{
    if events.len() == 0 {
        0
    } else if events.last() is Joined {
        joins(events.drop_last()) + 1
    } else {
        joins(events.drop_last())
    }
}

/// Never more threads than the machine runs at once. Whatever the first thread
/// learns, it and the threads that it started are at most as many, or just itself
/// where that number is not known. And it is not done before it has seen every
/// thread that it started end well.
pub proof fn law_threads_are_bounded_and_joined<E>(
    parallelism: Option<usize>,
    events: Seq<PoolEvent<E>>,
)
    requires
        parallelism matches Some(threads) ==> threads > 0,
        possible(RootWorker::begin(parallelism), events),
    ensures
        run(RootWorker::begin(parallelism), events) matches Ok(worker) ==> {
            &&& worker.spawned + 1 <= match parallelism {
                Some(threads) => threads,
                None => 1,
            }
            &&& worker.wf(RootWorker::begin(parallelism).available_parallelism as nat)
            &&& worker.phase is Done ==> joins(events) == worker.spawned
        },
{
    lemma_joins(RootWorker::begin(parallelism), events);
}

/// How many threads were waited for, wherever the first thread stands.
proof fn lemma_joins<E>(start: RootWorker, events: Seq<PoolEvent<E>>)
    requires
        start.phase is Receiving,
        start.spawned == 0,
        possible(start, events),
    ensures
        run(start, events) matches Ok(worker) ==> {
            &&& worker.wf(start.available_parallelism as nat)
            &&& match worker.phase {
                PoolPhase::Joining { joined } => joins(events) == joined,
                PoolPhase::Done => joins(events) == worker.spawned,
                _ => joins(events) == 0,
            }
        },
    decreases events.len(),
{
    if events.len() > 0 {
        lemma_joins(start, events.drop_last());
    }
}

} // verus!
