//! Laws of the threads together: they copy all directories that are handed over, however
//! their work is interleaved, in whatever order the directories come, and where a call fails
//! they change nothing else.

use crate::c_path::child_path;
use crate::error::{CopyError, Failure};
use crate::file_id::FileId;
use crate::linux::dir::{DirCopy, Phase};
use crate::linux::laws::{
    begun, change, changes, enqueued, entries_read, law_a_run_changes_no_more_than_it_came_to,
    nodes_of, on_course, queue, run, tells, truthful,
};
use crate::linux::node::{Reply, TreeNode};
use crate::linux::pool::{Joined, PoolEvent, PoolPhase, RootWorker, Worker, WorkerEvent};
use crate::linux::tree_laws::{
    all_stand, lemma_entries_consistent, lemma_one_job, lemma_queued_stand, stand, stands,
    DirectoryAt, IdAt,
};
use crate::platform::Platform;
use crate::totals::{
    lemma_subsets_add, lemma_total_add, lemma_total_covers, lemma_total_has_no_order,
    lemma_total_of_fewer, lemma_total_push, lemma_total_splits, lemma_total_update, total,
};
use crate::tree::{
    branch_effects, entry_effects, forest_effects, image, listed_effects, listed_work,
    own_effects, queued_work, tree_effects, Effect, Source, SourceEntry, Work,
};
use crate::tree_laws::{law_a_directory_is_its_share, lemma_branches_split};
use vstd::multiset::Multiset;
use vstd::prelude::*;

verus! {

/// A directory that a thread took off the queue, and the answers that its copy has got.
pub struct Task<E> {
    pub node: TreeNode<Seq<u8>>,
    pub replies: Seq<Reply<Seq<u8>, E>>,
}

impl<E> Task<E> {
    /// The copy at its beginning.
    pub open spec fn start(self) -> DirCopy<Seq<u8>> {
        DirCopy::begin(self.node)
    }

    /// Whether the copy has not failed.
    pub open spec fn goes_well(self) -> bool {
        run(self.start(), self.replies) is Ok
    }

    /// Where the copy stands.
    pub open spec fn now(self) -> DirCopy<Seq<u8>> {
        run(self.start(), self.replies)->Ok_0
    }
}

/// Whether an answer to the call that is under way for a directory is one that the call can
/// give, and is true of the directories that the file system holds and of their identities,
/// as far as it speaks of them.
pub open spec fn is_true<E>(
    at: DirectoryAt,
    id_at: IdAt,
    task: Task<E>,
    reply: Reply<Seq<u8>, E>,
) -> bool {
    &&& task.now().takes(reply)
    &&& tells(task.now(), at(task.node.from), entries_read(task.replies), reply)
    &&& task.now().phase is StattingTarget ==> (reply matches Reply::Id(Ok(id)) ==> id == id_at(
        task.node.to,
    ))
}

/// The threads that work off the queue, and what they have done. The first thread is number
/// zero, and those that it started follow.
pub struct Crew<E> {
    /// The directories that were handed over.
    pub handed: Seq<TreeNode<Seq<u8>>>,
    /// Whether more of them can come.
    pub open: bool,
    pub queue: Seq<TreeNode<Seq<u8>>>,
    pub first: RootWorker,
    pub others: Seq<Worker>,
    /// All directories that were taken off the queue.
    pub tasks: Seq<Task<E>>,
    /// Which of them each thread is copying.
    pub current: Seq<Option<int>>,
    /// The threads that ended with an error.
    pub fallen: Set<int>,
    /// The lasting changes that were made, in their order.
    pub made: Seq<Effect>,
}

/// What can happen.
pub enum CrewEvent<E> {
    /// A directory is handed over.
    HandedOver { node: TreeNode<Seq<u8>> },
    /// No more directories will be handed over.
    HandedAll,
    /// A thread takes the next directory off the queue, which it finds empty behind it or not.
    Took { thread: int, queue_empty: bool },
    /// A call that a thread made for its directory is answered.
    Called { thread: int, reply: Reply<Seq<u8>, E> },
    /// A thread has copied its directory.
    Copied { thread: int },
    /// A thread has a descriptor table of its own, or could not get one.
    Unshared { thread: int, result: Result<(), Failure<E>> },
    /// A thread learns that the queue is closed and empty.
    Closed { thread: int },
    /// The first thread learns how the next of the others has ended.
    Joined { outcome: Joined<Result<(), CopyError<E>>> },
}

impl<E> Crew<E> {
    /// Before anything was handed over, on a machine that runs this many threads at once.
    pub open spec fn begin(parallelism: Option<usize>) -> Crew<E> {
        Crew {
            handed: seq![],
            open: true,
            queue: seq![],
            first: RootWorker::begin(parallelism),
            others: seq![],
            tasks: seq![],
            current: seq![None],
            fallen: Set::empty(),
            made: seq![],
        }
    }

    /// Whether a thread is copying a directory.
    pub open spec fn is_busy(self, thread: int) -> bool {
        0 <= thread < self.current.len() && self.current[thread] is Some
    }

    /// Whether a thread is there that is waiting.
    pub open spec fn is_waiting(self, thread: int) -> bool {
        0 <= thread < self.current.len() && self.current[thread] is None && !self.fallen.contains(
            thread,
        )
    }

    /// The directory that a thread is copying.
    pub open spec fn task(self, thread: int) -> Task<E> {
        self.tasks[self.current[thread]->0]
    }

    /// Whether no thread is copying a directory.
    pub open spec fn all_idle(self) -> bool {
        forall|thread: int| !(#[trigger] self.is_busy(thread))
    }

    /// Whether an event can happen. A call is answered truly of the directories that the file
    /// system holds, and of their identities; it may fail. The queue is closed when nobody is
    /// left who could send: no more directories will be handed over, and no thread is copying
    /// one.
    pub open spec fn can(self, at: DirectoryAt, id_at: IdAt, event: CrewEvent<E>) -> bool {
        match event {
            CrewEvent::HandedOver { node } => self.open && stands(at, node.from, at(node.from)),
            CrewEvent::HandedAll => true,
            CrewEvent::Took { thread, queue_empty } => self.is_waiting(thread)
                && self.queue.len() > 0 && if thread == 0 {
                self.first.takes(PoolEvent::<E>::Task { queue_empty })
            } else {
                self.others[thread - 1].takes(WorkerEvent::<E>::Task)
            },
            CrewEvent::Called { thread, reply } => self.is_busy(thread) && is_true(
                at,
                id_at,
                self.task(thread),
                reply,
            ),
            CrewEvent::Copied { thread } => self.is_busy(thread) && self.task(
                thread,
            ).now().phase is Finished && if thread == 0 {
                self.first.takes(PoolEvent::<E>::Copied(Ok(())))
            } else {
                self.others[thread - 1].takes(WorkerEvent::<E>::Copied(Ok(())))
            },
            CrewEvent::Unshared { thread, result } => self.is_waiting(thread) && thread > 0
                && self.others[thread - 1].takes(WorkerEvent::<E>::Unshared(result)),
            CrewEvent::Closed { thread } => self.is_waiting(thread) && !self.open
                && self.queue.len() == 0 && self.all_idle() && if thread == 0 {
                self.first.takes(PoolEvent::<E>::Closed)
            } else {
                self.others[thread - 1].takes(WorkerEvent::<E>::Closed)
            },
            CrewEvent::Joined { outcome } => {
                let joined = self.first.phase->Joining_joined as int;
                &&& self.is_waiting(0)
                &&& self.first.takes(PoolEvent::<E>::Joined(outcome))
                &&& if self.first.after(PoolEvent::<E>::Joined(outcome)) is Ok {
                    self.others[joined] is Done
                } else {
                    self.fallen.contains(joined + 1)
                }
            },
        }
    }

    /// What the first thread is after it has learned something.
    pub open spec fn first_after(self, event: PoolEvent<E>) -> RootWorker {
        self.first.after(event)->Ok_0
    }

    /// What the other threads are after one of them has learned something.
    pub open spec fn others_after(self, thread: int, event: WorkerEvent<E>) -> Seq<Worker> {
        self.others.update(thread - 1, self.others[thread - 1].after(event)->Ok_0)
    }

    /// The crew after a thread has taken a directory. The first thread may have started
    /// another one.
    pub open spec fn after_taking(self, thread: int, queue_empty: bool) -> Crew<E> {
        let first = if thread == 0 {
            self.first_after(PoolEvent::Task { queue_empty })
        } else {
            self.first
        };
        let spawned = thread == 0 && first.phase == (PoolPhase::Copying { spawn: true });
        Crew {
            queue: self.queue.drop_first(),
            first,
            others: if spawned {
                self.others.push(Worker::Unsharing)
            } else if thread == 0 {
                self.others
            } else {
                self.others_after(thread, WorkerEvent::Task)
            },
            tasks: self.tasks.push(Task { node: self.queue[0], replies: seq![] }),
            current: (if spawned {
                self.current.push(None)
            } else {
                self.current
            }).update(thread, Some(self.tasks.len() as int)),
            ..self
        }
    }

    /// The crew after a call was answered. A thread whose copy fails ends with its error.
    pub open spec fn after_call(self, thread: int, reply: Reply<Seq<u8>, E>) -> Crew<E> {
        let task = self.task(thread);
        let fails = task.now().after(reply) is Err;
        Crew {
            current: if fails {
                self.current.update(thread, None)
            } else {
                self.current
            },
            fallen: if fails {
                self.fallen.insert(thread)
            } else {
                self.fallen
            },
            queue: self.queue + enqueued(task.now(), reply),
            tasks: self.tasks.update(
                self.current[thread]->0,
                Task { node: task.node, replies: task.replies.push(reply) },
            ),
            made: self.made + change(task.now(), reply),
            ..self
        }
    }

    /// The crew after an event.
    pub open spec fn after(self, event: CrewEvent<E>) -> Crew<E> {
        match event {
            CrewEvent::HandedOver { node } => Crew {
                handed: self.handed.push(node),
                queue: self.queue.push(node),
                ..self
            },
            CrewEvent::HandedAll => Crew { open: false, ..self },
            CrewEvent::Took { thread, queue_empty } => self.after_taking(thread, queue_empty),
            CrewEvent::Called { thread, reply } => self.after_call(thread, reply),
            CrewEvent::Copied { thread } => if thread == 0 {
                Crew {
                    first: self.first_after(PoolEvent::Copied(Ok(()))),
                    current: self.current.update(thread, None),
                    ..self
                }
            } else {
                Crew {
                    others: self.others_after(thread, WorkerEvent::Copied(Ok(()))),
                    current: self.current.update(thread, None),
                    ..self
                }
            },
            CrewEvent::Unshared { thread, result } => if result is Ok {
                Crew { others: self.others_after(thread, WorkerEvent::Unshared(result)), ..self }
            } else {
                Crew { fallen: self.fallen.insert(thread), ..self }
            },
            CrewEvent::Closed { thread } => if thread == 0 {
                Crew { first: self.first_after(PoolEvent::Closed), ..self }
            } else {
                Crew { others: self.others_after(thread, WorkerEvent::Closed), ..self }
            },
            CrewEvent::Joined { outcome } => if self.first.after(
                PoolEvent::<E>::Joined(outcome),
            ) is Ok {
                Crew { first: self.first_after(PoolEvent::Joined(outcome)), ..self }
            } else {
                Crew { fallen: self.fallen.insert(0), ..self }
            },
        }
    }

    /// The crew after these events.
    pub open spec fn after_all(self, events: Seq<CrewEvent<E>>) -> Crew<E>
        decreases events.len(),
    {
        if events.len() == 0 {
            self
        } else {
            self.after_all(events.drop_last()).after(events.last())
        }
    }

    /// Whether these events can happen, one after the other.
    pub open spec fn can_all(
        self,
        at: DirectoryAt,
        id_at: IdAt,
        events: Seq<CrewEvent<E>>,
    ) -> bool
        decreases events.len(),
    {
        events.len() == 0 || {
            &&& self.can_all(at, id_at, events.drop_last())
            &&& self.after_all(events.drop_last()).can(at, id_at, events.last())
        }
    }
}

/// The directory at the top of the copy that a queued directory belongs to.
pub open spec fn top_of(id_at: IdAt, node: TreeNode<Seq<u8>>) -> FileId {
    match node.root_to_inode {
        Some(root) => root,
        None => id_at(node.to),
    }
}

/// The directory that is to be copied for a node.
pub open spec fn work_of(at: DirectoryAt, node: TreeNode<Seq<u8>>) -> Work {
    Work { from: node.from, to: node.to, dir: at(node.from) }
}

/// What a queued directory comes to: the changes that copying it, with all that is in it,
/// calls for.
pub open spec fn node_share(at: DirectoryAt, id_at: IdAt) -> spec_fn(TreeNode<Seq<u8>>) -> Multiset<
    Effect,
> {
    |node: TreeNode<Seq<u8>>|
        tree_effects(
            Platform::Linux,
            Some(top_of(id_at, node)),
            work_of(at, node),
        ).to_multiset()
}

/// The changes that were made for a directory.
spec fn made_share<E>() -> spec_fn(Task<E>) -> Multiset<Effect> {
    |task: Task<E>| changes(task.start(), task.replies).to_multiset()
}

/// The directories that were queued for a directory.
spec fn queued_share<E>() -> spec_fn(Task<E>) -> Multiset<TreeNode<Seq<u8>>> {
    |task: Task<E>| queue(task.start(), task.replies).to_multiset()
}

/// A directory itself.
spec fn task_node<E>() -> spec_fn(Task<E>) -> TreeNode<Seq<u8>> {
    |task: Task<E>| task.node
}

/// The top of the copy, once a copy has found it.
spec fn top_found(phase: Phase<Seq<u8>>) -> Option<FileId> {
    match phase {
        Phase::Reading { root } => Some(root),
        Phase::Identifying { root, .. } => Some(root),
        Phase::Copying { root, .. } => Some(root),
        Phase::Finished { root } => Some(root),
        _ => None,
    }
}

/// Whether all answers that the copy of a directory got were true.
spec fn all_true<E>(at: DirectoryAt, id_at: IdAt, task: Task<E>) -> bool
    decreases task.replies.len(),
{
    task.replies.len() == 0 || {
        let before = Task { node: task.node, replies: task.replies.drop_last() };
        &&& all_true(at, id_at, before)
        &&& before.goes_well()
        &&& is_true(at, id_at, before, task.replies.last())
    }
}

/// What holds of a directory that was taken off the queue.
spec fn task_holds<E>(at: DirectoryAt, id_at: IdAt, task: Task<E>) -> bool {
    stands(at, task.node.from, at(task.node.from)) && all_true(at, id_at, task)
}

/// The copy of a directory whose answers were true.
proof fn lemma_all_true<E>(at: DirectoryAt, id_at: IdAt, task: Task<E>)
    requires
        all_true(at, id_at, task),
    ensures
        truthful(task.start(), at(task.node.from), task.replies),
        task.goes_well() ==> {
            &&& task.now().node == task.node
            &&& top_found(task.now().phase) matches Some(root) ==> root == top_of(id_at, task.node)
        },
    decreases task.replies.len(),
{
    if task.replies.len() > 0 {
        let before = Task { node: task.node, replies: task.replies.drop_last() };
        lemma_all_true(at, id_at, before);
    }
}

/// Whether some thread is copying this directory.
spec fn is_held<E>(crew: Crew<E>, k: int) -> bool {
    exists|thread: int| #[trigger] crew.is_busy(thread) && crew.current[thread] == Some(k)
}

/// The thread that is copying this directory.
spec fn holder<E>(crew: Crew<E>, k: int) -> int {
    choose|thread: int| #[trigger] crew.is_busy(thread) && crew.current[thread] == Some(k)
}

/// Whether a thread ended with an error.
spec fn has_fallen<E>(crew: Crew<E>) -> bool {
    exists|thread: int| #[trigger] crew.fallen.contains(thread)
}

/// Whether the copy of a directory went well to its end.
spec fn is_complete<E>(task: Task<E>) -> bool {
    task.goes_well() && task.now().phase is Finished
}

/// What holds of the directories, throughout.
spec fn work_holds<E>(at: DirectoryAt, id_at: IdAt, crew: Crew<E>) -> bool {
    &&& forall|i: int|
        0 <= i < crew.queue.len() ==> stands(
            at,
            (#[trigger] crew.queue[i]).from,
            at(crew.queue[i].from),
        )
    &&& forall|k: int| 0 <= k < crew.tasks.len() ==> task_holds(at, id_at, #[trigger] crew.tasks[k])
    &&& forall|k: int|
        0 <= k < crew.tasks.len() ==> is_complete(#[trigger] crew.tasks[k]) || is_held(crew, k)
            || has_fallen(crew)
    &&& crew.made.to_multiset() == total(crew.tasks, made_share())
    &&& crew.handed.to_multiset().add(total(crew.tasks, queued_share()))
        == crew.tasks.map_values(task_node()).to_multiset().add(crew.queue.to_multiset())
}

/// What holds of the threads, throughout.
spec fn threads_hold<E>(crew: Crew<E>) -> bool {
    &&& crew.current.len() == crew.others.len() + 1
    &&& crew.first.available_parallelism + crew.first.spawned <= usize::MAX
    &&& crew.first.spawned == crew.others.len()
    &&& forall|thread: int| #[trigger] crew.is_busy(thread) ==> copies(crew, thread)
    &&& forall|one: int, other: int|
        #![trigger crew.is_busy(one), crew.is_busy(other)]
        crew.is_busy(one) && crew.is_busy(other) && crew.current[one] == crew.current[other] ==> one
            == other
    &&& forall|thread: int| #[trigger]
        crew.fallen.contains(thread) ==> 0 <= thread < crew.current.len() && if thread == 0 {
            !(crew.first.phase is Done)
        } else {
            !(crew.others[thread - 1] is Done)
        }
    &&& match crew.first.phase {
        PoolPhase::Joining { joined } => {
            &&& is_over(crew)
            &&& joined < crew.others.len()
            &&& forall|i: int| 0 <= i < joined ==> (#[trigger] crew.others[i]) is Done
        },
        PoolPhase::Done => {
            &&& is_over(crew)
            &&& forall|i: int| 0 <= i < crew.others.len() ==> (#[trigger] crew.others[i]) is Done
        },
        _ => true,
    }
}

/// Whether a thread is copying one of the directories, and so far well.
spec fn copies<E>(crew: Crew<E>, thread: int) -> bool {
    &&& 0 <= crew.current[thread]->0 < crew.tasks.len()
    &&& crew.task(thread).goes_well()
    &&& !crew.fallen.contains(thread)
    &&& if thread == 0 {
        crew.first.phase is Copying
    } else {
        crew.others[thread - 1] is Copying
    }
}

/// Whether there is nothing left to do.
spec fn is_over<E>(crew: Crew<E>) -> bool {
    !crew.open && crew.queue.len() == 0 && crew.all_idle()
}

/// An event keeps what holds of the threads.
proof fn lemma_threads_hold<E>(at: DirectoryAt, id_at: IdAt, crew: Crew<E>, event: CrewEvent<E>)
    requires
        threads_hold(crew),
        crew.can(at, id_at, event),
    ensures
        threads_hold(crew.after(event)),
{
    let next = crew.after(event);
    match event {
        CrewEvent::Called { thread, reply } => {
            let task = crew.task(thread);
            assert(crew.is_busy(thread));
            assert(task.replies.push(reply).drop_last() =~= task.replies);
            assert forall|other: int| #[trigger] next.is_busy(other) implies copies(
                next,
                other,
            ) by {
                assert(crew.is_busy(other));
            }
            assert forall|one: int, other: int|
                #![trigger next.is_busy(one), next.is_busy(other)]
                next.is_busy(one) && next.is_busy(other) && next.current[one]
                    == next.current[other] implies one == other by {
                assert(crew.is_busy(one) && crew.is_busy(other));
            }
        },
        CrewEvent::Took { thread, .. } => {
            assert forall|other: int| #[trigger] next.is_busy(other) implies copies(
                next,
                other,
            ) by {
                if other != thread {
                    assert(crew.is_busy(other));
                }
            }
            assert forall|one: int, other: int|
                #![trigger next.is_busy(one), next.is_busy(other)]
                next.is_busy(one) && next.is_busy(other) && next.current[one]
                    == next.current[other] implies one == other by {
                if one != thread {
                    assert(crew.is_busy(one));
                }
                if other != thread {
                    assert(crew.is_busy(other));
                }
            }
        },
        _ => {
            assert forall|other: int| #[trigger] next.is_busy(other) implies copies(
                next,
                other,
            ) by {
                assert(crew.is_busy(other));
            }
            assert forall|one: int, other: int|
                #![trigger next.is_busy(one), next.is_busy(other)]
                next.is_busy(one) && next.is_busy(other) && next.current[one]
                    == next.current[other] implies one == other by {
                assert(crew.is_busy(one) && crew.is_busy(other));
            }
        },
    }
    if is_over(crew) {
        assert(!crew.is_busy(match event {
            CrewEvent::Called { thread, .. } => thread,
            CrewEvent::Copied { thread } => thread,
            _ => 0,
        }));
        assert forall|thread: int| !(#[trigger] next.is_busy(thread)) by {
            assert(!crew.is_busy(thread));
        }
    }
}

/// What lies in a directory of the file system stands in it too.
proof fn lemma_child_stands(at: DirectoryAt, from: Seq<u8>, entries: Seq<SourceEntry>, i: int)
    requires
        stand(at, from, entries),
        0 <= i < entries.len(),
    ensures
        entries[i].item matches Source::Directory(dir) ==> stands(
            at,
            child_path(from, entries[i].name),
            dir,
        ),
    decreases entries.len(),
{
    if i < entries.len() - 1 {
        lemma_child_stands(at, from, entries.drop_last(), i);
        assert(entries.drop_last()[i] == entries[i]);
    }
}

/// What the copy of a directory has come to, and that all entries are consistent.
proof fn lemma_task_on_course<E>(at: DirectoryAt, id_at: IdAt, task: Task<E>)
    requires
        task_holds(at, id_at, task),
        task.goes_well(),
    ensures
        on_course(
            task.now(),
            task.node,
            at(task.node.from),
            entries_read(task.replies),
            changes(task.start(), task.replies),
            queue(task.start(), task.replies),
        ),
        forall|i: int|
            0 <= i < at(task.node.from).entries.len() ==> (
            #[trigger] at(task.node.from).entries[i]).item.consistent(),
{
    let dir = at(task.node.from);
    lemma_all_true(at, id_at, task);
    assert forall|i: int| 0 <= i < dir.entries.len() implies (
    #[trigger] dir.entries[i]).item.consistent() by {
        lemma_entries_consistent(at, task.node.from, dir.entries, i);
    }
    law_a_run_changes_no_more_than_it_came_to(task.node, dir, task.replies);
}

/// A directory that is queued by a copy stands in the file system.
proof fn lemma_queued_stands<E>(
    at: DirectoryAt,
    id_at: IdAt,
    task: Task<E>,
    reply: Reply<Seq<u8>, E>,
)
    requires
        task_holds(at, id_at, task),
        task.goes_well(),
    ensures
        forall|i: int|
            0 <= i < enqueued(task.now(), reply).len() ==> stands(
                at,
                (#[trigger] enqueued(task.now(), reply)[i]).from,
                at(enqueued(task.now(), reply)[i].from),
            ),
{
    let dir = at(task.node.from);
    lemma_task_on_course(at, id_at, task);
    match task.now().phase {
        Phase::Copying { .. } => {
            lemma_child_stands(
                at,
                task.node.from,
                dir.entries,
                entries_read(task.replies) - 1,
            );
        },
        _ => {},
    }
}

/// A call keeps what holds of its directory.
proof fn lemma_task_holds<E>(
    at: DirectoryAt,
    id_at: IdAt,
    task: Task<E>,
    reply: Reply<Seq<u8>, E>,
)
    requires
        task_holds(at, id_at, task),
        task.goes_well(),
        is_true(at, id_at, task, reply),
    ensures
        ({
            let longer = Task { node: task.node, replies: task.replies.push(reply) };
            &&& task_holds(at, id_at, longer)
            &&& run(longer.start(), longer.replies) == task.now().after(reply)
            &&& changes(longer.start(), longer.replies) == changes(task.start(), task.replies)
                + change(task.now(), reply)
            &&& queue(longer.start(), longer.replies) == queue(task.start(), task.replies)
                + enqueued(task.now(), reply)
        }),
{
    assert(task.replies.push(reply).drop_last() =~= task.replies);
}

/// A call keeps what holds of the directories.
proof fn lemma_call_holds<E>(
    at: DirectoryAt,
    id_at: IdAt,
    crew: Crew<E>,
    thread: int,
    reply: Reply<Seq<u8>, E>,
)
    requires
        threads_hold(crew),
        work_holds(at, id_at, crew),
        crew.can(at, id_at, CrewEvent::Called { thread, reply }),
    ensures
        work_holds(at, id_at, crew.after_call(thread, reply)),
{
    let next = crew.after_call(thread, reply);
    let k = crew.current[thread]->0;
    let task = crew.tasks[k];
    let longer = Task { node: task.node, replies: task.replies.push(reply) };
    let changed = change(task.now(), reply);
    let sent = enqueued(task.now(), reply);
    assert(crew.is_busy(thread));
    lemma_task_holds(at, id_at, task, reply);
    lemma_queued_stands(at, id_at, task, reply);
    assert forall|i: int| 0 <= i < next.queue.len() implies stands(
        at,
        (#[trigger] next.queue[i]).from,
        at(next.queue[i].from),
    ) by {
        if i < crew.queue.len() {
            assert(next.queue[i] == crew.queue[i]);
        } else {
            assert(next.queue[i] == sent[i - crew.queue.len()]);
        }
    }
    assert forall|j: int| 0 <= j < next.tasks.len() implies task_holds(
        at,
        id_at,
        #[trigger] next.tasks[j],
    ) by {
        if j != k {
            assert(next.tasks[j] == crew.tasks[j]);
        }
    }
    assert forall|j: int| 0 <= j < next.tasks.len() implies is_complete(#[trigger] next.tasks[j])
        || is_held(next, j) || has_fallen(next) by {
        if task.now().after(reply) is Err {
            assert(next.fallen.contains(thread));
        } else if j == k {
            assert(next.is_busy(thread));
        } else {
            assert(next.tasks[j] == crew.tasks[j]);
            if is_held(crew, j) {
                assert(next.is_busy(holder(crew, j)));
            }
            lemma_still_fallen(crew, next);
        }
    }
    vstd::seq_lib::lemma_multiset_commutative(crew.made, changed);
    vstd::seq_lib::lemma_multiset_commutative(crew.queue, sent);
    vstd::seq_lib::lemma_multiset_commutative(changes(task.start(), task.replies), changed);
    vstd::seq_lib::lemma_multiset_commutative(queue(task.start(), task.replies), sent);
    lemma_total_update(crew.tasks, k, longer, changed.to_multiset(), made_share());
    lemma_total_update(crew.tasks, k, longer, sent.to_multiset(), queued_share());
    assert(next.made.to_multiset() =~= total(next.tasks, made_share()));
    assert(next.tasks.map_values(task_node()) =~= crew.tasks.map_values(task_node()));
    let handed = crew.handed.to_multiset();
    let nodes = crew.tasks.map_values(task_node()).to_multiset();
    let more = sent.to_multiset();
    assert(handed.add(total(crew.tasks, queued_share()).add(more)) =~= handed.add(
        total(crew.tasks, queued_share()),
    ).add(more));
    assert(nodes.add(crew.queue.to_multiset().add(more)) =~= nodes.add(
        crew.queue.to_multiset(),
    ).add(more));
}

/// Taking a directory keeps what holds of the directories.
proof fn lemma_taking_holds<E>(
    at: DirectoryAt,
    id_at: IdAt,
    crew: Crew<E>,
    thread: int,
    queue_empty: bool,
)
    requires
        threads_hold(crew),
        work_holds(at, id_at, crew),
        crew.can(at, id_at, CrewEvent::Took { thread, queue_empty }),
    ensures
        work_holds(at, id_at, crew.after_taking(thread, queue_empty)),
{
    broadcast use vstd::seq_lib::group_to_multiset_ensures;

    let next = crew.after_taking(thread, queue_empty);
    let node = crew.queue[0];
    let task = Task::<E> { node, replies: seq![] };
    let count = crew.tasks.len() as int;
    assert forall|i: int| 0 <= i < next.queue.len() implies stands(
        at,
        (#[trigger] next.queue[i]).from,
        at(next.queue[i].from),
    ) by {
        assert(next.queue[i] == crew.queue[i + 1]);
    }
    assert forall|j: int| 0 <= j < next.tasks.len() implies task_holds(
        at,
        id_at,
        #[trigger] next.tasks[j],
    ) by {
        if j < count {
            assert(next.tasks[j] == crew.tasks[j]);
        } else {
            assert(next.tasks[j] == task);
        }
    }
    assert forall|j: int| 0 <= j < next.tasks.len() implies is_complete(#[trigger] next.tasks[j])
        || is_held(next, j) || has_fallen(next) by {
        if j == count {
            assert(next.is_busy(thread));
        } else {
            assert(next.tasks[j] == crew.tasks[j]);
            if is_held(crew, j) {
                assert(next.is_busy(holder(crew, j)));
            }
            lemma_still_fallen(crew, next);
        }
    }
    lemma_total_push(crew.tasks, task, made_share());
    lemma_total_push(crew.tasks, task, queued_share());
    assert(changes(task.start(), task.replies) =~= Seq::<Effect>::empty());
    assert(queue(task.start(), task.replies) =~= Seq::<TreeNode<Seq<u8>>>::empty());
    assert(next.made.to_multiset() =~= total(next.tasks, made_share()));
    assert(next.tasks.map_values(task_node()) =~= crew.tasks.map_values(task_node()).push(node));
    assert(crew.queue =~= seq![node] + next.queue);
    assert(crew.queue.drop_first() =~= crew.queue.remove(0));
    assert(next.queue.to_multiset() =~= crew.queue.to_multiset().remove(node));
    assert(crew.queue.contains(node));
    assert(crew.queue.to_multiset().count(node) > 0);
    assert(total(next.tasks, queued_share()) =~= total(crew.tasks, queued_share()));
    let nodes = crew.tasks.map_values(task_node()).to_multiset();
    assert(nodes.insert(node).add(crew.queue.to_multiset().remove(node)) =~= nodes.add(
        crew.queue.to_multiset(),
    ));
}

/// Threads that have fallen stay fallen.
proof fn lemma_still_fallen<E>(crew: Crew<E>, next: Crew<E>)
    requires
        crew.fallen.subset_of(next.fallen),
    ensures
        has_fallen(crew) ==> has_fallen(next),
{
    if has_fallen(crew) {
        let thread = choose|thread: int| #[trigger] crew.fallen.contains(thread);
        assert(next.fallen.contains(thread));
    }
}

/// An event keeps what holds of the directories.
proof fn lemma_work_holds<E>(at: DirectoryAt, id_at: IdAt, crew: Crew<E>, event: CrewEvent<E>)
    requires
        threads_hold(crew),
        work_holds(at, id_at, crew),
        crew.can(at, id_at, event),
    ensures
        work_holds(at, id_at, crew.after(event)),
{
    broadcast use vstd::seq_lib::group_to_multiset_ensures;

    let next = crew.after(event);
    match event {
        CrewEvent::Called { thread, reply } => {
            lemma_call_holds(at, id_at, crew, thread, reply);
        },
        CrewEvent::Took { thread, queue_empty } => {
            lemma_taking_holds(at, id_at, crew, thread, queue_empty);
        },
        CrewEvent::HandedOver { node } => {
            assert forall|i: int| 0 <= i < next.queue.len() implies stands(
                at,
                (#[trigger] next.queue[i]).from,
                at(next.queue[i].from),
            ) by {
                if i < crew.queue.len() {
                    assert(next.queue[i] == crew.queue[i]);
                }
            }
            lemma_still_busy(crew, next);
            lemma_still_fallen(crew, next);
            let queued = total(crew.tasks, queued_share());
            let nodes = crew.tasks.map_values(task_node()).to_multiset();
            assert(crew.handed.to_multiset().insert(node).add(queued)
                =~= crew.handed.to_multiset().add(queued).insert(node));
            assert(nodes.add(crew.queue.to_multiset().insert(node)) =~= nodes.add(
                crew.queue.to_multiset(),
            ).insert(node));
        },
        CrewEvent::Copied { thread } => {
            lemma_still_fallen(crew, next);
            assert(crew.is_busy(thread));
            assert forall|j: int| 0 <= j < next.tasks.len() implies is_complete(
                #[trigger] next.tasks[j],
            ) || is_held(next, j) || has_fallen(next) by {
                assert(next.tasks[j] == crew.tasks[j]);
                if is_held(crew, j) && holder(crew, j) != thread {
                    assert(next.is_busy(holder(crew, j)));
                }
            }
        },
        _ => {
            lemma_still_busy(crew, next);
            lemma_still_fallen(crew, next);
        },
    }
}

/// Threads that go on with the same directories are as busy as before.
proof fn lemma_still_busy<E>(crew: Crew<E>, next: Crew<E>)
    requires
        next.current == crew.current,
    ensures
        forall|k: int| #[trigger] is_held(crew, k) ==> is_held(next, k),
{
    assert forall|k: int| #[trigger] is_held(crew, k) implies is_held(next, k) by {
        assert(next.is_busy(holder(crew, k)));
    }
}

/// What holds throughout does so after all that can happen.
proof fn lemma_all_hold<E>(
    at: DirectoryAt,
    id_at: IdAt,
    parallelism: Option<usize>,
    events: Seq<CrewEvent<E>>,
)
    requires
        parallelism matches Some(threads) ==> threads > 0,
        Crew::<E>::begin(parallelism).can_all(at, id_at, events),
    ensures
        threads_hold(Crew::<E>::begin(parallelism).after_all(events)),
        work_holds(at, id_at, Crew::<E>::begin(parallelism).after_all(events)),
    decreases events.len(),
{
    broadcast use vstd::seq_lib::group_to_multiset_ensures;

    let crew = Crew::<E>::begin(parallelism);
    if events.len() == 0 {
        assert(crew.made.to_multiset() =~= total(crew.tasks, made_share()));
        assert(crew.tasks.map_values(task_node()) =~= Seq::<TreeNode<Seq<u8>>>::empty());
        assert(crew.handed.to_multiset().add(total(crew.tasks, queued_share()))
            =~= crew.tasks.map_values(task_node()).to_multiset().add(crew.queue.to_multiset()));
    } else {
        let before = crew.after_all(events.drop_last());
        lemma_all_hold(at, id_at, parallelism, events.drop_last());
        lemma_threads_hold(at, id_at, before, events.last());
        lemma_work_holds(at, id_at, before, events.last());
    }
}

/// The directories that were queued for these, one behind the other.
spec fn all_queued<E>(tasks: Seq<Task<E>>) -> Seq<TreeNode<Seq<u8>>>
    decreases tasks.len(),
{
    if tasks.len() == 0 {
        seq![]
    } else {
        all_queued(tasks.drop_last()) + queue(tasks.last().start(), tasks.last().replies)
    }
}

/// What the directories that were queued for a directory come to.
spec fn below_share<E>(at: DirectoryAt, id_at: IdAt) -> spec_fn(Task<E>) -> Multiset<Effect> {
    |task: Task<E>| total(queue(task.start(), task.replies), node_share(at, id_at))
}

/// What a directory comes to.
spec fn task_share<E>(at: DirectoryAt, id_at: IdAt) -> spec_fn(Task<E>) -> Multiset<Effect> {
    |task: Task<E>| node_share(at, id_at)(task.node)
}

proof fn lemma_all_queued<E>(at: DirectoryAt, id_at: IdAt, tasks: Seq<Task<E>>)
    ensures
        all_queued(tasks).to_multiset() == total(tasks, queued_share()),
        total(all_queued(tasks), node_share(at, id_at)) == total(tasks, below_share(at, id_at)),
    decreases tasks.len(),
{
    broadcast use vstd::seq_lib::group_to_multiset_ensures;

    if tasks.len() == 0 {
        assert(all_queued(tasks).to_multiset() =~= total(tasks, queued_share()));
    } else {
        let last = queue(tasks.last().start(), tasks.last().replies);
        let before = all_queued(tasks.drop_last());
        lemma_all_queued(at, id_at, tasks.drop_last());
        vstd::seq_lib::lemma_multiset_commutative(before, last);
        lemma_total_add(before, last, node_share(at, id_at));
    }
}

proof fn lemma_task_shares<E>(at: DirectoryAt, id_at: IdAt, tasks: Seq<Task<E>>)
    ensures
        total(tasks.map_values(task_node()), node_share(at, id_at)) == total(
            tasks,
            task_share(at, id_at),
        ),
    decreases tasks.len(),
{
    if tasks.len() > 0 {
        lemma_task_shares(at, id_at, tasks.drop_last());
        assert(tasks.map_values(task_node()).drop_last() =~= tasks.drop_last().map_values(
            task_node(),
        ));
    }
}

/// The directories that are queued under one top come to what they come to as trees.
proof fn lemma_forest_share(at: DirectoryAt, id_at: IdAt, works: Seq<Work>, root: FileId)
    requires
        all_stand(at, works),
    ensures
        total(nodes_of(works, root), node_share(at, id_at)) == forest_effects(
            Platform::Linux,
            Some(root),
            works,
        ),
    decreases works.len(),
{
    if works.len() > 0 {
        let before = works.drop_last();
        assert forall|k: int| 0 <= k < before.len() implies stands(
            at,
            (#[trigger] before[k]).from,
            before[k].dir,
        ) by {
            assert(before[k] == works[k]);
        }
        lemma_forest_share(at, id_at, before, root);
        assert(works[works.len() - 1] == works.last());
        assert(nodes_of(works, root).drop_last() =~= nodes_of(before, root));
        assert(work_of(at, nodes_of(works, root).last()) == works.last());
    }
}

/// A directory that was copied to the end comes to the changes that were made for it, and to
/// what the directories come to that were queued for it.
proof fn lemma_task_splits<E>(at: DirectoryAt, id_at: IdAt, task: Task<E>)
    requires
        task_holds(at, id_at, task),
        is_complete(task),
    ensures
        task_share(at, id_at)(task) == made_share()(task).add(below_share(at, id_at)(task)),
{
    let work = work_of(at, task.node);
    let root = task.now().phase->Finished_root;
    lemma_all_true(at, id_at, task);
    lemma_one_job(at, work, root, task.node.root_to_inode, task.replies);
    assert(task.node == TreeNode {
        from: work.from,
        to: work.to,
        root_to_inode: task.node.root_to_inode,
    });
    assert(root == top_of(id_at, task.node));
    law_a_directory_is_its_share(Platform::Linux, Some(root), work);
    lemma_forest_share(at, id_at, queued_work(Platform::Linux, Some(root), work), root);
    assert(own_effects(Platform::Linux, Some(root), work) == changes(task.start(), task.replies));
}

/// When the first thread is done, no thread has fallen, and every directory was copied to the
/// end.
proof fn lemma_all_complete<E>(at: DirectoryAt, id_at: IdAt, crew: Crew<E>)
    requires
        threads_hold(crew),
        work_holds(at, id_at, crew),
        crew.first.phase is Done,
    ensures
        forall|thread: int| !(#[trigger] crew.fallen.contains(thread)),
        forall|k: int| 0 <= k < crew.tasks.len() ==> is_complete(#[trigger] crew.tasks[k]),
{
    assert forall|thread: int| !(#[trigger] crew.fallen.contains(thread)) by {
        if crew.fallen.contains(thread) && thread > 0 {
            assert(crew.others[thread - 1] is Done);
        }
    }
    assert forall|k: int| 0 <= k < crew.tasks.len() implies is_complete(
        #[trigger] crew.tasks[k],
    ) by {
        if is_held(crew, k) {
            assert(!crew.is_busy(holder(crew, k)));
        }
    }
}

/// What was handed over and what was queued is what was taken and what is still queued, by
/// what it all comes to.
proof fn lemma_balance<E>(at: DirectoryAt, id_at: IdAt, crew: Crew<E>)
    requires
        work_holds(at, id_at, crew),
    ensures
        total(crew.handed, node_share(at, id_at)).add(total(crew.tasks, below_share(at, id_at)))
            == total(crew.tasks, task_share(at, id_at)).add(
            total(crew.queue, node_share(at, id_at)),
        ),
{
    let share = node_share(at, id_at);
    let nodes = crew.tasks.map_values(task_node());
    let queued = all_queued(crew.tasks);
    lemma_task_shares(at, id_at, crew.tasks);
    lemma_all_queued(at, id_at, crew.tasks);
    vstd::seq_lib::lemma_multiset_commutative(crew.handed, queued);
    vstd::seq_lib::lemma_multiset_commutative(nodes, crew.queue);
    lemma_total_has_no_order(crew.handed + queued, nodes + crew.queue, share);
    lemma_total_add(crew.handed, queued, share);
    lemma_total_add(nodes, crew.queue, share);
}

/// The threads together copy all that is handed over. Let directories be handed over while
/// threads take them off the queue and copy them, each thread making one call after the
/// other and the calls of all being interleaved in whatever way, and let all answers be
/// true. When the first thread is done, no thread ended with an error, all other threads are
/// done too, no directory is left in the queue, and the changes that were made are what the
/// directories come to that were handed over: the images of their trees, each change as
/// often as the trees call for it, and nothing else.
pub proof fn law_threads_copy_all_that_is_handed_over<E>(
    at: DirectoryAt,
    id_at: IdAt,
    parallelism: Option<usize>,
    events: Seq<CrewEvent<E>>,
)
    requires
        parallelism matches Some(threads) ==> threads > 0,
        Crew::<E>::begin(parallelism).can_all(at, id_at, events),
        Crew::<E>::begin(parallelism).after_all(events).first.phase is Done,
    ensures
        ({
            let crew = Crew::<E>::begin(parallelism).after_all(events);
            &&& crew.queue.len() == 0
            &&& forall|thread: int| !(#[trigger] crew.fallen.contains(thread))
            &&& forall|i: int| 0 <= i < crew.others.len() ==> (#[trigger] crew.others[i]) is Done
            &&& crew.made.to_multiset() == total(crew.handed, node_share(at, id_at))
        }),
{
    let crew = Crew::<E>::begin(parallelism).after_all(events);
    let share = node_share(at, id_at);
    lemma_all_hold(at, id_at, parallelism, events);
    lemma_all_complete(at, id_at, crew);
    assert forall|k: int| 0 <= k < crew.tasks.len() implies task_share(at, id_at)(
        #[trigger] crew.tasks[k],
    ) == made_share()(crew.tasks[k]).add(below_share(at, id_at)(crew.tasks[k])) by {
        lemma_task_splits(at, id_at, crew.tasks[k]);
    }
    lemma_total_splits(
        crew.tasks,
        task_share(at, id_at),
        made_share(),
        below_share(at, id_at),
    );
    lemma_balance(at, id_at, crew);
    let below = total(crew.tasks, below_share(at, id_at));
    assert(total(crew.tasks, task_share(at, id_at)).add(Multiset::empty()) =~= total(
        crew.tasks,
        task_share(at, id_at),
    ));
    assert(total(crew.handed, share).add(below) == crew.made.to_multiset().add(below));
    assert forall|effect: Effect|
        crew.made.to_multiset().count(effect) == total(crew.handed, share).count(effect) by {
        assert(total(crew.handed, share).add(below).count(effect)
            == crew.made.to_multiset().add(below).count(effect));
    }
    assert(crew.made.to_multiset() =~= total(crew.handed, share));
}

/// What holds of the directories among entries holds of those among the first of them.
proof fn lemma_first_stand(at: DirectoryAt, from: Seq<u8>, entries: Seq<SourceEntry>, count: int)
    requires
        stand(at, from, entries),
        0 <= count <= entries.len(),
    ensures
        stand(at, from, entries.take(count)),
    decreases entries.len(),
{
    if count == entries.len() {
        assert(entries.take(count) =~= entries);
    } else {
        lemma_first_stand(at, from, entries.drop_last(), count);
        assert(entries.drop_last().take(count) =~= entries.take(count));
    }
}

/// The first entries lead to no more than all of them.
proof fn lemma_first_branches(
    root: Option<FileId>,
    from: Seq<u8>,
    to: Seq<u8>,
    entries: Seq<SourceEntry>,
    count: int,
)
    requires
        0 <= count <= entries.len(),
    ensures
        branch_effects(
            Platform::Linux,
            root,
            from,
            to,
            entries.take(count),
        ).to_multiset().subset_of(
            branch_effects(Platform::Linux, root, from, to, entries).to_multiset(),
        ),
    decreases entries.len(),
{
    if count == entries.len() {
        assert(entries.take(count) =~= entries);
    } else {
        let before = entries.drop_last();
        let rest = branch_effects(Platform::Linux, root, from, to, before);
        let last = entry_effects(Platform::Linux, root, from, to, entries[entries.len() - 1]);
        lemma_first_branches(root, from, to, before, count);
        assert(before.take(count) =~= entries.take(count));
        vstd::seq_lib::lemma_multiset_commutative(rest, last);
        assert(branch_effects(Platform::Linux, root, from, to, entries) == rest + last);
    }
}

/// The first entries of a directory lead to what is changed for them on the spot, and to what
/// the directories come to that are queued for them.
proof fn lemma_first_share(
    at: DirectoryAt,
    id_at: IdAt,
    node: TreeNode<Seq<u8>>,
    root: FileId,
    count: int,
)
    requires
        stands(at, node.from, at(node.from)),
        0 <= count <= at(node.from).entries.len(),
    ensures
        ({
            let first = at(node.from).entries.take(count);
            branch_effects(
                Platform::Linux,
                Some(root),
                node.from,
                node.to,
                first,
            ).to_multiset() == listed_effects(
                Platform::Linux,
                Some(root),
                node.from,
                node.to,
                first,
            ).to_multiset().add(
                total(
                    nodes_of(
                        listed_work(Platform::Linux, Some(root), node.from, node.to, first),
                        root,
                    ),
                    node_share(at, id_at),
                ),
            )
        }),
{
    let entries = at(node.from).entries;
    let first = entries.take(count);
    lemma_first_stand(at, node.from, entries, count);
    lemma_queued_stand(at, Some(root), node.from, node.to, first);
    lemma_forest_share(
        at,
        id_at,
        listed_work(Platform::Linux, Some(root), node.from, node.to, first),
        root,
    );
    lemma_branches_split(Platform::Linux, Some(root), node.from, node.to, first);
}

/// What was changed for a directory whose copy goes well, and what was queued for it, is no
/// more than it comes to.
proof fn lemma_good_task_covers<E>(at: DirectoryAt, id_at: IdAt, task: Task<E>)
    requires
        task_holds(at, id_at, task),
        task.goes_well(),
    ensures
        made_share()(task).add(below_share(at, id_at)(task)).subset_of(
            task_share(at, id_at)(task),
        ),
{
    broadcast use vstd::seq_lib::group_to_multiset_ensures;

    let node = task.node;
    let dir = at(node.from);
    let made = changes(task.start(), task.replies);
    let queued = queue(task.start(), task.replies);
    let share = node_share(at, id_at);
    let root = top_of(id_at, node);
    let read = entries_read(task.replies);
    let top = image(Platform::Linux, Source::Directory(dir), node.from, node.to);
    let whole = branch_effects(Platform::Linux, Some(root), node.from, node.to, dir.entries);
    let all = task_share(at, id_at)(task);
    lemma_all_true(at, id_at, task);
    lemma_task_on_course(at, id_at, task);
    vstd::seq_lib::lemma_multiset_commutative(top, whole);
    assert(all == top.to_multiset().add(whole.to_multiset()));
    let count = match task.now().phase {
        Phase::Reading { .. } => read as int,
        Phase::Identifying { .. } => read - 1,
        Phase::Copying { .. } => read - 1,
        Phase::Finished { .. } => read as int,
        _ => 0,
    };
    let first = dir.entries.take(count);
    let seen = listed_effects(Platform::Linux, Some(root), node.from, node.to, first);
    let done = branch_effects(Platform::Linux, Some(root), node.from, node.to, first);
    lemma_first_share(at, id_at, node, root, count);
    lemma_first_branches(Some(root), node.from, node.to, dir.entries, count);
    vstd::seq_lib::lemma_multiset_commutative(top, seen);
    match task.now().phase {
        Phase::Copying { name, step, .. } => {
            let entry = dir.entries[count];
            let part = begun(step, entry.item, child_path(node.to, name));
            let next = entry_effects(Platform::Linux, Some(root), node.from, node.to, entry);
            let more = dir.entries.take(read as int);
            assert(more.drop_last() =~= first);
            assert(more[more.len() - 1] == entry);
            lemma_first_branches(Some(root), node.from, node.to, dir.entries, read as int);
            vstd::seq_lib::lemma_multiset_commutative(done, next);
            assert(branch_effects(Platform::Linux, Some(root), node.from, node.to, more) == done
                + next);
            assert(part.to_multiset().subset_of(next.to_multiset())) by {
                if part.len() > 0 {
                    assert(part =~= next.take(1));
                    assert(next =~= next.take(1) + next.skip(1));
                    vstd::seq_lib::lemma_multiset_commutative(next.take(1), next.skip(1));
                } else {
                    assert(part =~= Seq::<Effect>::empty());
                }
            }
            assert(made == top + seen + part);
            vstd::seq_lib::lemma_multiset_commutative(top + seen, part);
            lemma_subsets_add(
                done.to_multiset(),
                part.to_multiset(),
                done.to_multiset(),
                next.to_multiset(),
            );
            lemma_subsets_add(
                top.to_multiset(),
                done.to_multiset().add(part.to_multiset()),
                top.to_multiset(),
                whole.to_multiset(),
            );
            assert(made.to_multiset().add(total(queued, share)) =~= top.to_multiset().add(
                done.to_multiset().add(part.to_multiset()),
            ));
        },
        Phase::Reading { .. } => {
            lemma_subsets_add(
                top.to_multiset(),
                done.to_multiset(),
                top.to_multiset(),
                whole.to_multiset(),
            );
            assert(made.to_multiset().add(total(queued, share)) =~= top.to_multiset().add(
                done.to_multiset(),
            ));
        },
        Phase::Identifying { .. } => {
            lemma_subsets_add(
                top.to_multiset(),
                done.to_multiset(),
                top.to_multiset(),
                whole.to_multiset(),
            );
            assert(made.to_multiset().add(total(queued, share)) =~= top.to_multiset().add(
                done.to_multiset(),
            ));
        },
        Phase::Finished { .. } => {
            assert(first =~= dir.entries);
            assert(made.to_multiset().add(total(queued, share)) =~= all);
        },
        _ => {
            assert(total(queued, share) == Multiset::<Effect>::empty());
            assert(made == top || made =~= Seq::<Effect>::empty());
        },
    }
}

/// What was changed for a directory, and what was queued for it, is no more than it comes to,
/// also where its copy failed.
proof fn lemma_task_covers<E>(at: DirectoryAt, id_at: IdAt, task: Task<E>)
    requires
        task_holds(at, id_at, task),
    ensures
        made_share()(task).add(below_share(at, id_at)(task)).subset_of(
            task_share(at, id_at)(task),
        ),
{
    if task.goes_well() {
        lemma_good_task_covers(at, id_at, task);
    } else {
        let before = Task { node: task.node, replies: task.replies.drop_last() };
        lemma_good_task_covers(at, id_at, before);
        assert(changes(task.start(), task.replies) =~= changes(before.start(), before.replies));
        assert(queue(task.start(), task.replies) =~= queue(before.start(), before.replies));
    }
}

/// Nothing is changed but what was handed over calls for, whatever fails. Let directories be
/// handed over and copied as above, but let calls fail too, each thread ending with the
/// error of its copy, and let it all be seen at any time. The changes that were made are
/// among those that the directories come to that were handed over, and none was made more
/// often than these call for it. A file that was being filled when its copy failed may hold
/// part of its bytes.
pub proof fn law_threads_change_nothing_else<E>(
    at: DirectoryAt,
    id_at: IdAt,
    parallelism: Option<usize>,
    events: Seq<CrewEvent<E>>,
)
    requires
        parallelism matches Some(threads) ==> threads > 0,
        Crew::<E>::begin(parallelism).can_all(at, id_at, events),
    ensures
        ({
            let crew = Crew::<E>::begin(parallelism).after_all(events);
            crew.made.to_multiset().subset_of(total(crew.handed, node_share(at, id_at)))
        }),
{
    let crew = Crew::<E>::begin(parallelism).after_all(events);
    let share = node_share(at, id_at);
    let made = crew.made.to_multiset();
    let below = total(crew.tasks, below_share(at, id_at));
    let tasks = total(crew.tasks, task_share(at, id_at));
    lemma_all_hold(at, id_at, parallelism, events);
    assert forall|k: int| 0 <= k < crew.tasks.len() implies made_share()(
        #[trigger] crew.tasks[k],
    ).add(below_share(at, id_at)(crew.tasks[k])).subset_of(
        task_share(at, id_at)(crew.tasks[k]),
    ) by {
        lemma_task_covers(at, id_at, crew.tasks[k]);
    }
    lemma_total_covers(
        crew.tasks,
        task_share(at, id_at),
        made_share(),
        below_share(at, id_at),
    );
    lemma_balance(at, id_at, crew);
    assert forall|effect: Effect| #[trigger] made.count(effect) <= total(crew.handed, share).count(
        effect,
    ) by {
        assert(made.add(below).count(effect) <= tasks.count(effect));
        assert(total(crew.handed, share).add(below).count(effect) == tasks.add(
            total(crew.queue, share),
        ).count(effect));
    }
}

/// One more event.
proof fn lemma_one_more_event<E>(
    at: DirectoryAt,
    id_at: IdAt,
    start: Crew<E>,
    events: Seq<CrewEvent<E>>,
    event: CrewEvent<E>,
)
    requires
        start.can_all(at, id_at, events),
        start.after_all(events).can(at, id_at, event),
    ensures
        start.can_all(at, id_at, events.push(event)),
        start.after_all(events.push(event)) == start.after_all(events).after(event),
{
    assert(events.push(event).drop_last() =~= events);
}

/// Each answer was true when it came, and the copy went well up to it.
proof fn lemma_each_was_true<E>(at: DirectoryAt, id_at: IdAt, task: Task<E>, i: int)
    requires
        all_true(at, id_at, task),
        task.goes_well(),
        0 <= i < task.replies.len(),
    ensures
        ({
            let before = Task { node: task.node, replies: task.replies.take(i) };
            &&& before.goes_well()
            &&& is_true(at, id_at, before, task.replies[i])
            &&& before.now().after(task.replies[i]) is Ok
        }),
    decreases task.replies.len(),
{
    let shorter = Task { node: task.node, replies: task.replies.drop_last() };
    if i == task.replies.len() - 1 {
        assert(task.replies.take(i) =~= shorter.replies);
    } else {
        lemma_each_was_true(at, id_at, shorter, i);
        assert(shorter.replies.take(i) =~= task.replies.take(i));
        assert(shorter.replies[i] == task.replies[i]);
    }
}

/// Whether the first thread is alone and waiting, and all directories have been handed over.
spec fn is_alone<E>(crew: Crew<E>) -> bool {
    &&& !crew.open
    &&& crew.first.phase is Receiving
    &&& crew.first.spawned == 0
    &&& crew.others.len() == 0
    &&& crew.current == seq![None::<int>]
    &&& crew.fallen == Set::<int>::empty()
}

/// The crew when the first thread has got these answers for the next directory.
spec fn copying_next<E>(crew: Crew<E>, task: Task<E>, i: int) -> Crew<E> {
    let replies = task.replies.take(i);
    Crew {
        queue: crew.queue.drop_first() + queue(task.start(), replies),
        first: RootWorker { phase: PoolPhase::Copying { spawn: false }, ..crew.first },
        tasks: crew.tasks.push(Task { node: task.node, replies }),
        current: seq![Some(crew.tasks.len() as int)],
        made: crew.made + changes(task.start(), replies),
        ..crew
    }
}

/// Directories can be handed over before anything else happens.
proof fn lemma_hand_over_first<E>(
    at: DirectoryAt,
    id_at: IdAt,
    parallelism: Option<usize>,
    handed: Seq<TreeNode<Seq<u8>>>,
) -> (events: Seq<CrewEvent<E>>)
    requires
        forall|i: int|
            0 <= i < handed.len() ==> stands(
                at,
                (#[trigger] handed[i]).from,
                at(handed[i].from),
            ),
    ensures
        Crew::<E>::begin(parallelism).can_all(at, id_at, events),
        Crew::<E>::begin(parallelism).after_all(events) == (Crew {
            handed,
            queue: handed,
            ..Crew::<E>::begin(parallelism)
        }),
    decreases handed.len(),
{
    let start = Crew::<E>::begin(parallelism);
    if handed.len() == 0 {
        assert(handed =~= seq![]);
        seq![]
    } else {
        let before = handed.drop_last();
        let node = handed.last();
        assert(handed[handed.len() - 1] == node);
        assert forall|i: int| 0 <= i < before.len() implies stands(
            at,
            (#[trigger] before[i]).from,
            at(before[i].from),
        ) by {
            assert(before[i] == handed[i]);
        }
        let events = lemma_hand_over_first::<E>(at, id_at, parallelism, before);
        let event = CrewEvent::HandedOver { node };
        lemma_one_more_event(at, id_at, start, events, event);
        assert(before.push(node) =~= handed);
        events.push(event)
    }
}

/// The first thread can get the answers for the next directory that a copy of it got before.
#[verifier::rlimit(50)]
proof fn lemma_copy_next<E>(
    at: DirectoryAt,
    id_at: IdAt,
    start: Crew<E>,
    events: Seq<CrewEvent<E>>,
    task: Task<E>,
    i: int,
) -> (longer: Seq<CrewEvent<E>>)
    requires
        start.can_all(at, id_at, events),
        is_alone(start.after_all(events)),
        start.after_all(events).queue.len() > 0,
        start.after_all(events).queue[0] == task.node,
        all_true(at, id_at, task),
        task.goes_well(),
        0 <= i <= task.replies.len(),
    ensures
        start.can_all(at, id_at, longer),
        start.after_all(longer) == copying_next(start.after_all(events), task, i),
    decreases i,
{
    let crew = start.after_all(events);
    let begun = copying_next(crew, task, i);
    if i == 0 {
        let event = CrewEvent::<E>::Took { thread: 0, queue_empty: true };
        lemma_one_more_event(at, id_at, start, events, event);
        let next = crew.after(event);
        assert(task.replies.take(0) =~= seq![]);
        assert(next.queue =~= begun.queue);
        assert(next.made =~= begun.made);
        assert(next.current =~= begun.current);
        assert(next.tasks =~= begun.tasks);
        events.push(event)
    } else {
        let before = copying_next(crew, task, i - 1);
        let longer = lemma_copy_next(at, id_at, start, events, task, i - 1);
        let reply = task.replies[i - 1];
        let event = CrewEvent::Called { thread: 0, reply };
        lemma_each_was_true(at, id_at, task, i - 1);
        assert(before.is_busy(0));
        assert(before.task(0) == Task { node: task.node, replies: task.replies.take(i - 1) });
        lemma_one_more_event(at, id_at, start, longer, event);
        let next = before.after(event);
        assert(task.replies.take(i) =~= task.replies.take(i - 1).push(reply));
        assert(task.replies.take(i).drop_last() =~= task.replies.take(i - 1));
        assert(next.queue =~= begun.queue);
        assert(next.made =~= begun.made);
        assert(next.tasks =~= begun.tasks);
        longer.push(event)
    }
}

/// The first thread can copy the next directory to the end as it was copied before.
proof fn lemma_copy_next_to_the_end<E>(
    at: DirectoryAt,
    id_at: IdAt,
    start: Crew<E>,
    events: Seq<CrewEvent<E>>,
    task: Task<E>,
) -> (longer: Seq<CrewEvent<E>>)
    requires
        start.can_all(at, id_at, events),
        is_alone(start.after_all(events)),
        start.after_all(events).queue.len() > 0,
        start.after_all(events).queue[0] == task.node,
        all_true(at, id_at, task),
        is_complete(task),
    ensures
        start.can_all(at, id_at, longer),
        ({
            let crew = start.after_all(events);
            let next = start.after_all(longer);
            &&& is_alone(next)
            &&& next.handed == crew.handed
            &&& next.tasks == crew.tasks.push(task)
        }),
{
    let crew = start.after_all(events);
    let all = task.replies.len() as int;
    let longer = lemma_copy_next(at, id_at, start, events, task, all);
    let before = copying_next(crew, task, all);
    let event = CrewEvent::<E>::Copied { thread: 0 };
    assert(task.replies.take(all) =~= task.replies);
    assert(before.is_busy(0));
    assert(before.task(0) == task);
    lemma_one_more_event(at, id_at, start, longer, event);
    assert(before.after(event).current =~= seq![None::<int>]);
    longer.push(event)
}

/// The directories that are queued for a directory, whoever copies it.
spec fn node_queue(at: DirectoryAt, id_at: IdAt) -> spec_fn(TreeNode<Seq<u8>>) -> Multiset<
    TreeNode<Seq<u8>>,
> {
    |node: TreeNode<Seq<u8>>|
        nodes_of(
            queued_work(Platform::Linux, Some(top_of(id_at, node)), work_of(at, node)),
            top_of(id_at, node),
        ).to_multiset()
}

/// What is queued for directories depends on them alone, if they are copied to the end.
proof fn lemma_queued_by_nodes<E>(at: DirectoryAt, id_at: IdAt, tasks: Seq<Task<E>>)
    requires
        forall|k: int|
            0 <= k < tasks.len() ==> task_holds(at, id_at, #[trigger] tasks[k]) && is_complete(
                tasks[k],
            ),
    ensures
        total(tasks, queued_share()) == total(
            tasks.map_values(task_node()),
            node_queue(at, id_at),
        ),
    decreases tasks.len(),
{
    if tasks.len() > 0 {
        let before = tasks.drop_last();
        let task = tasks[tasks.len() - 1];
        assert forall|k: int| 0 <= k < before.len() implies task_holds(
            at,
            id_at,
            #[trigger] before[k],
        ) && is_complete(before[k]) by {
            assert(before[k] == tasks[k]);
        }
        lemma_queued_by_nodes(at, id_at, before);
        assert(tasks.map_values(task_node()).drop_last() =~= before.map_values(task_node()));
        let work = work_of(at, task.node);
        let root = task.now().phase->Finished_root;
        lemma_all_true(at, id_at, task);
        lemma_one_job(at, work, root, task.node.root_to_inode, task.replies);
        assert(task.node == TreeNode {
            from: work.from,
            to: work.to,
            root_to_inode: task.node.root_to_inode,
        });
    }
}

/// Whether these copies went well to their ends, and are copies of all directories that were
/// handed over and of all that were queued for any of them.
spec fn are_all_copies<E>(
    at: DirectoryAt,
    id_at: IdAt,
    handed: Seq<TreeNode<Seq<u8>>>,
    tasks: Seq<Task<E>>,
) -> bool {
    &&& forall|k: int|
        0 <= k < tasks.len() ==> task_holds(at, id_at, #[trigger] tasks[k]) && is_complete(tasks[k])
    &&& handed.to_multiset().add(total(tasks, queued_share())) == tasks.map_values(
        task_node(),
    ).to_multiset()
}

/// The first thread can work off the queue alone, by copies that were made before.
proof fn lemma_work_off<E>(
    at: DirectoryAt,
    id_at: IdAt,
    parallelism: Option<usize>,
    events: Seq<CrewEvent<E>>,
    copies: Seq<Task<E>>,
) -> (longer: Seq<CrewEvent<E>>)
    requires
        parallelism matches Some(threads) ==> threads > 0,
        Crew::<E>::begin(parallelism).can_all(at, id_at, events),
        is_alone(Crew::<E>::begin(parallelism).after_all(events)),
        are_all_copies(
            at,
            id_at,
            Crew::<E>::begin(parallelism).after_all(events).handed,
            copies,
        ),
        ({
            let crew = Crew::<E>::begin(parallelism).after_all(events);
            &&& crew.tasks.map_values(task_node()).to_multiset().add(
                crew.queue.to_multiset(),
            ).subset_of(copies.map_values(task_node()).to_multiset())
            &&& forall|k: int|
                0 <= k < crew.tasks.len() ==> is_complete(#[trigger] crew.tasks[k])
        }),
    ensures
        Crew::<E>::begin(parallelism).can_all(at, id_at, longer),
        is_alone(Crew::<E>::begin(parallelism).after_all(longer)),
        Crew::<E>::begin(parallelism).after_all(longer).queue.len() == 0,
        Crew::<E>::begin(parallelism).after_all(longer).handed == Crew::<E>::begin(
            parallelism,
        ).after_all(events).handed,
    decreases
            copies.len() - Crew::<E>::begin(parallelism).after_all(events).tasks.len(),
{
    broadcast use vstd::seq_lib::group_to_multiset_ensures;

    let start = Crew::<E>::begin(parallelism);
    let crew = start.after_all(events);
    let known = copies.map_values(task_node());
    let taken = crew.tasks.map_values(task_node());
    if crew.queue.len() == 0 {
        events
    } else {
        let node = crew.queue[0];
        assert(crew.queue.contains(node));
        assert(crew.queue.to_multiset().count(node) > 0);
        assert(known.to_multiset().count(node) > 0) by {
            assert(taken.to_multiset().add(crew.queue.to_multiset()).count(node)
                <= known.to_multiset().count(node));
        }
        assert(known.contains(node));
        let k = choose|k: int| 0 <= k < known.len() && known[k] == node;
        let task = copies[k];
        let longer = lemma_copy_next_to_the_end(at, id_at, start, events, task);
        let next = start.after_all(longer);
        let now_taken = next.tasks.map_values(task_node());
        lemma_all_hold(at, id_at, parallelism, longer);
        assert(now_taken =~= taken.push(node));
        assert forall|v: TreeNode<Seq<u8>>| #[trigger]
            now_taken.to_multiset().count(v) <= known.to_multiset().count(v) by {
            assert(taken.to_multiset().add(crew.queue.to_multiset()).count(v)
                <= known.to_multiset().count(v));
        }
        assert(now_taken.to_multiset().subset_of(known.to_multiset()));
        assert forall|j: int| 0 <= j < next.tasks.len() implies is_complete(
            #[trigger] next.tasks[j],
        ) && task_holds(at, id_at, next.tasks[j]) by {
            if j < crew.tasks.len() {
                assert(next.tasks[j] == crew.tasks[j]);
            }
        }
        lemma_queued_by_nodes(at, id_at, next.tasks);
        lemma_queued_by_nodes(at, id_at, copies);
        lemma_total_of_fewer(now_taken, known, node_queue(at, id_at));
        lemma_subsets_add(
            next.handed.to_multiset(),
            total(next.tasks, queued_share()),
            next.handed.to_multiset(),
            total(copies, queued_share()),
        );
        assert(known.to_multiset().sub(now_taken.to_multiset()).len()
            == known.to_multiset().len() - now_taken.to_multiset().len());
        assert(known.len() == copies.len());
        lemma_work_off(at, id_at, parallelism, longer, copies)
    }
}

/// Directories can be handed over in any order. If threads copied all that was handed over,
/// and the first thread was done, then there is such a course of events for every other order
/// of the same directories, with answers that are true of the same file system. The same
/// changes are made, each as often, and no thread ends with an error.
pub proof fn law_directories_can_be_handed_over_in_any_order<E>(
    at: DirectoryAt,
    id_at: IdAt,
    parallelism: Option<usize>,
    events: Seq<CrewEvent<E>>,
    others: Seq<TreeNode<Seq<u8>>>,
) -> (moved: Seq<CrewEvent<E>>)
    requires
        parallelism matches Some(threads) ==> threads > 0,
        Crew::<E>::begin(parallelism).can_all(at, id_at, events),
        Crew::<E>::begin(parallelism).after_all(events).first.phase is Done,
        others.to_multiset() == Crew::<E>::begin(parallelism).after_all(
            events,
        ).handed.to_multiset(),
    ensures
        Crew::<E>::begin(parallelism).can_all(at, id_at, moved),
        ({
            let crew = Crew::<E>::begin(parallelism).after_all(events);
            let other = Crew::<E>::begin(parallelism).after_all(moved);
            &&& other.first.phase is Done
            &&& other.handed == others
            &&& forall|thread: int| !(#[trigger] other.fallen.contains(thread))
            &&& other.made.to_multiset() == crew.made.to_multiset()
        }),
{
    broadcast use vstd::seq_lib::group_to_multiset_ensures;

    let start = Crew::<E>::begin(parallelism);
    let crew = start.after_all(events);
    let known = crew.tasks.map_values(task_node());
    lemma_all_hold(at, id_at, parallelism, events);
    lemma_all_complete(at, id_at, crew);
    assert(crew.queue =~= Seq::<TreeNode<Seq<u8>>>::empty());
    assert(known.to_multiset().add(crew.queue.to_multiset()) =~= known.to_multiset());
    assert forall|i: int| 0 <= i < others.len() implies stands(
        at,
        (#[trigger] others[i]).from,
        at(others[i].from),
    ) by {
        let node = others[i];
        assert(others.contains(node));
        assert(others.to_multiset().count(node) > 0);
        assert(crew.handed.to_multiset().add(total(crew.tasks, queued_share())).count(node) > 0);
        assert(known.contains(node));
        let k = choose|k: int| 0 <= k < known.len() && known[k] == node;
        assert(task_holds(at, id_at, crew.tasks[k]));
    }
    let handing = lemma_hand_over_first::<E>(at, id_at, parallelism, others);
    let all = CrewEvent::<E>::HandedAll;
    lemma_one_more_event(at, id_at, start, handing, all);
    let ready = start.after_all(handing.push(all));
    assert(ready.tasks.map_values(task_node()) =~= Seq::<TreeNode<Seq<u8>>>::empty());
    assert(others.to_multiset().subset_of(known.to_multiset())) by {
        assert forall|v: TreeNode<Seq<u8>>| #[trigger]
            others.to_multiset().count(v) <= known.to_multiset().count(v) by {
            assert(crew.handed.to_multiset().add(total(crew.tasks, queued_share())).count(v)
                == known.to_multiset().count(v));
        }
    }
    assert(ready.tasks.map_values(task_node()).to_multiset().add(ready.queue.to_multiset())
        =~= others.to_multiset());
    let working = lemma_work_off(at, id_at, parallelism, handing.push(all), crew.tasks);
    let worked = start.after_all(working);
    let closed = CrewEvent::<E>::Closed { thread: 0 };
    assert(worked.all_idle());
    lemma_one_more_event(at, id_at, start, working, closed);
    let moved = working.push(closed);
    law_threads_copy_all_that_is_handed_over(at, id_at, parallelism, events);
    law_threads_copy_all_that_is_handed_over(at, id_at, parallelism, moved);
    lemma_total_has_no_order(others, crew.handed, node_share(at, id_at));
    moved
}

} // verus!
