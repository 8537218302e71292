//! The law that on Linux the order of files does not show in a whole operation, from its
//! beginning to the end of the threads that copy directories.

use crate::disk_laws::{
    apart, disk_step, disk_world, law_the_order_of_files_that_are_apart_does_not_show, Disk,
    Object,
};
use crate::error::ErrorView;
use crate::linux::backend::root_node;
use crate::linux::crew_laws::{
    law_directories_can_be_handed_over_in_any_order, law_threads_copy_all_that_is_handed_over,
    node_share, Crew, CrewEvent,
};
use crate::linux::node::TreeNode;
use crate::linux::tree_laws::{DirectoryAt, IdAt};
use crate::op::{CopyOpView, RunPhase, RunView};
use crate::order_laws::{answered, ends_well, state_after, whole_run};
use crate::os_path::lies_in_parent;
use crate::platform::Platform;
use crate::run_laws::{crew_after, handed_nodes, handed_truly};
use crate::schedule::{Reply, ScheduleView};
use crate::schedule_laws::{run, run_through, transfers, Transfer};
use crate::totals::{lemma_total_has_no_order, total};
use crate::tree::Effect;
use vstd::multiset::Multiset;
use vstd::prelude::*;

verus! {

/// The directories that an operation handed over, in the file system that it ran in.
pub open spec fn handed_on<E>(op: CopyOpView, replies: Seq<Reply<Seq<u8>, Seq<u8>, E>>) -> Seq<
    TreeNode<Seq<u8>>,
> {
    handed_nodes::<E>(transfers(ScheduleView::begin(op, Platform::Linux), replies))
}

/// The file system when an operation went through its files. The directories that it handed
/// over are still to be copied.
pub open spec fn disk_after<E>(
    error: E,
    disk: Disk,
    op: CopyOpView,
    replies: Seq<Reply<Seq<u8>, Seq<u8>, E>>,
) -> Disk {
    state_after(
        disk_world(Platform::Linux, error),
        disk,
        ScheduleView::begin(op, Platform::Linux),
        replies,
    )
}

/// Whether threads copied exactly these directories, with all that is in them, and were done
/// without an error. There are no threads where there are no directories.
pub open spec fn copied_all<E>(
    at: DirectoryAt,
    id_at: IdAt,
    parallelism: Option<usize>,
    handed: Seq<TreeNode<Seq<u8>>>,
    events: Seq<CrewEvent<E>>,
) -> bool {
    let crew = crew_after(parallelism, events);
    &&& Crew::<E>::begin(parallelism).can_all(at, id_at, events)
    &&& crew.handed == handed
    &&& if handed.len() > 0 {
        crew.first.phase is Done
    } else {
        events.len() == 0
    }
}

/// Whether these changes can leave an object at a path, or nothing. A file that was created
/// is empty until it is filled. Where no change was made, what stood there stays.
pub open spec fn can_leave(
    disk: Disk,
    made: Multiset<Effect>,
    path: Seq<u8>,
    object: Option<Object>,
) -> bool {
    &&& forall|new_mode: Option<u32>| #[trigger]
        made.contains(Effect::Directory { path, new_mode }) ==> object == Some(Object::Directory)
    &&& forall|target: Seq<u8>| #[trigger]
        made.contains(Effect::Symlink { path, target }) ==> object == Some(Object::Symlink(target))
    &&& forall|from: Seq<u8>| #[trigger]
        made.contains(Effect::Fill { path, from }) ==> object == (disk.objects)(from)
    &&& forall|mode: u32| #[trigger]
        made.contains(Effect::Create { path, mode }) ==> object == Some(Object::File(seq![]))
            || is_filled(made, path)
    &&& !is_changed(made, path) ==> object == (disk.objects)(path)
}

/// Whether bytes were copied to a path.
pub open spec fn is_filled(made: Multiset<Effect>, path: Seq<u8>) -> bool {
    exists|from: Seq<u8>| #[trigger] made.contains(Effect::Fill { path, from })
}

/// Whether a change was made at a path.
pub open spec fn is_changed(made: Multiset<Effect>, path: Seq<u8>) -> bool {
    exists|change: Effect| #[trigger] made.contains(change) && change.path() == path
}

/// Whether a file system is one that these changes of another can leave.
pub open spec fn leaves(disk: Disk, made: Multiset<Effect>, left: Disk) -> bool {
    forall|path: Seq<u8>| can_leave(disk, made, path, #[trigger] (left.objects)(path))
}

/// Changes leave one file system only. If two are such that the same changes of the same file
/// system can leave them, the same objects stand at the same paths, with the same bytes and
/// targets.
pub proof fn law_the_same_changes_leave_the_same(
    disk: Disk,
    made: Multiset<Effect>,
    one: Disk,
    other: Disk,
)
    requires
        leaves(disk, made, one),
        leaves(disk, made, other),
    ensures
        one.objects == other.objects,
{
    assert forall|path: Seq<u8>| #[trigger] (one.objects)(path) == (other.objects)(path) by {
        if is_changed(made, path) {
            let change = choose|change: Effect| #[trigger]
                made.contains(change) && change.path() == path;
            match change {
                Effect::Directory { new_mode, .. } => {
                    assert(made.contains(Effect::Directory { path, new_mode }));
                },
                Effect::Symlink { target, .. } => {
                    assert(made.contains(Effect::Symlink { path, target }));
                },
                Effect::Fill { from, .. } => {
                    assert(made.contains(Effect::Fill { path, from }));
                },
                Effect::Create { mode, .. } => {
                    assert(made.contains(Effect::Create { path, mode }));
                },
            }
        }
    }
    assert(one.objects =~= other.objects);
}

/// The directories among these transfers, by their two paths.
spec fn handed_pairs(transfers: Seq<Transfer>) -> Seq<(Seq<u8>, Seq<u8>)>
    decreases transfers.len(),
{
    if transfers.len() == 0 {
        seq![]
    } else {
        let before = handed_pairs(transfers.drop_last());
        match transfers.last() {
            Transfer::HandedOver { from, to } => before.push((from, to)),
            _ => before,
        }
    }
}

/// The node of a directory, as the one thing that comes of it.
spec fn node_of<E>() -> spec_fn((Seq<u8>, Seq<u8>)) -> Multiset<TreeNode<Seq<u8>>> {
    |pair: (Seq<u8>, Seq<u8>)| Multiset::empty().insert(root_node::<E>(pair.0, pair.1)->Ok_0)
}

proof fn lemma_nodes_of_pairs<E>(transfers: Seq<Transfer>)
    ensures
        handed_nodes::<E>(transfers).to_multiset() == total(
            handed_pairs(transfers),
            node_of::<E>(),
        ),
    decreases transfers.len(),
{
    broadcast use vstd::seq_lib::group_to_multiset_ensures;

    let nodes = handed_nodes::<E>(transfers);
    let pairs = handed_pairs(transfers);
    if transfers.len() == 0 {
        assert(nodes.to_multiset() =~= total(pairs, node_of::<E>()));
    } else {
        let before = transfers.drop_last();
        lemma_nodes_of_pairs::<E>(before);
        match transfers.last() {
            Transfer::HandedOver { .. } => {
                assert(pairs.drop_last() =~= handed_pairs(before));
                assert(nodes.to_multiset() =~= total(pairs, node_of::<E>()));
            },
            _ => {},
        }
    }
}

/// The file system holds the directories that were handed over, and each can be.
proof fn lemma_handed_on_disk<E>(
    error: E,
    disk: Disk,
    op: CopyOpView,
    replies: Seq<Reply<Seq<u8>, Seq<u8>, E>>,
)
    requires
        answered(
            disk_world(Platform::Linux, error),
            disk,
            ScheduleView::begin(op, Platform::Linux),
            replies,
        ),
    ensures
        ({
            let moved = transfers(ScheduleView::begin(op, Platform::Linux), replies);
            &&& disk_after(error, disk, op, replies).handed == disk.handed.add(
                handed_pairs(moved).to_multiset(),
            )
            &&& handed_truly::<E>(moved)
        }),
    decreases replies.len(),
{
    broadcast use vstd::seq_lib::group_to_multiset_ensures;

    let start = ScheduleView::begin(op, Platform::Linux);
    let moved = transfers(start, replies);
    let after = disk_after(error, disk, op, replies);
    if replies.len() == 0 {
        assert(after.handed =~= disk.handed.add(handed_pairs(moved).to_multiset()));
    } else {
        let before = replies.drop_last();
        let done = transfers(start, before);
        lemma_handed_on_disk(error, disk, op, before);
        let schedule = run(start, before)->Ok_0;
        let now = disk_after(error, disk, op, before);
        let request = schedule.wants()->0;
        assert(after == disk_step(Platform::Linux, error, now, request).1);
        if moved.len() > done.len() {
            assert(moved.drop_last() =~= done);
        } else {
            assert(moved =~= done);
        }
        assert(after.handed =~= disk.handed.add(handed_pairs(moved).to_multiset()));
    }
}

/// The order of files does not show in an operation, on Linux. Let an operation go through
/// all of its files without an error in a file system, the files being apart from each other,
/// and let threads then copy all directories that it handed over, with all that is in them.
/// Then the operation on the same files in any other order goes through them without an error
/// too, from the same file system, and there are threads that copy the directories that it
/// handed over. Both operations are done well. However the work of the threads is
/// interleaved, they make the same changes, each as often, of the same file system. So the
/// same objects are left at the same paths, with the same bytes and targets.
pub proof fn law_the_order_of_files_does_not_show_in_an_operation<E>(
    error: E,
    disk: Disk,
    op: CopyOpView,
    other: CopyOpView,
    replies: Seq<Reply<Seq<u8>, Seq<u8>, E>>,
    at: DirectoryAt,
    id_at: IdAt,
    parallelism: Option<usize>,
    events: Seq<CrewEvent<E>>,
) -> (moved: (Seq<Reply<Seq<u8>, Seq<u8>, E>>, Seq<CrewEvent<E>>))
    requires
        other.force == op.force,
        other.files.to_multiset() == op.files.to_multiset(),
        forall|i: int| 0 <= i < op.files.len() ==> lies_in_parent((#[trigger] op.files[i]).1),
        forall|i: int, j: int|
            0 <= i < op.files.len() && 0 <= j < op.files.len() && i != j ==> apart(
                #[trigger] op.files[i],
                #[trigger] op.files[j],
            ),
        ends_well(disk_world(Platform::Linux, error), disk, op, Platform::Linux, replies),
        parallelism matches Some(threads) ==> threads > 0,
        copied_all(at, id_at, parallelism, handed_on(op, replies), events),
    ensures
        ends_well(disk_world(Platform::Linux, error), disk, other, Platform::Linux, moved.0),
        copied_all(at, id_at, parallelism, handed_on(other, moved.0), moved.1),
        handed_truly::<E>(transfers(ScheduleView::begin(op, Platform::Linux), replies)),
        handed_truly::<E>(transfers(ScheduleView::begin(other, Platform::Linux), moved.0)),
        disk_after(error, disk, other, moved.0) == disk_after(error, disk, op, replies),
        forall|any: Seq<CrewEvent<E>>| #[trigger]
            copied_all(at, id_at, parallelism, handed_on(other, moved.0), any) ==> crew_after(
                parallelism,
                any,
            ).made.to_multiset() == crew_after(parallelism, events).made.to_multiset(),
        ({
            let well: Result<(), ErrorView<E>> = Ok(());
            let done = RunPhase::<ScheduleView, Seq<u8>, Seq<u8>, E>::Done(well);
            let begin = RunView::<E>::begin(op, Platform::Linux);
            let other_begin = RunView::<E>::begin(other, Platform::Linux);
            &&& run_through(begin, whole_run(replies, well)) == done
            &&& run_through(other_begin, whole_run(moved.0, well)) == done
        }),
        forall|left: Disk, other_left: Disk| #[trigger]
            leaves(
                disk_after(error, disk, op, replies),
                crew_after(parallelism, events).made.to_multiset(),
                left,
            ) && #[trigger] leaves(
                disk_after(error, disk, other, moved.0),
                crew_after(parallelism, moved.1).made.to_multiset(),
                other_left,
            ) ==> left.objects == other_left.objects,
{
    broadcast use vstd::seq_lib::group_to_multiset_ensures;

    let others = law_the_order_of_files_that_are_apart_does_not_show(
        Platform::Linux,
        error,
        disk,
        op,
        other,
        replies,
        Ok(()),
    );
    let transfers_one = transfers(ScheduleView::begin(op, Platform::Linux), replies);
    let transfers_other = transfers(ScheduleView::begin(other, Platform::Linux), others);
    let pairs = handed_pairs(transfers_one);
    let other_pairs = handed_pairs(transfers_other);
    lemma_handed_on_disk(error, disk, op, replies);
    lemma_handed_on_disk(error, disk, other, others);
    let all = disk.handed.add(pairs.to_multiset());
    let other_all = disk.handed.add(other_pairs.to_multiset());
    assert forall|pair: (Seq<u8>, Seq<u8>)| #[trigger]
        pairs.to_multiset().count(pair) == other_pairs.to_multiset().count(pair) by {
        assert(all.count(pair) == other_all.count(pair));
    }
    assert(pairs.to_multiset() =~= other_pairs.to_multiset());
    lemma_total_has_no_order(pairs, other_pairs, node_of::<E>());
    lemma_nodes_of_pairs::<E>(transfers_one);
    lemma_nodes_of_pairs::<E>(transfers_other);
    let handed = handed_on(op, replies);
    let other_handed = handed_on(other, others);
    assert(handed.len() == handed.to_multiset().len());
    assert(other_handed.len() == other_handed.to_multiset().len());
    let other_events = if handed.len() > 0 {
        law_directories_can_be_handed_over_in_any_order(
            at,
            id_at,
            parallelism,
            events,
            other_handed,
        )
    } else {
        assert(other_handed =~= handed);
        events
    };
    assert forall|any: Seq<CrewEvent<E>>| #[trigger]
        copied_all(at, id_at, parallelism, other_handed, any) implies crew_after(
        parallelism,
        any,
    ).made.to_multiset() == crew_after(parallelism, events).made.to_multiset() by {
        if handed.len() > 0 {
            law_threads_copy_all_that_is_handed_over(at, id_at, parallelism, events);
            law_threads_copy_all_that_is_handed_over(at, id_at, parallelism, any);
            lemma_total_has_no_order(handed, other_handed, node_share(at, id_at));
        } else {
            assert(any =~= events);
        }
    }
    let after = disk_after(error, disk, op, replies);
    let made = crew_after(parallelism, events).made.to_multiset();
    assert forall|left: Disk, other_left: Disk| #[trigger]
        leaves(after, made, left) && #[trigger] leaves(
            disk_after(error, disk, other, others),
            crew_after(parallelism, other_events).made.to_multiset(),
            other_left,
        ) implies left.objects == other_left.objects by {
        law_the_same_changes_leave_the_same(after, made, left, other_left);
    }
    (others, other_events)
}

} // verus!
