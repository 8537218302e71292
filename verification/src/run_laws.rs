//! Laws of whole operations, from their beginning to the changes that are made when they
//! are done.

use crate::file_id::FileId;
use crate::linux::backend::root_node;
use crate::linux::crew_laws::{
    law_threads_copy_all_that_is_handed_over, node_share, work_of, Crew, CrewEvent,
};
use crate::linux::node::TreeNode;
use crate::linux::tree_laws::{
    all_stand, handed_over, queue_of, queued_effects, stands, DirectoryAt, IdAt, Queued,
};
use crate::op::{CopyOpView, RunPhase, RunReply, RunView};
use crate::os_path::parent_bytes;
use crate::platform::Platform;
use crate::portable::laws::{
    dir_copied, kind_of, law_a_tree_is_copied_faithfully, made_in_dir, root_of, DirRun,
};
use crate::schedule::{transfer_phase, Phase, Reply, Request, ScheduleView};
use crate::schedule_laws::{
    due_transfer, due_transfers, file_replies, fitting,
    law_every_file_is_transferred_in_turn, law_handed_over_directories_are_waited_for, run,
    run_through, transfers, truthful, Sources, Transfer,
};
use crate::totals::{lemma_total_has_no_order, total};
use crate::tree::{is_without, tree_effects, Effect, Source, Work};
use crate::tree_laws::law_a_tree_without_the_top_is_copied_whole;
use vstd::multiset::Multiset;
use vstd::prelude::*;

verus! {

/// Where a symbolic link points.
pub open spec fn target_of(item: Source) -> Seq<u8> {
    match item {
        Source::Symlink(target) => target,
        _ => seq![],
    }
}

/// What the files are, of which these are the objects.
pub open spec fn sources_of(items: Seq<Source>) -> Sources {
    Sources {
        kinds: items.map_values(|item: Source| kind_of(item)),
        targets: items.map_values(|item: Source| target_of(item)),
    }
}

/// The lasting change that a call for a file made itself, if it made one. The copy of a
/// directory that was handed over is accounted for by the calls that it consists of.
pub open spec fn file_change<E>(
    schedule: ScheduleView,
    reply: Reply<Seq<u8>, Seq<u8>, E>,
) -> Seq<Effect> {
    match schedule.wants() {
        Some(Request::CreateDirAll { path }) if reply.failure() is None => seq![
            Effect::Directory { path, new_mode: None },
        ],
        Some(Request::MakeLink { target, path }) if reply.failure() is None => seq![
            Effect::Symlink { path, target },
        ],
        Some(Request::CopyFile { from, to }) if reply.failure() is None => seq![
            Effect::Fill { path: to, from },
        ],
        _ => seq![],
    }
}

/// The lasting changes that the calls for files made themselves, in their order.
pub open spec fn file_changes<E>(
    start: ScheduleView,
    replies: Seq<Reply<Seq<u8>, Seq<u8>, E>>,
) -> Seq<Effect>
    decreases replies.len(),
{
    if replies.len() == 0 {
        seq![]
    } else {
        let before = replies.drop_last();
        file_changes(start, before) + match run(start, before) {
            Ok(schedule) => file_change(schedule, replies.last()),
            Err(_) => seq![],
        }
    }
}

/// The directory that the path of a copy is in, if it is in one.
pub open spec fn parent_image(to: Seq<u8>) -> Seq<Effect> {
    match parent_bytes(to) {
        Some(path) => seq![Effect::Directory { path, new_mode: None }],
        None => seq![],
    }
}

/// The changes that copying a file calls for on the spot: the directory that the copy is
/// in, and the copy, unless it is that of a directory.
pub open spec fn spot_image(
    platform: Platform,
    item: Source,
    from: Seq<u8>,
    to: Seq<u8>,
) -> Seq<Effect> {
    parent_image(to) + match item {
        Source::Directory(_) => seq![],
        Source::Symlink(target) if platform.copies_links() => seq![
            Effect::Symlink { path: to, target },
        ],
        _ => seq![Effect::Fill { path: to, from }],
    }
}

/// The image of a file: all changes that copying it calls for, where `root` is the top of
/// the copy of a directory.
pub open spec fn file_image(
    platform: Platform,
    root: Option<FileId>,
    item: Source,
    from: Seq<u8>,
    to: Seq<u8>,
) -> Seq<Effect> {
    spot_image(platform, item, from, to) + match item {
        Source::Directory(dir) => tree_effects(platform, root, Work { from, to, dir }),
        _ => seq![],
    }
}

/// The images of the first files of an operation, where `roots` gives the tops of the
/// copies of directories.
pub open spec fn images(
    platform: Platform,
    roots: spec_fn(int) -> Option<FileId>,
    op: CopyOpView,
    items: Seq<Source>,
    count: nat,
) -> Multiset<Effect>
    decreases count,
{
    if count == 0 {
        Multiset::empty()
    } else {
        let i = count - 1;
        let (from, to) = op.files[i];
        images(platform, roots, op, items, i as nat).add(
            file_image(platform, roots(i), items[i], from, to).to_multiset(),
        )
    }
}

/// The tops of the copies of directories, by the identities of directories in the file
/// system.
pub open spec fn tops_at(id_at: IdAt, op: CopyOpView) -> spec_fn(int) -> Option<FileId> {
    |i: int| Some(id_at(op.files[i].1))
}

/// The changes that the first files call for on the spot.
spec fn spot_images(
    platform: Platform,
    op: CopyOpView,
    items: Seq<Source>,
    count: nat,
) -> Seq<Effect>
    decreases count,
{
    if count == 0 {
        seq![]
    } else {
        let i = count - 1;
        spot_images(platform, op, items, i as nat) + spot_image(
            platform,
            items[i],
            op.files[i].0,
            op.files[i].1,
        )
    }
}

/// What holds wherever a truthful run stands.
spec fn on_course(
    schedule: ScheduleView,
    op: CopyOpView,
    platform: Platform,
    items: Seq<Source>,
    made: Seq<Effect>,
) -> bool {
    let item = items[schedule.index];
    let done = spot_images(platform, op, items, schedule.index as nat);
    let fits = transfer_phase(platform, kind_of(item));
    &&& schedule.wf()
    &&& schedule.op == op
    &&& schedule.platform == platform
    &&& match schedule.phase {
        Phase::Checking => made == done,
        Phase::Inspecting => made == done,
        Phase::MakingParent { kind, parent } => made == done && kind == kind_of(item)
            && parent_bytes(schedule.to()) == Some(parent),
        Phase::Linking { target } => made == done + parent_image(schedule.to())
            && fits is ReadingLink && target == target_of(item),
        Phase::Finished => made == done,
        phase => made == done + parent_image(schedule.to()) && fits == phase,
    }
}

/// Every truthful run that has not failed is on course.
proof fn lemma_on_course<E>(
    op: CopyOpView,
    platform: Platform,
    items: Seq<Source>,
    replies: Seq<Reply<Seq<u8>, Seq<u8>, E>>,
)
    requires
        items.len() == op.files.len(),
        truthful(ScheduleView::begin(op, platform), sources_of(items), replies),
    ensures
        run(ScheduleView::begin(op, platform), replies) matches Ok(schedule) ==> on_course(
            schedule,
            op,
            platform,
            items,
            file_changes(ScheduleView::begin(op, platform), replies),
        ),
    decreases replies.len(),
{
    let start = ScheduleView::begin(op, platform);
    if replies.len() > 0 {
        let before = replies.drop_last();
        let reply = replies.last();
        lemma_on_course(op, platform, items, before);
        let schedule = run(start, before)->Ok_0;
        let made = file_changes(start, before);
        let change = file_change(schedule, reply);
        let done = spot_images(platform, op, items, schedule.index as nat);
        if schedule.after(reply) is Ok {
            let next = schedule.after(reply)->Ok_0;
            let item = items[schedule.index];
            let to = schedule.to();
            if next.index == schedule.index {
                if schedule.phase is MakingParent {
                    assert(made + change =~= done + parent_image(to));
                } else {
                    assert(made + change =~= made);
                    assert(done + parent_image(to) =~= done || parent_bytes(to) is Some);
                }
            } else {
                let spot = spot_image(platform, item, schedule.from(), to);
                assert(parent_image(to) + change =~= spot);
                assert(made + change =~= done + spot);
                assert(next.index - 1 == schedule.index);
            }
        }
    }
}

/// A run that is done well has gone through all of the files.
proof fn lemma_all_gone_through<E>(
    op: CopyOpView,
    platform: Platform,
    items: Seq<Source>,
    replies: Seq<RunReply<Seq<u8>, Seq<u8>, E>>,
)
    requires
        items.len() == op.files.len(),
        fitting(RunView::<E>::begin(op, platform), replies),
        run_through(RunView::<E>::begin(op, platform), replies) matches RunPhase::Done(Ok(_)),
        truthful(ScheduleView::begin(op, platform), sources_of(items), file_replies(replies)),
    ensures
        ({
            let start = ScheduleView::begin(op, platform);
            let files = file_replies(replies);
            &&& file_changes(start, files) == spot_images(platform, op, items, items.len())
            &&& transfers(start, files) == due_transfers(
                op,
                platform,
                sources_of(items),
                items.len() as int,
            )
        }),
{
    law_handed_over_directories_are_waited_for(op, platform, replies);
    lemma_on_course(op, platform, items, file_replies(replies));
    law_every_file_is_transferred_in_turn(
        op,
        platform,
        sources_of(items),
        file_replies(replies),
    );
}

/// The nodes of the directories among these transfers, as they were handed over.
pub open spec fn handed_nodes<E>(transfers: Seq<Transfer>) -> Seq<TreeNode<Seq<u8>>>
    decreases transfers.len(),
{
    if transfers.len() == 0 {
        seq![]
    } else {
        let before = handed_nodes::<E>(transfers.drop_last());
        match transfers.last() {
            Transfer::HandedOver { from, to } => before.push(root_node::<E>(from, to)->Ok_0),
            _ => before,
        }
    }
}

/// Whether each directory that was handed over is one that can be: no system call refuses
/// its paths.
pub open spec fn handed_truly<E>(transfers: Seq<Transfer>) -> bool {
    forall|i: int|
        0 <= i < transfers.len() ==> (#[trigger] transfers[i] matches Transfer::HandedOver {
            from,
            to,
        } ==> root_node::<E>(from, to) is Ok)
}

/// The directories among the first files.
spec fn works_of(op: CopyOpView, items: Seq<Source>, count: nat) -> Seq<Work>
    decreases count,
{
    if count == 0 {
        seq![]
    } else {
        let i = count - 1;
        let before = works_of(op, items, i as nat);
        match items[i] {
            Source::Directory(dir) => before.push(
                Work { from: op.files[i].0, to: op.files[i].1, dir },
            ),
            _ => before,
        }
    }
}

/// The directories that were handed over are those among the files.
proof fn lemma_handed_nodes<E>(op: CopyOpView, items: Seq<Source>, count: nat)
    requires
        count <= items.len(),
        handed_truly::<E>(
            due_transfers(op, Platform::Linux, sources_of(items), count as int),
        ),
    ensures
        handed_nodes::<E>(due_transfers(op, Platform::Linux, sources_of(items), count as int))
            == queue_of(handed_over(works_of(op, items, count))),
    decreases count,
{
    let due = due_transfers(op, Platform::Linux, sources_of(items), count as int);
    if count == 0 {
        assert(queue_of(handed_over(works_of(op, items, count))) =~= seq![]);
    } else {
        let i = count - 1;
        let before = due_transfers(op, Platform::Linux, sources_of(items), i);
        assert(due.drop_last() =~= before);
        assert forall|k: int| 0 <= k < before.len() implies (#[trigger] before[k] matches
            Transfer::HandedOver { from, to } ==> root_node::<E>(from, to) is Ok) by {
            assert(before[k] == due[k]);
        }
        lemma_handed_nodes::<E>(op, items, i as nat);
        assert(due.last() == due_transfer(op, Platform::Linux, sources_of(items), i));
        assert(due[i] == due.last());
        assert(queue_of(handed_over(works_of(op, items, count))) =~= handed_nodes::<E>(due));
    }
}

/// All directories among the files stand where they are to be copied from.
proof fn lemma_works_stand(at: DirectoryAt, op: CopyOpView, items: Seq<Source>, count: nat)
    requires
        count <= items.len(),
        directories_stand(at, op, items),
    ensures
        all_stand(at, works_of(op, items, count)),
    decreases count,
{
    if count > 0 {
        let i = count - 1;
        lemma_works_stand(at, op, items, i as nat);
        let before = works_of(op, items, i as nat);
        let works = works_of(op, items, count);
        assert(items[i] == items[i]);
        assert forall|k: int| 0 <= k < works.len() implies stands(
            at,
            (#[trigger] works[k]).from,
            works[k].dir,
        ) by {
            if k < before.len() {
                assert(works[k] == before[k]);
            }
        }
    }
}

/// Whether the file system holds all directories among the files where they are to be
/// copied from.
pub open spec fn directories_stand(at: DirectoryAt, op: CopyOpView, items: Seq<Source>) -> bool {
    forall|i: int|
        0 <= i < items.len() ==> (#[trigger] items[i] matches Source::Directory(dir) ==> stands(
            at,
            op.files[i].0,
            dir,
        ))
}

/// What the files call for on the spot, and what the directories among them call for, are
/// their images.
proof fn lemma_images(id_at: IdAt, op: CopyOpView, items: Seq<Source>, count: nat)
    requires
        count <= items.len(),
    ensures
        images(Platform::Linux, tops_at(id_at, op), op, items, count)
            == spot_images(Platform::Linux, op, items, count).to_multiset().add(
            queued_effects(id_at, handed_over(works_of(op, items, count))),
        ),
    decreases count,
{
    broadcast use vstd::seq_lib::group_to_multiset_ensures;

    let roots = tops_at(id_at, op);
    let all = images(Platform::Linux, roots, op, items, count);
    let spots = spot_images(Platform::Linux, op, items, count);
    let works = works_of(op, items, count);
    if count == 0 {
        assert(handed_over(works).len() == 0);
        assert(all =~= spots.to_multiset().add(queued_effects(id_at, handed_over(works))));
    } else {
        let i = count - 1;
        let (from, to) = op.files[i];
        let before = works_of(op, items, i as nat);
        let spot = spot_image(Platform::Linux, items[i], from, to);
        lemma_images(id_at, op, items, i as nat);
        vstd::seq_lib::lemma_multiset_commutative(
            spot_images(Platform::Linux, op, items, i as nat),
            spot,
        );
        match items[i] {
            Source::Directory(dir) => {
                let work = Work { from, to, dir };
                let tree = tree_effects(Platform::Linux, roots(i), work);
                vstd::seq_lib::lemma_multiset_commutative(spot, tree);
                let pending = handed_over(works);
                assert(pending.drop_last() =~= handed_over(before));
                assert(pending.last() == Queued { work, root_to_inode: None });
                assert(queued_effects(id_at, pending) == queued_effects(
                    id_at,
                    handed_over(before),
                ).add(tree.to_multiset()));
            },
            _ => {
                assert(file_image(Platform::Linux, roots(i), items[i], from, to) =~= spot);
            },
        }
        assert(all =~= spots.to_multiset().add(queued_effects(id_at, handed_over(works))));
    }
}

/// Directories that are handed over come to the same, taken one by one or by their nodes.
proof fn lemma_handed_share(at: DirectoryAt, id_at: IdAt, works: Seq<Work>)
    requires
        all_stand(at, works),
    ensures
        queued_effects(id_at, handed_over(works)) == total(
            queue_of(handed_over(works)),
            node_share(at, id_at),
        ),
    decreases works.len(),
{
    if works.len() > 0 {
        let before = works.drop_last();
        assert forall|k: int| 0 <= k < before.len() implies stands(
            at,
            (#[trigger] before[k]).from,
            before[k].dir,
        ) by {
            assert(before[k] == works[k]);
        }
        lemma_handed_share(at, id_at, before);
        assert(works[works.len() - 1] == works.last());
        assert(handed_over(works).drop_last() =~= handed_over(before));
        assert(queue_of(handed_over(works)).drop_last() =~= queue_of(handed_over(before)));
        assert(work_of(at, queue_of(handed_over(works)).last()) == works.last());
    }
}

/// The threads after these events, on a machine that runs this many at once.
pub open spec fn crew_after<E>(
    parallelism: Option<usize>,
    events: Seq<CrewEvent<E>>,
) -> Crew<E> {
    Crew::<E>::begin(parallelism).after_all(events)
}

/// Whether the run of an operation was done without an error, on Linux, all answers being
/// true of the files and of the file system. The directories that it handed over were copied
/// by threads, all calls of which worked, and the first thread was done; there are no threads
/// where nothing was handed over.
pub open spec fn well_done<E>(
    at: DirectoryAt,
    op: CopyOpView,
    items: Seq<Source>,
    replies: Seq<RunReply<Seq<u8>, Seq<u8>, E>>,
    id_at: IdAt,
    parallelism: Option<usize>,
    events: Seq<CrewEvent<E>>,
) -> bool {
    let start = ScheduleView::begin(op, Platform::Linux);
    let moved = transfers(start, file_replies(replies));
    let crew = crew_after(parallelism, events);
    &&& items.len() == op.files.len()
    &&& fitting(RunView::<E>::begin(op, Platform::Linux), replies)
    &&& run_through(RunView::<E>::begin(op, Platform::Linux), replies) matches RunPhase::Done(Ok(_))
    &&& truthful(start, sources_of(items), file_replies(replies))
    &&& directories_stand(at, op, items)
    &&& handed_truly::<E>(moved)
    &&& parallelism matches Some(threads) ==> threads > 0
    &&& Crew::<E>::begin(parallelism).can_all(at, id_at, events)
    &&& crew.handed == handed_nodes::<E>(moved)
    &&& if crew.handed.len() > 0 {
        crew.first.phase is Done
    } else {
        events.len() == 0
    }
}

/// All changes that the run of an operation and the threads made, on Linux.
pub open spec fn all_changes<E>(
    op: CopyOpView,
    replies: Seq<RunReply<Seq<u8>, Seq<u8>, E>>,
    parallelism: Option<usize>,
    events: Seq<CrewEvent<E>>,
) -> Multiset<Effect> {
    let start = ScheduleView::begin(op, Platform::Linux);
    file_changes(start, file_replies(replies)).to_multiset().add(
        crew_after(parallelism, events).made.to_multiset(),
    )
}

/// An operation copies its files, on Linux. Let the run of an operation be done without an
/// error, let threads have copied the directories that it handed over, with those in them,
/// their work being interleaved in whatever way, and let all answers have been true of the
/// files and of the file system. Then the changes that were made are the images of the
/// files, each as often as the files call for it, and nothing else.
pub proof fn law_an_operation_copies_its_files<E>(
    at: DirectoryAt,
    op: CopyOpView,
    items: Seq<Source>,
    replies: Seq<RunReply<Seq<u8>, Seq<u8>, E>>,
    id_at: IdAt,
    parallelism: Option<usize>,
    events: Seq<CrewEvent<E>>,
)
    requires
        well_done(at, op, items, replies, id_at, parallelism, events),
    ensures
        all_changes(op, replies, parallelism, events) == images(
            Platform::Linux,
            tops_at(id_at, op),
            op,
            items,
            items.len(),
        ),
{
    broadcast use vstd::seq_lib::group_to_multiset_ensures;

    let works = works_of(op, items, items.len());
    let crew = crew_after(parallelism, events);
    lemma_all_gone_through(op, Platform::Linux, items, replies);
    lemma_handed_nodes::<E>(op, items, items.len());
    lemma_works_stand(at, op, items, items.len());
    lemma_handed_share(at, id_at, works);
    if crew.handed.len() > 0 {
        law_threads_copy_all_that_is_handed_over(at, id_at, parallelism, events);
    } else {
        assert(crew.made.to_multiset() =~= total(crew.handed, node_share(at, id_at)));
    }
    lemma_images(id_at, op, items, items.len());
}

/// The files of an operation, each with the object that it is.
pub open spec fn with_items(op: CopyOpView, items: Seq<Source>) -> Seq<
    ((Seq<u8>, Seq<u8>), Source),
> {
    Seq::new(items.len(), |i: int| (op.files[i], items[i]))
}

/// Whether no directory among the files holds the top of its own copy.
pub open spec fn all_without_their_tops(
    roots: spec_fn(int) -> Option<FileId>,
    items: Seq<Source>,
) -> bool {
    forall|i: int|
        0 <= i < items.len() ==> (#[trigger] items[i] matches Source::Directory(dir) ==> (roots(
            i,
        ) matches Some(root) ==> is_without(dir, root)))
}

/// The image of a file that is no directory with the top of its own copy in it.
spec fn plain_image(platform: Platform) -> spec_fn(((Seq<u8>, Seq<u8>), Source)) -> Multiset<
    Effect,
> {
    |file: ((Seq<u8>, Seq<u8>), Source)|
        file_image(platform, None, file.1, file.0.0, file.0.1).to_multiset()
}

proof fn lemma_plain_images(
    platform: Platform,
    roots: spec_fn(int) -> Option<FileId>,
    op: CopyOpView,
    items: Seq<Source>,
    count: nat,
)
    requires
        count <= items.len(),
        all_without_their_tops(roots, items),
    ensures
        images(platform, roots, op, items, count) == total(
            with_items(op, items).take(count as int),
            plain_image(platform),
        ),
    decreases count,
{
    let files = with_items(op, items).take(count as int);
    if count > 0 {
        let i = count - 1;
        let (from, to) = op.files[i];
        lemma_plain_images(platform, roots, op, items, i as nat);
        assert(files.drop_last() =~= with_items(op, items).take(i));
        assert(files.last() == ((from, to), items[i]));
        match items[i] {
            Source::Directory(dir) => {
                if roots(i) is Some {
                    law_a_tree_without_the_top_is_copied_whole(
                        platform,
                        roots(i)->0,
                        Work { from, to, dir },
                    );
                }
            },
            _ => {},
        }
    }
}

/// The images of files have no order.
proof fn lemma_images_have_no_order(
    platform: Platform,
    roots: spec_fn(int) -> Option<FileId>,
    op: CopyOpView,
    items: Seq<Source>,
    other_roots: spec_fn(int) -> Option<FileId>,
    other: CopyOpView,
    other_items: Seq<Source>,
)
    requires
        with_items(op, items).to_multiset() == with_items(other, other_items).to_multiset(),
        all_without_their_tops(roots, items),
        all_without_their_tops(other_roots, other_items),
    ensures
        images(platform, roots, op, items, items.len()) == images(
            platform,
            other_roots,
            other,
            other_items,
            other_items.len(),
        ),
{
    let files = with_items(op, items);
    let others = with_items(other, other_items);
    lemma_plain_images(platform, roots, op, items, items.len());
    lemma_plain_images(platform, other_roots, other, other_items, other_items.len());
    assert(files.take(items.len() as int) =~= files);
    assert(others.take(other_items.len() as int) =~= others);
    lemma_total_has_no_order(files, others, plain_image(platform));
}

/// Neither the order of the files nor the scheduling of threads shows in the changes, on
/// Linux. Let two operations be on the same files, in whatever orders, and let both be done
/// without an error, as above. If no directory among the files holds the top of its own
/// copy, the same changes were made, each as often.
pub proof fn law_no_order_shows_in_the_changes<E>(
    at: DirectoryAt,
    op: CopyOpView,
    items: Seq<Source>,
    replies: Seq<RunReply<Seq<u8>, Seq<u8>, E>>,
    id_at: IdAt,
    parallelism: Option<usize>,
    events: Seq<CrewEvent<E>>,
    other: CopyOpView,
    other_items: Seq<Source>,
    other_replies: Seq<RunReply<Seq<u8>, Seq<u8>, E>>,
    other_id_at: IdAt,
    other_parallelism: Option<usize>,
    other_events: Seq<CrewEvent<E>>,
)
    requires
        well_done(at, op, items, replies, id_at, parallelism, events),
        well_done(
            at,
            other,
            other_items,
            other_replies,
            other_id_at,
            other_parallelism,
            other_events,
        ),
        with_items(op, items).to_multiset() == with_items(other, other_items).to_multiset(),
        all_without_their_tops(tops_at(id_at, op), items),
        all_without_their_tops(tops_at(other_id_at, other), other_items),
    ensures
        all_changes(op, replies, parallelism, events) == all_changes(
            other,
            other_replies,
            other_parallelism,
            other_events,
        ),
{
    law_an_operation_copies_its_files(at, op, items, replies, id_at, parallelism, events);
    law_an_operation_copies_its_files(
        at,
        other,
        other_items,
        other_replies,
        other_id_at,
        other_parallelism,
        other_events,
    );
    lemma_images_have_no_order(
        Platform::Linux,
        tops_at(id_at, op),
        op,
        items,
        tops_at(other_id_at, other),
        other,
        other_items,
    );
}

/// Whether each directory among the files was copied to the end, with answers that are true
/// of it, when it was handed over.
pub open spec fn directories_copied<E>(
    platform: Platform,
    op: CopyOpView,
    items: Seq<Source>,
    runs: Seq<DirRun<E>>,
) -> bool {
    forall|i: int|
        0 <= i < items.len() ==> (#[trigger] items[i] matches Source::Directory(dir) ==> dir_copied(
            platform,
            Work { from: op.files[i].0, to: op.files[i].1, dir },
            None,
            runs[i],
        ))
}

/// The changes that copying the directories among the first files made.
pub open spec fn made_in_dirs<E>(
    platform: Platform,
    op: CopyOpView,
    items: Seq<Source>,
    runs: Seq<DirRun<E>>,
    count: nat,
) -> Seq<Effect>
    decreases count,
{
    if count == 0 {
        seq![]
    } else {
        let i = count - 1;
        made_in_dirs(platform, op, items, runs, i as nat) + match items[i] {
            Source::Directory(dir) => made_in_dir(
                platform,
                Work { from: op.files[i].0, to: op.files[i].1, dir },
                None,
                runs[i],
            ),
            _ => seq![],
        }
    }
}

/// The tops of the copies of directories, as the copies found them.
pub open spec fn found_roots<E>(
    platform: Platform,
    op: CopyOpView,
    items: Seq<Source>,
    runs: Seq<DirRun<E>>,
) -> spec_fn(int) -> Option<FileId> {
    |i: int|
        root_of(
            platform,
            Work { from: op.files[i].0, to: op.files[i].1, dir: items[i]->Directory_0 },
            None,
            runs[i],
        )
}

/// What the files call for on the spot, and what was made in the directories among them, are
/// their images.
proof fn lemma_images_on_the_spot<E>(
    platform: Platform,
    op: CopyOpView,
    items: Seq<Source>,
    runs: Seq<DirRun<E>>,
    count: nat,
)
    requires
        platform != Platform::Linux,
        count <= items.len(),
        directories_copied(platform, op, items, runs),
    ensures
        images(platform, found_roots(platform, op, items, runs), op, items, count) == spot_images(
            platform,
            op,
            items,
            count,
        ).to_multiset().add(made_in_dirs(platform, op, items, runs, count).to_multiset()),
    decreases count,
{
    broadcast use vstd::seq_lib::group_to_multiset_ensures;

    let roots = found_roots(platform, op, items, runs);
    let all = images(platform, roots, op, items, count);
    let spots = spot_images(platform, op, items, count);
    let made = made_in_dirs(platform, op, items, runs, count);
    if count == 0 {
        assert(all =~= spots.to_multiset().add(made.to_multiset()));
    } else {
        let i = count - 1;
        let (from, to) = op.files[i];
        let spot = spot_image(platform, items[i], from, to);
        let before = made_in_dirs(platform, op, items, runs, i as nat);
        lemma_images_on_the_spot(platform, op, items, runs, i as nat);
        vstd::seq_lib::lemma_multiset_commutative(
            spot_images(platform, op, items, i as nat),
            spot,
        );
        match items[i] {
            Source::Directory(dir) => {
                let work = Work { from, to, dir };
                law_a_tree_is_copied_faithfully(platform, work, None, runs[i]);
                let tree = tree_effects(platform, roots(i), work);
                vstd::seq_lib::lemma_multiset_commutative(spot, tree);
                vstd::seq_lib::lemma_multiset_commutative(before, tree);
                assert(made == before + tree);
            },
            _ => {
                assert(file_image(platform, roots(i), items[i], from, to) =~= spot);
                assert(made =~= before);
            },
        }
        assert(all =~= spots.to_multiset().add(made.to_multiset()));
    }
}

/// Whether the run of an operation was done without an error, on another platform than
/// Linux, all answers being true of the files, and each directory among the files was copied
/// to the end when it was handed over.
pub open spec fn well_done_on_the_spot<E>(
    platform: Platform,
    op: CopyOpView,
    items: Seq<Source>,
    replies: Seq<RunReply<Seq<u8>, Seq<u8>, E>>,
    runs: Seq<DirRun<E>>,
) -> bool {
    &&& platform != Platform::Linux
    &&& items.len() == op.files.len()
    &&& fitting(RunView::<E>::begin(op, platform), replies)
    &&& run_through(RunView::<E>::begin(op, platform), replies) matches RunPhase::Done(Ok(_))
    &&& truthful(ScheduleView::begin(op, platform), sources_of(items), file_replies(replies))
    &&& directories_copied(platform, op, items, runs)
}

/// All changes that the run of an operation made, with the copies of the directories among
/// the files.
pub open spec fn all_changes_on_the_spot<E>(
    platform: Platform,
    op: CopyOpView,
    items: Seq<Source>,
    replies: Seq<RunReply<Seq<u8>, Seq<u8>, E>>,
    runs: Seq<DirRun<E>>,
) -> Multiset<Effect> {
    file_changes(ScheduleView::begin(op, platform), file_replies(replies)).to_multiset().add(
        made_in_dirs(platform, op, items, runs, items.len()).to_multiset(),
    )
}

/// An operation copies its files, on other platforms: as above, where each directory is
/// copied to the end, with all that is in it, when it is handed over.
pub proof fn law_an_operation_copies_its_files_on_the_spot<E>(
    platform: Platform,
    op: CopyOpView,
    items: Seq<Source>,
    replies: Seq<RunReply<Seq<u8>, Seq<u8>, E>>,
    runs: Seq<DirRun<E>>,
)
    requires
        well_done_on_the_spot(platform, op, items, replies, runs),
    ensures
        all_changes_on_the_spot(platform, op, items, replies, runs) == images(
            platform,
            found_roots(platform, op, items, runs),
            op,
            items,
            items.len(),
        ),
{
    lemma_all_gone_through(op, platform, items, replies);
    lemma_images_on_the_spot(platform, op, items, runs, items.len());
}

/// The order of the files does not show in the changes, on other platforms: as above.
pub proof fn law_no_order_shows_in_the_changes_on_the_spot<E>(
    platform: Platform,
    op: CopyOpView,
    items: Seq<Source>,
    replies: Seq<RunReply<Seq<u8>, Seq<u8>, E>>,
    runs: Seq<DirRun<E>>,
    other: CopyOpView,
    other_items: Seq<Source>,
    other_replies: Seq<RunReply<Seq<u8>, Seq<u8>, E>>,
    other_runs: Seq<DirRun<E>>,
)
    requires
        well_done_on_the_spot(platform, op, items, replies, runs),
        well_done_on_the_spot(platform, other, other_items, other_replies, other_runs),
        with_items(op, items).to_multiset() == with_items(other, other_items).to_multiset(),
        all_without_their_tops(found_roots(platform, op, items, runs), items),
        all_without_their_tops(
            found_roots(platform, other, other_items, other_runs),
            other_items,
        ),
    ensures
        all_changes_on_the_spot(platform, op, items, replies, runs) == all_changes_on_the_spot(
            platform,
            other,
            other_items,
            other_replies,
            other_runs,
        ),
{
    law_an_operation_copies_its_files_on_the_spot(platform, op, items, replies, runs);
    law_an_operation_copies_its_files_on_the_spot(
        platform,
        other,
        other_items,
        other_replies,
        other_runs,
    );
    lemma_images_have_no_order(
        platform,
        found_roots(platform, op, items, runs),
        op,
        items,
        found_roots(platform, other, other_items, other_runs),
        other,
        other_items,
    );
}

} // verus!
