//! Laws of the copy of a whole tree, as the copies of its directories, worked off
//! a queue.

use crate::c_path::child_path;
use crate::file_id::FileId;
use crate::linux::dir::DirCopy;
use crate::linux::laws::{
    changes, law_a_directory_is_copied_faithfully, nodes_of, queue, run, truthful,
};
use crate::linux::node::{Reply, TreeNode};
use crate::platform::Platform;
use crate::tree::{
    forest_effects, listed_work, own_effects, queued_work, spot_work, tree_effects, Effect, Source,
    SourceDir, SourceEntry, Work,
};
use crate::tree_laws::law_a_directory_is_its_share;
use vstd::multiset::Multiset;
use vstd::prelude::*;

verus! {

/// The directories that a file system holds, by their paths.
pub type DirectoryAt = spec_fn(Seq<u8>) -> SourceDir;

/// The identities of the directories that a file system holds, by their paths.
pub type IdAt = spec_fn(Seq<u8>) -> FileId;

/// Whether the file system holds the directory `dir`, with all below it, at
/// `from`, and lists no file as a directory or a link.
pub open spec fn stands(at: DirectoryAt, from: Seq<u8>, dir: SourceDir) -> bool
    decreases dir,
{
    at(from) == dir && stand(at, from, dir.entries)
}

/// Whether the same holds of the directories among these entries of `from`.
pub open spec fn stand(at: DirectoryAt, from: Seq<u8>, entries: Seq<SourceEntry>) -> bool
    decreases entries,
{
    entries.len() == 0 || {
        let last = entries[entries.len() - 1];
        &&& stand(at, from, entries.drop_last())
        &&& last.item.consistent()
        &&& last.item matches Source::Directory(dir) ==> stands(
            at,
            child_path(from, last.name),
            dir,
        )
    }
}

/// The copy of one queued directory: its place in the queue, and the answers that
/// its run got.
pub struct Job<E> {
    pub pick: int,
    pub replies: Seq<Reply<Seq<u8>, E>>,
}

/// A queue of directories, and the changes that were made so far.
pub struct Pool {
    pub queue: Seq<TreeNode<Seq<u8>>>,
    pub made: Seq<Effect>,
}

/// Whether a job takes a directory off the queue and copies it to the end, getting
/// answers that are true of the file system, of whose target directories `id_at`
/// gives the identities.
pub open spec fn carried_out<E>(
    at: DirectoryAt,
    id_at: IdAt,
    pool: Pool,
    job: Job<E>,
) -> bool {
    let node = pool.queue[job.pick];
    &&& 0 <= job.pick < pool.queue.len()
    &&& truthful(DirCopy::begin(node), at(node.from), job.replies)
    &&& run(DirCopy::begin(node), job.replies) matches Ok(copy) && copy.phase is Finished && (
    node.root_to_inode is None ==> copy.phase->Finished_root == id_at(node.to))
}

/// The pool after a job that was carried out.
pub open spec fn after_job<E>(pool: Pool, job: Job<E>) -> Pool {
    let start = DirCopy::begin(pool.queue[job.pick]);
    Pool {
        queue: pool.queue.remove(job.pick) + queue(start, job.replies),
        made: pool.made + changes(start, job.replies),
    }
}

/// Whether the jobs are carried out one after the other and leave no directory in
/// the queue.
pub open spec fn all_carried_out<E>(
    at: DirectoryAt,
    id_at: IdAt,
    pool: Pool,
    jobs: Seq<Job<E>>,
) -> bool
    decreases jobs.len(),
{
    if jobs.len() == 0 {
        pool.queue.len() == 0
    } else {
        carried_out(at, id_at, pool, jobs[0]) && all_carried_out(
            at,
            id_at,
            after_job(pool, jobs[0]),
            jobs.drop_first(),
        )
    }
}

/// The changes that were made when the jobs have been carried out.
pub open spec fn made_by<E>(pool: Pool, jobs: Seq<Job<E>>) -> Seq<Effect>
    decreases jobs.len(),
{
    if jobs.len() == 0 {
        pool.made
    } else {
        made_by(after_job(pool, jobs[0]), jobs.drop_first())
    }
}

/// A queued directory, and the identity of the top of its copy, if it came with it.
pub struct Queued {
    pub work: Work,
    pub root_to_inode: Option<FileId>,
}

impl Queued {
    /// The node under which the directory is queued.
    pub open spec fn node(self) -> TreeNode<Seq<u8>> {
        TreeNode {
            from: self.work.from,
            to: self.work.to,
            root_to_inode: self.root_to_inode,
        }
    }

    /// The identity of the top of its copy.
    pub open spec fn root(self, id_at: IdAt) -> FileId {
        match self.root_to_inode {
            Some(root) => root,
            None => id_at(self.work.to),
        }
    }

    /// The changes that copying the tree makes.
    pub open spec fn effects(self, id_at: IdAt) -> Multiset<Effect> {
        tree_effects(Platform::Linux, Some(self.root(id_at)), self.work).to_multiset()
    }
}

/// The changes that copying all of these trees makes.
pub open spec fn queued_effects(id_at: IdAt, pending: Seq<Queued>) -> Multiset<Effect>
    decreases pending.len(),
{
    if pending.len() == 0 {
        Multiset::empty()
    } else {
        queued_effects(id_at, pending.drop_last()).add(pending.last().effects(id_at))
    }
}

/// These directories, queued with the identity of the top of their copy.
spec fn queued_under(works: Seq<Work>, root: FileId) -> Seq<Queued> {
    works.map_values(|work: Work| Queued { work, root_to_inode: Some(root) })
}

/// These directories, as they are handed over.
pub open spec fn handed_over(works: Seq<Work>) -> Seq<Queued> {
    works.map_values(|work: Work| Queued { work, root_to_inode: None })
}

/// The nodes under which directories are queued.
pub open spec fn queue_of(pending: Seq<Queued>) -> Seq<TreeNode<Seq<u8>>> {
    pending.map_values(|queued: Queued| queued.node())
}

/// Whether all of these directories stand where they are to be copied from.
pub open spec fn all_stand(at: DirectoryAt, works: Seq<Work>) -> bool {
    forall|k: int| 0 <= k < works.len() ==> stands(at, (#[trigger] works[k]).from, works[k].dir)
}

/// Whether all of these queued directories stand where they are to be copied from.
spec fn all_queued_stand(at: DirectoryAt, pending: Seq<Queued>) -> bool {
    forall|k: int|
        0 <= k < pending.len() ==> stands(
            at,
            (#[trigger] pending[k]).work.from,
            pending[k].work.dir,
        )
}

/// The trees in two queues together.
proof fn lemma_queued_add(id_at: IdAt, one: Seq<Queued>, other: Seq<Queued>)
    ensures
        queued_effects(id_at, one + other) == queued_effects(id_at, one).add(
            queued_effects(id_at, other),
        ),
    decreases other.len(),
{
    if other.len() == 0 {
        assert(one + other =~= one);
        assert(queued_effects(id_at, one).add(Multiset::empty()) =~= queued_effects(id_at, one));
    } else {
        lemma_queued_add(id_at, one, other.drop_last());
        assert((one + other).drop_last() =~= one + other.drop_last());
        assert(queued_effects(id_at, one + other) =~= queued_effects(id_at, one).add(
            queued_effects(id_at, other.drop_last()).add(other.last().effects(id_at)),
        ));
    }
}

/// The tree that is taken out of a queue, and the rest.
proof fn lemma_queued_remove(id_at: IdAt, pending: Seq<Queued>, pick: int)
    requires
        0 <= pick < pending.len(),
    ensures
        queued_effects(id_at, pending) == queued_effects(id_at, pending.remove(pick)).add(
            pending[pick].effects(id_at),
        ),
{
    let before = pending.take(pick);
    let single = seq![pending[pick]];
    let behind = pending.skip(pick + 1);
    assert(pending =~= (before + single) + behind);
    assert(pending.remove(pick) =~= before + behind);
    lemma_queued_add(id_at, before + single, behind);
    lemma_queued_add(id_at, before, single);
    lemma_queued_add(id_at, before, behind);
    assert(single.drop_last() =~= Seq::<Queued>::empty());
    assert(queued_effects(id_at, single.drop_last()) == Multiset::<Effect>::empty());
    assert(queued_effects(id_at, single) =~= pending[pick].effects(id_at));
    assert(queued_effects(id_at, pending) =~= queued_effects(id_at, pending.remove(pick)).add(
        pending[pick].effects(id_at),
    ));
}

/// The trees that are queued with one identity.
proof fn lemma_queued_under(id_at: IdAt, works: Seq<Work>, root: FileId)
    ensures
        queued_effects(id_at, queued_under(works, root)) == forest_effects(
            Platform::Linux,
            Some(root),
            works,
        ),
    decreases works.len(),
{
    if works.len() > 0 {
        lemma_queued_under(id_at, works.drop_last(), root);
        assert(queued_under(works, root).drop_last() =~= queued_under(works.drop_last(), root));
    }
}

/// No file among the entries is listed as a directory or a link.
pub(crate) proof fn lemma_entries_consistent(
    at: DirectoryAt,
    from: Seq<u8>,
    entries: Seq<SourceEntry>,
    i: int,
)
    requires
        stand(at, from, entries),
        0 <= i < entries.len(),
    ensures
        entries[i].item.consistent(),
    decreases entries.len(),
{
    if i < entries.len() - 1 {
        lemma_entries_consistent(at, from, entries.drop_last(), i);
        assert(entries.drop_last()[i] == entries[i]);
    }
}

/// The directories that a directory queues stand where they are to be copied from.
pub(crate) proof fn lemma_queued_stand(
    at: DirectoryAt,
    root: Option<FileId>,
    from: Seq<u8>,
    to: Seq<u8>,
    entries: Seq<SourceEntry>,
)
    requires
        stand(at, from, entries),
    ensures
        all_stand(at, listed_work(Platform::Linux, root, from, to, entries)),
    decreases entries.len(),
{
    if entries.len() > 0 {
        let first = listed_work(Platform::Linux, root, from, to, entries.drop_last());
        let last = spot_work(Platform::Linux, root, from, to, entries.last());
        let all = listed_work(Platform::Linux, root, from, to, entries);
        lemma_queued_stand(at, root, from, to, entries.drop_last());
        assert forall|k: int| 0 <= k < all.len() implies stands(
            at,
            (#[trigger] all[k]).from,
            all[k].dir,
        ) by {
            if k < first.len() {
                assert(all[k] == first[k]);
            } else {
                assert(all[k] == last[k - first.len()]);
            }
        }
    }
}

/// One directory of a tree: the changes that it leads to, and what it leaves to do.
pub(crate) proof fn lemma_one_job<E>(
    at: DirectoryAt,
    work: Work,
    root: FileId,
    root_to_inode: Option<FileId>,
    replies: Seq<Reply<Seq<u8>, E>>,
)
    requires
        stands(at, work.from, work.dir),
        truthful(
            DirCopy::begin(TreeNode { from: work.from, to: work.to, root_to_inode }),
            work.dir,
            replies,
        ),
        run(
            DirCopy::begin(TreeNode { from: work.from, to: work.to, root_to_inode }),
            replies,
        ) matches Ok(copy) && copy.phase is Finished && copy.phase->Finished_root == root,
    ensures
        root_to_inode matches Some(known) ==> known == root,
        changes(
            DirCopy::begin(TreeNode { from: work.from, to: work.to, root_to_inode }),
            replies,
        ) == own_effects(Platform::Linux, Some(root), work),
        queue(
            DirCopy::begin(TreeNode { from: work.from, to: work.to, root_to_inode }),
            replies,
        ) == nodes_of(queued_work(Platform::Linux, Some(root), work), root),
        all_stand(at, queued_work(Platform::Linux, Some(root), work)),
{
    let node = TreeNode { from: work.from, to: work.to, root_to_inode };
    assert forall|i: int| 0 <= i < work.dir.entries.len() implies (
    #[trigger] work.dir.entries[i]).item.consistent() by {
        lemma_entries_consistent(at, work.from, work.dir.entries, i);
    }
    law_a_directory_is_copied_faithfully(node, work.dir, replies, root);
    lemma_queued_stand(at, Some(root), work.from, work.to, work.dir.entries);
}

/// Working off queued directories.
proof fn lemma_pool_copies<E>(
    at: DirectoryAt,
    id_at: IdAt,
    pool: Pool,
    pending: Seq<Queued>,
    jobs: Seq<Job<E>>,
)
    requires
        pool.queue == queue_of(pending),
        all_queued_stand(at, pending),
        all_carried_out(at, id_at, pool, jobs),
    ensures
        made_by(pool, jobs).to_multiset() == pool.made.to_multiset().add(
            queued_effects(id_at, pending),
        ),
    decreases jobs.len(),
{
    if jobs.len() == 0 {
        assert(pending.len() == 0);
        assert(pool.made.to_multiset().add(Multiset::empty()) =~= pool.made.to_multiset());
    } else {
        let job = jobs[0];
        let picked = pending[job.pick];
        let work = picked.work;
        let node = pool.queue[job.pick];
        let found = run(DirCopy::begin(node), job.replies)->Ok_0.phase->Finished_root;
        let root = picked.root(id_at);
        assert(node == picked.node());
        assert(at(node.from) == work.dir);
        lemma_one_job(at, work, found, picked.root_to_inode, job.replies);
        assert(found == root);
        let works = queued_work(Platform::Linux, Some(root), work);
        let queued = queued_under(works, root);
        let kept = pending.remove(job.pick);
        let rest = kept + queued;
        let next = after_job(pool, job);
        assert(next.queue =~= queue_of(rest));
        assert(all_queued_stand(at, rest)) by {
            assert forall|k: int| 0 <= k < rest.len() implies stands(
                at,
                (#[trigger] rest[k]).work.from,
                rest[k].work.dir,
            ) by {
                if k < kept.len() {
                    assert(rest[k] == kept[k]);
                    if k < job.pick {
                        assert(kept[k] == pending[k]);
                    } else {
                        assert(kept[k] == pending[k + 1]);
                    }
                } else {
                    assert(rest[k].work == works[k - kept.len()]);
                }
            }
        }
        lemma_pool_copies(at, id_at, next, rest, jobs.drop_first());
        let own = own_effects(Platform::Linux, Some(root), work);
        vstd::seq_lib::lemma_multiset_commutative(pool.made, own);
        lemma_queued_add(id_at, kept, queued);
        lemma_queued_remove(id_at, pending, job.pick);
        lemma_queued_under(id_at, works, root);
        law_a_directory_is_its_share(Platform::Linux, Some(root), work);
        assert(made_by(pool, jobs).to_multiset() =~= pool.made.to_multiset().add(
            queued_effects(id_at, pending),
        ));
    }
}

/// Trees are copied faithfully. Let directories that stand in a file system be handed
/// over, and let directories be taken off the queue, in whatever order, and each be copied
/// to the end, until the queue is empty. If all answers were true of the file system, the
/// changes that were made are the images of the trees, each change as often as the trees
/// call for it, and nothing else. From each tree that one directory is left out which is
/// the top of its own copy.
pub proof fn law_trees_are_copied_faithfully<E>(
    at: DirectoryAt,
    id_at: IdAt,
    works: Seq<Work>,
    jobs: Seq<Job<E>>,
)
    requires
        all_stand(at, works),
        all_carried_out(
            at,
            id_at,
            Pool { queue: queue_of(handed_over(works)), made: seq![] },
            jobs,
        ),
    ensures
        made_by(
            Pool { queue: queue_of(handed_over(works)), made: seq![] },
            jobs,
        ).to_multiset() == queued_effects(id_at, handed_over(works)),
{
    broadcast use vstd::seq_lib::group_to_multiset_ensures;

    let pool = Pool { queue: queue_of(handed_over(works)), made: seq![] };
    let pending = handed_over(works);
    assert(all_queued_stand(at, pending)) by {
        assert forall|k: int| 0 <= k < pending.len() implies stands(
            at,
            (#[trigger] pending[k]).work.from,
            pending[k].work.dir,
        ) by {
            assert(pending[k].work == works[k]);
        }
    }
    lemma_pool_copies(at, id_at, pool, pending, jobs);
    assert(pool.made.to_multiset().add(queued_effects(id_at, pending)) =~= queued_effects(
        id_at,
        pending,
    ));
}

/// A tree is copied faithfully: as above, of one directory that was handed over.
pub proof fn law_a_tree_is_copied_faithfully<E>(
    at: DirectoryAt,
    id_at: IdAt,
    work: Work,
    jobs: Seq<Job<E>>,
)
    requires
        stands(at, work.from, work.dir),
        all_carried_out(
            at,
            id_at,
            Pool {
                queue: seq![TreeNode { from: work.from, to: work.to, root_to_inode: None }],
                made: seq![],
            },
            jobs,
        ),
    ensures
        made_by(
            Pool {
                queue: seq![TreeNode { from: work.from, to: work.to, root_to_inode: None }],
                made: seq![],
            },
            jobs,
        ).to_multiset() == tree_effects(
            Platform::Linux,
            Some(id_at(work.to)),
            work,
        ).to_multiset(),
{
    let works = seq![work];
    let pending = handed_over(works);
    assert(queue_of(pending) =~= seq![
        TreeNode { from: work.from, to: work.to, root_to_inode: None },
    ]);
    law_trees_are_copied_faithfully(at, id_at, works, jobs);
    lemma_queued_remove(id_at, pending, 0);
    assert(pending.remove(0) =~= Seq::<Queued>::empty());
    assert(queued_effects(id_at, pending.remove(0)) == Multiset::<Effect>::empty());
    assert(queued_effects(id_at, pending) =~= pending[0].effects(id_at));
}

} // verus!
