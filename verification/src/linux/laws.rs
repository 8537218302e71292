//! Laws of the copy of one directory, over whole runs of it.

use crate::c_path::{child_path, is_dot_name};
use crate::error::{ErrorView, Failure, FailureKind};
use crate::file_id::FileId;
use crate::file_type::{permission_bits, type_bits, FileType};
use crate::linux::dir::{passes_over, DirCopy, Phase};
use crate::linux::file::{first_step, Step};
use crate::linux::node::{Entry, OpenFlags, Reply, Request, TreeNode};
use crate::platform::Platform;
use crate::tree::{
    image, left_out, listed_effects, listed_work, own_effects, queued_work, spot_effects,
    spot_work, Effect, Source, SourceDir, SourceEntry, Work,
};
use vstd::prelude::*;

verus! {

/// Where a copy stands after these answers.
pub open spec fn run<E>(copy: DirCopy<Seq<u8>>, replies: Seq<Reply<Seq<u8>, E>>) -> Result<
    DirCopy<Seq<u8>>,
    ErrorView<E>,
>
    decreases replies.len(),
{
    if replies.len() == 0 {
        Ok(copy)
    } else {
        match run(copy, replies.drop_last()) {
            Ok(copy) => copy.after(replies.last()),
            Err(error) => Err(error),
        }
    }
}

/// Whether opening a file like this leaves an empty file that can be written to. One that is
/// opened only to stand for a path is neither made nor emptied, nor can it be written to.
pub open spec fn empties(flags: OpenFlags) -> bool {
    &&& flags.write
    &&& flags.create
    &&& flags.truncate
    &&& !flags.directory
    &&& !flags.no_follow
    &&& !flags.path
}

/// The lasting change that a call made, if it made one, as what was asked for has it. The
/// bytes of a file are those of the entry that is being copied.
pub open spec fn change<E>(copy: DirCopy<Seq<u8>>, reply: Reply<Seq<u8>, E>) -> Seq<Effect> {
    let filled = Effect::Fill {
        path: child_path(copy.node.to, copy.phase->Copying_name),
        from: child_path(copy.node.from, copy.phase->Copying_name),
    };
    match copy.wants() {
        Some(Request::MakeDir { path, mode }) => match reply.failure() {
            Some(failure) if failure.kind != FailureKind::AlreadyExists => seq![],
            _ => seq![Effect::Directory { path, new_mode: Some(mode) }],
        },
        Some(Request::MakeLink { target, name }) if reply.failure() is None => seq![
            Effect::Symlink { path: child_path(copy.node.to, name), target },
        ],
        Some(Request::OpenTargetFile { name, flags, mode }) if reply.failure() is None && empties(
            flags,
        ) => seq![Effect::Create { path: child_path(copy.node.to, name), mode }],
        Some(Request::CopyRange { .. }) if reply == Reply::<Seq<u8>, E>::Copied(Ok(0)) => seq![
            filled,
        ],
        Some(Request::CopyRest) if reply.failure() is None => seq![filled],
        _ => seq![],
    }
}

/// The directory that a call queued, if it queued one.
pub open spec fn enqueued<E>(copy: DirCopy<Seq<u8>>, reply: Reply<Seq<u8>, E>) -> Seq<
    TreeNode<Seq<u8>>,
> {
    match copy.wants() {
        Some(Request::Send { node }) if reply == Reply::<Seq<u8>, E>::Sent(true) => seq![node],
        _ => seq![],
    }
}

/// The lasting changes that a run made, in their order.
pub open spec fn changes<E>(copy: DirCopy<Seq<u8>>, replies: Seq<Reply<Seq<u8>, E>>) -> Seq<Effect>
    decreases replies.len(),
{
    if replies.len() == 0 {
        seq![]
    } else {
        let before = replies.drop_last();
        changes(copy, before) + match run(copy, before) {
            Ok(copy) => change(copy, replies.last()),
            Err(_) => seq![],
        }
    }
}

/// The directories that a run queued, in their order.
pub open spec fn queue<E>(copy: DirCopy<Seq<u8>>, replies: Seq<Reply<Seq<u8>, E>>) -> Seq<
    TreeNode<Seq<u8>>,
>
    decreases replies.len(),
{
    if replies.len() == 0 {
        seq![]
    } else {
        let before = replies.drop_last();
        queue(copy, before) + match run(copy, before) {
            Ok(copy) => enqueued(copy, replies.last()),
            Err(_) => seq![],
        }
    }
}

/// How many entries were read.
pub open spec fn entries_read<E>(replies: Seq<Reply<Seq<u8>, E>>) -> nat
    decreases replies.len(),
{
    if replies.len() == 0 {
        0
    } else {
        let before = entries_read(replies.drop_last());
        match replies.last() {
            Reply::Entry(Some(_)) => before + 1,
            _ => before,
        }
    }
}

/// Whether an answer about the source directory, as far as it is one, is true of
/// `dir`, of which `read` entries were read before. Of the entry that was read
/// last, the listing may leave the type open. An entry that cannot be identified is taken
/// for the top of the copy, and has to be it. Nothing is known of what was asked about any
/// other name, nor of what a link leads to.
pub open spec fn tells<E>(
    copy: DirCopy<Seq<u8>>,
    dir: SourceDir,
    read: nat,
    reply: Reply<Seq<u8>, E>,
) -> bool {
    let last = dir.entries[read - 1];
    match copy.wants() {
        Some(Request::StatSourceDir) => reply matches Reply::Mode(Ok(raw)) ==> raw == dir.mode,
        Some(Request::ReadEntry) => match reply {
            Reply::Entry(None) => read == dir.entries.len(),
            Reply::Entry(Some(Ok(entry))) => {
                &&& read < dir.entries.len()
                &&& entry.name == dir.entries[read as int].name
                &&& entry.ino == dir.entries[read as int].ino
                &&& entry.file_type == dir.entries[read as int].item.file_type() || entry.file_type
                    == FileType::Unknown
            },
            _ => true,
        },
        Some(Request::IdentifyEntry { name }) => name == last.name ==> match reply {
            Reply::Id(Ok(id)) => id == last.id,
            _ => copy.phase->Identifying_root == last.id,
        },
        Some(Request::StatEntry { name, follow: false }) => name == last.name ==> (
        reply matches Reply::Mode(Ok(raw)) ==> type_bits(raw) == last.item.file_type()),
        Some(Request::StatEntry { name, follow: true }) => name == last.name ==> (
        reply matches Reply::Mode(Ok(raw)) ==> (last.item matches Source::File { mode, .. } ==> raw
            == mode)),
        Some(Request::ReadLink { name }) => name == last.name ==> (reply matches Reply::Link(
            Ok(target),
        ) ==> last.item == Source::Symlink(target)),
        _ => true,
    }
}

/// Whether each answer is one that its call can give, and is true of the source
/// directory `dir`.
pub open spec fn truthful<E>(
    copy: DirCopy<Seq<u8>>,
    dir: SourceDir,
    replies: Seq<Reply<Seq<u8>, E>>,
) -> bool
    decreases replies.len(),
{
    replies.len() == 0 || {
        let before = replies.drop_last();
        &&& truthful(copy, dir, before)
        &&& run(copy, before) matches Ok(copy) && copy.takes(replies.last()) && tells(
            copy,
            dir,
            entries_read(before),
            replies.last(),
        )
    }
}

/// The nodes under which directories are queued.
pub open spec fn nodes_of(queued: Seq<Work>, root: FileId) -> Seq<TreeNode<Seq<u8>>> {
    queued.map_values(
        |work: Work| TreeNode { from: work.from, to: work.to, root_to_inode: Some(root) },
    )
}

/// Whether a step fits the object that is copied.
pub open spec fn step_fits(step: Step<Seq<u8>>, item: Source) -> bool {
    match step {
        Step::Typing => true,
        Step::Sending => item is Directory,
        Step::ReadingLink => item is Symlink,
        Step::Linking { target } => item == Source::Symlink(target),
        Step::OpeningFrom { .. } => item is File,
        Step::StattingFrom { .. } => item is File,
        Step::OpeningTo { mode, .. } => item matches Source::File { mode: raw, .. } && mode
            == permission_bits(raw),
        Step::Ranging { .. } => item is File,
        Step::Streaming => item is File,
    }
}

/// The change that the copy of an entry has made when it has come this far: a file that
/// is being filled was made before.
pub open spec fn begun(step: Step<Seq<u8>>, item: Source, path: Seq<u8>) -> Seq<Effect> {
    match (step, item) {
        (Step::Ranging { .. }, Source::File { mode, .. }) => seq![
            Effect::Create { path, mode: permission_bits(mode) },
        ],
        (Step::Streaming, Source::File { mode, .. }) => seq![
            Effect::Create { path, mode: permission_bits(mode) },
        ],
        _ => seq![],
    }
}

/// What holds wherever a truthful run stands, `read` entries of the directory having been
/// read: what was changed and queued is what the part of the directory that was read leads
/// to. Of the entry that is being copied that is what was begun.
pub open spec fn on_course(
    copy: DirCopy<Seq<u8>>,
    node: TreeNode<Seq<u8>>,
    dir: SourceDir,
    read: nat,
    made: Seq<Effect>,
    queued: Seq<TreeNode<Seq<u8>>>,
) -> bool {
    let top = image(Platform::Linux, Source::Directory(dir), node.from, node.to);
    let none = Seq::<TreeNode<Seq<u8>>>::empty();
    &&& copy.node == node
    &&& read <= dir.entries.len()
    &&& match copy.phase {
        Phase::OpeningSource => read == 0 && made.len() == 0 && queued == none,
        Phase::StattingSource => read == 0 && made.len() == 0 && queued == none,
        Phase::MakingTarget { mode } => read == 0 && made.len() == 0 && queued == none && mode
            == permission_bits(dir.mode),
        Phase::OpeningTarget => read == 0 && made == top && queued == none,
        Phase::StattingTarget => read == 0 && made == top && queued == none && node.root_to_inode
            == None::<FileId>,
        Phase::Reading { root } => {
            let seen = dir.entries.take(read as int);
            &&& node.root_to_inode matches Some(known) ==> known == root
            &&& made == top + listed_effects(
                Platform::Linux,
                Some(root),
                node.from,
                node.to,
                seen,
            )
            &&& queued == nodes_of(
                listed_work(Platform::Linux, Some(root), node.from, node.to, seen),
                root,
            )
        },
        Phase::Identifying { root, name, file_type } => {
            let seen = dir.entries.take(read - 1);
            let entry = dir.entries[read - 1];
            &&& read > 0
            &&& node.root_to_inode matches Some(known) ==> known == root
            &&& name == entry.name
            &&& !is_dot_name(name)
            &&& entry.ino == root.ino
            &&& file_type == entry.item.file_type() || file_type == FileType::Unknown
            &&& made == top + listed_effects(
                Platform::Linux,
                Some(root),
                node.from,
                node.to,
                seen,
            )
            &&& queued == nodes_of(
                listed_work(Platform::Linux, Some(root), node.from, node.to, seen),
                root,
            )
        },
        Phase::Copying { root, name, step } => {
            let seen = dir.entries.take(read - 1);
            let entry = dir.entries[read - 1];
            &&& read > 0
            &&& node.root_to_inode matches Some(known) ==> known == root
            &&& name == entry.name
            &&& !left_out(Platform::Linux, Some(root), entry)
            &&& step_fits(step, entry.item)
            &&& made == top + listed_effects(
                Platform::Linux,
                Some(root),
                node.from,
                node.to,
                seen,
            ) + begun(step, entry.item, child_path(node.to, name))
            &&& queued == nodes_of(
                listed_work(Platform::Linux, Some(root), node.from, node.to, seen),
                root,
            )
        },
        Phase::Finished { root } => {
            &&& node.root_to_inode matches Some(known) ==> known == root
            &&& read == dir.entries.len()
            &&& made == top + listed_effects(
                Platform::Linux,
                Some(root),
                node.from,
                node.to,
                dir.entries,
            )
            &&& queued == nodes_of(
                listed_work(Platform::Linux, Some(root), node.from, node.to, dir.entries),
                root,
            )
        },
    }
}

/// One more entry of a listing.
proof fn lemma_one_more(
    root: FileId,
    from: Seq<u8>,
    to: Seq<u8>,
    entries: Seq<SourceEntry>,
    read: int,
)
    requires
        0 <= read < entries.len(),
    ensures
        listed_effects(Platform::Linux, Some(root), from, to, entries.take(read + 1))
            == listed_effects(Platform::Linux, Some(root), from, to, entries.take(read))
            + spot_effects(Platform::Linux, Some(root), from, to, entries[read]),
        nodes_of(listed_work(Platform::Linux, Some(root), from, to, entries.take(read + 1)), root)
            == nodes_of(
            listed_work(Platform::Linux, Some(root), from, to, entries.take(read)),
            root,
        )
            + nodes_of(spot_work(Platform::Linux, Some(root), from, to, entries[read]), root),
{
    let more = entries.take(read + 1);
    assert(more.drop_last() =~= entries.take(read));
    assert(more.last() == entries[read]);
    assert(nodes_of(listed_work(Platform::Linux, Some(root), from, to, more), root) =~= nodes_of(
        listed_work(Platform::Linux, Some(root), from, to, entries.take(read)),
        root,
    ) + nodes_of(spot_work(Platform::Linux, Some(root), from, to, entries[read]), root));
}

/// A truthful answer keeps a run on course.
proof fn lemma_stays_on_course<E>(
    copy: DirCopy<Seq<u8>>,
    node: TreeNode<Seq<u8>>,
    dir: SourceDir,
    replies: Seq<Reply<Seq<u8>, E>>,
    made: Seq<Effect>,
    queued: Seq<TreeNode<Seq<u8>>>,
)
    requires
        replies.len() > 0,
        on_course(copy, node, dir, entries_read(replies.drop_last()), made, queued),
        copy.takes(replies.last()),
        tells(copy, dir, entries_read(replies.drop_last()), replies.last()),
        copy.after(replies.last()) is Ok,
        forall|i: int| 0 <= i < dir.entries.len() ==> (#[trigger] dir.entries[i]).item.consistent(),
    ensures
        on_course(
            copy.after(replies.last())->Ok_0,
            node,
            dir,
            entries_read(replies),
            made + change(copy, replies.last()),
            queued + enqueued(copy, replies.last()),
        ),
{
    let reply = replies.last();
    let read = entries_read(replies.drop_last());
    let more_made = made + change(copy, reply);
    let more_queued = queued + enqueued(copy, reply);
    let top = image(Platform::Linux, Source::Directory(dir), node.from, node.to);
    match copy.phase {
        Phase::MakingTarget { mode } => {
            assert(more_made =~= top);
            assert(more_queued =~= queued);
        },
        Phase::Reading { root } => {
            assert(more_made =~= made);
            assert(more_queued =~= queued);
            match reply {
                Reply::Entry(Some(Ok(listed))) => {
                    let entry = dir.entries[read as int];
                    lemma_one_more(root, node.from, node.to, dir.entries, read as int);
                    assert(dir.entries.take((read + 1) - 1) =~= dir.entries.take(read as int));
                    if is_dot_name(entry.name) {
                        assert(more_made =~= top + listed_effects(
                            Platform::Linux,
                            Some(root),
                            node.from,
                            node.to,
                            dir.entries.take(read as int + 1),
                        ));
                        assert(more_queued =~= nodes_of(
                            listed_work(
                                Platform::Linux,
                                Some(root),
                                node.from,
                                node.to,
                                dir.entries.take(read as int + 1),
                            ),
                            root,
                        ));
                    } else {
                        assert(entry.item.consistent());
                    }
                },
                _ => {
                    assert(dir.entries.take(read as int) =~= dir.entries);
                },
            }
        },
        Phase::Identifying { root, name, .. } => {
            let entry = dir.entries[read - 1];
            assert(more_made =~= made);
            assert(more_queued =~= queued);
            assert(entry.item.consistent());
            lemma_one_more(root, node.from, node.to, dir.entries, read - 1);
            assert((read - 1) + 1 == read);
            if left_out(Platform::Linux, Some(root), entry) {
                assert(more_made =~= top + listed_effects(
                    Platform::Linux,
                    Some(root),
                    node.from,
                    node.to,
                    dir.entries.take(read as int),
                ));
                assert(more_queued =~= nodes_of(
                    listed_work(
                        Platform::Linux,
                        Some(root),
                        node.from,
                        node.to,
                        dir.entries.take(read as int),
                    ),
                    root,
                ));
            }
        },
        Phase::Copying { root, name, step } => {
            let entry = dir.entries[read - 1];
            let path = child_path(node.to, name);
            assert(entry.item.consistent());
            lemma_one_more(root, node.from, node.to, dir.entries, read - 1);
            let seen = listed_effects(
                Platform::Linux,
                Some(root),
                node.from,
                node.to,
                dir.entries.take(read - 1),
            );
            match copy.after(reply)->Ok_0.phase {
                Phase::Copying { step: next, .. } => {
                    assert(more_queued =~= queued);
                    assert(more_made =~= top + seen + begun(next, entry.item, path));
                },
                _ => {
                    let spot = spot_effects(
                        Platform::Linux,
                        Some(root),
                        node.from,
                        node.to,
                        entry,
                    );
                    assert(begun(step, entry.item, path) + change(copy, reply) =~= spot);
                    assert(more_made =~= top + (seen + spot));
                    assert(enqueued(copy, reply) =~= nodes_of(
                        spot_work(Platform::Linux, Some(root), node.from, node.to, entry),
                        root,
                    ));
                    assert((read - 1) + 1 == read);
                },
            }
        },
        Phase::OpeningTarget => {
            assert(more_made =~= made);
            assert(more_queued =~= queued);
            match node.root_to_inode {
                Some(root) => {
                    lemma_none_read(node, dir, root, top);
                },
                None => {},
            }
        },
        Phase::StattingTarget => {
            assert(more_made =~= made);
            assert(more_queued =~= queued);
            lemma_none_read(node, dir, reply->Id_0->Ok_0, top);
        },
        _ => {
            assert(more_made =~= made);
            assert(more_queued =~= queued);
        },
    }
}

/// Before the first entry was read.
proof fn lemma_none_read(node: TreeNode<Seq<u8>>, dir: SourceDir, root: FileId, made: Seq<Effect>)
    ensures
        made + listed_effects(
            Platform::Linux,
            Some(root),
            node.from,
            node.to,
            dir.entries.take(0),
        ) == made,
        nodes_of(
            listed_work(Platform::Linux, Some(root), node.from, node.to, dir.entries.take(0)),
            root,
        ) == Seq::<TreeNode<Seq<u8>>>::empty(),
{
    assert(dir.entries.take(0).len() == 0);
    assert(made + Seq::<Effect>::empty() =~= made);
    assert(nodes_of(Seq::<Work>::empty(), root) =~= Seq::<TreeNode<Seq<u8>>>::empty());
}

/// Every truthful run that has not failed is on course.
proof fn lemma_runs_on_course<E>(
    node: TreeNode<Seq<u8>>,
    dir: SourceDir,
    replies: Seq<Reply<Seq<u8>, E>>,
)
    requires
        truthful(DirCopy::begin(node), dir, replies),
        run(DirCopy::begin(node), replies) is Ok,
        forall|i: int| 0 <= i < dir.entries.len() ==> (#[trigger] dir.entries[i]).item.consistent(),
    ensures
        on_course(
            run(DirCopy::begin(node), replies)->Ok_0,
            node,
            dir,
            entries_read(replies),
            changes(DirCopy::begin(node), replies),
            queue(DirCopy::begin(node), replies),
        ),
    decreases replies.len(),
{
    if replies.len() > 0 {
        let before = replies.drop_last();
        lemma_runs_on_course(node, dir, before);
        lemma_stays_on_course(
            run(DirCopy::begin(node), before)->Ok_0,
            node,
            dir,
            replies,
            changes(DirCopy::begin(node), before),
            queue(DirCopy::begin(node), before),
        );
    }
}

/// What a run has come to is all that it changed. Wherever a run on a directory stands, if
/// every answer was true of that directory, the changes that it made and the directories
/// that it queued are the share of the entries that it has read, and of the entry that it
/// is at what was begun. Where it failed, that is the share at the call that failed, which
/// made no change and queued nothing; a file that it was filling may hold part of its
/// bytes.
pub proof fn law_a_run_changes_no_more_than_it_came_to<E>(
    node: TreeNode<Seq<u8>>,
    dir: SourceDir,
    replies: Seq<Reply<Seq<u8>, E>>,
)
    requires
        truthful(DirCopy::begin(node), dir, replies),
        forall|i: int| 0 <= i < dir.entries.len() ==> (#[trigger] dir.entries[i]).item.consistent(),
    ensures
        ({
            let start = DirCopy::begin(node);
            let made = changes(start, replies);
            let queued = queue(start, replies);
            let before = replies.drop_last();
            match run(start, replies) {
                Ok(copy) => on_course(copy, node, dir, entries_read(replies), made, queued),
                Err(_) => replies.len() > 0 && (run(start, before) matches Ok(copy) && on_course(
                    copy,
                    node,
                    dir,
                    entries_read(before),
                    made,
                    queued,
                )),
            }
        }),
{
    let start = DirCopy::begin(node);
    match run(start, replies) {
        Ok(_) => {
            lemma_runs_on_course(node, dir, replies);
        },
        Err(_) => {
            let before = replies.drop_last();
            lemma_runs_on_course(node, dir, before);
            assert(changes(start, replies) =~= changes(start, before));
            assert(queue(start, replies) =~= queue(start, before));
        },
    }
}

/// A directory is copied faithfully. Once a run on a directory has finished, in
/// which every answer was true of that directory, the changes that it made are the
/// directory's share of the image of the tree, in the order of its entries, and
/// the directories that it queued are those in it. The directory with which entries
/// were compared is the one that came with the node, if one did, and goes on with
/// every directory that was queued.
pub proof fn law_a_directory_is_copied_faithfully<E>(
    node: TreeNode<Seq<u8>>,
    dir: SourceDir,
    replies: Seq<Reply<Seq<u8>, E>>,
    root: FileId,
)
    requires
        truthful(DirCopy::begin(node), dir, replies),
        run(DirCopy::begin(node), replies) matches Ok(copy) && copy.phase
            == (Phase::<Seq<u8>>::Finished { root }),
        forall|i: int| 0 <= i < dir.entries.len() ==> (#[trigger] dir.entries[i]).item.consistent(),
    ensures
        node.root_to_inode matches Some(known) ==> known == root,
        changes(DirCopy::begin(node), replies) == own_effects(
            Platform::Linux,
            Some(root),
            Work { from: node.from, to: node.to, dir },
        ),
        queue(DirCopy::begin(node), replies) == nodes_of(
            queued_work(
                Platform::Linux,
                Some(root),
                Work { from: node.from, to: node.to, dir },
            ),
            root,
        ),
{
    lemma_runs_on_course(node, dir, replies);
}

/// Nothing but the top of the copy is passed over. Once an entry was read, and was
/// identified where that is asked for, it is copied, unless it is the directory itself or
/// its parent, or the very directory that is the top of the copy. A file that only has
/// the inode number of that directory, on another device, is copied. What has that number
/// and cannot be looked up is taken for that directory.
pub proof fn law_only_the_top_is_passed_over<E>(
    node: TreeNode<Seq<u8>>,
    root: FileId,
    entry: Entry<Seq<u8>>,
    looked_up: Result<FileId, Failure<E>>,
)
    ensures
        ({
            let copy = DirCopy { node, phase: Phase::Reading { root } };
            let listed = copy.after(Reply::<Seq<u8>, E>::Entry(Some(Ok(entry))))->Ok_0;
            let known = if listed.phase is Identifying {
                listed.after(Reply::<Seq<u8>, E>::Id(looked_up))->Ok_0
            } else {
                listed
            };
            let copying = Phase::Copying {
                root,
                name: entry.name,
                step: first_step(entry.file_type),
            };
            &&& known.node == node
            &&& passes_over(root, entry, looked_up.ok()) ==> known.phase == (Phase::<
                Seq<u8>,
            >::Reading { root })
            &&& !passes_over(root, entry, looked_up.ok()) ==> known.phase == copying
            &&& looked_up is Ok && looked_up->Ok_0 != root && !is_dot_name(entry.name)
                ==> known.phase == copying
        }),
{
}

/// The copy of a directory fails exactly when a call fails, or when the queue does
/// not take a directory. Three failures are none: that the directory to make is there
/// already, that an entry cannot be identified, and that the kernel cannot copy between
/// the two file systems, as long as it has not copied a byte. The error is that of the
/// call.
pub proof fn law_a_copy_fails_with_the_error_of_the_call<E>(
    copy: DirCopy<Seq<u8>>,
    reply: Reply<Seq<u8>, E>,
)
    requires
        copy.takes(reply),
    ensures
        copy.after(reply) is Err <==> match reply.failure() {
            Some(failure) => !(failure.kind == FailureKind::AlreadyExists
                && copy.wants() is Some && copy.wants()->0 is MakeDir) && !(copy.wants() is Some
                && copy.wants()->0 is IdentifyEntry) && !(failure.kind
                == FailureKind::CrossDevice && copy.wants() == Some(
                Request::<Seq<u8>>::CopyRange { len: usize::MAX },
            )),
            None => reply == Reply::<Seq<u8>, E>::Sent(false),
        },
        copy.after(reply) matches Err(error) ==> match reply.failure() {
            Some(failure) => error is Io && error->error == failure.error,
            None => error == ErrorView::<E>::Internal,
        },
{
}

/// The sum of these counts.
pub open spec fn sum(counts: Seq<usize>) -> int
    decreases counts.len(),
{
    if counts.len() == 0 {
        0
    } else {
        sum(counts.drop_last()) + counts.last()
    }
}

/// The answers that say how many bytes were copied.
pub open spec fn copied_replies<E>(counts: Seq<usize>) -> Seq<Reply<Seq<u8>, E>> {
    counts.map_values(|n: usize| Reply::<Seq<u8>, E>::Copied(Ok(n)))
}

/// The bytes of a file are counted in full, and the copy of the file ends when the kernel
/// copies none. As long as it copies some, it is asked again, for as many bytes as can
/// still be counted.
pub proof fn law_bytes_are_counted<E>(
    node: TreeNode<Seq<u8>>,
    root: FileId,
    name: Seq<u8>,
    counts: Seq<usize>,
)
    requires
        forall|i: int| 0 <= i < counts.len() ==> #[trigger] counts[i] > 0,
        sum(counts) <= usize::MAX,
    ensures
        ({
            let start = DirCopy {
                node,
                phase: Phase::Copying { root, name, step: Step::Ranging { total: 0 } },
            };
            let total = sum(counts) as usize;
            let copy = DirCopy {
                node,
                phase: Phase::Copying { root, name, step: Step::Ranging { total } },
            };
            &&& 0 <= sum(counts)
            &&& run(start, copied_replies::<E>(counts)) == Ok::<
                DirCopy<Seq<u8>>,
                ErrorView<E>,
            >(copy)
            &&& copy.wants() == Some(
                Request::<Seq<u8>>::CopyRange { len: (usize::MAX - sum(counts)) as usize },
            )
            &&& copy.after(Reply::<Seq<u8>, E>::Copied(Ok(0))) == Ok::<
                DirCopy<Seq<u8>>,
                ErrorView<E>,
            >(DirCopy { node, phase: Phase::Reading { root } })
        }),
    decreases counts.len(),
{
    if counts.len() > 0 {
        let before = counts.drop_last();
        assert forall|i: int| 0 <= i < before.len() implies #[trigger] before[i] > 0 by {
            assert(before[i] == counts[i]);
        }
        assert(counts.last() > 0);
        law_bytes_are_counted::<E>(node, root, name, before);
        assert(copied_replies::<E>(counts).drop_last() =~= copied_replies::<E>(before));
    }
}

} // verus!
