//! Laws of the copy of a tree, over whole runs of it.

use crate::error::FailureKind;
use crate::file_id::FileId;
use crate::platform::Platform;
use crate::portable::dir;
use crate::portable::entry;
use crate::schedule::SourceKind;
use crate::tree::{
    branch_effects, child, entry_effects, image, left_out, tree_effects, Effect, Source,
    SourceEntry, Work,
};
use vstd::prelude::*;

verus! {

/// Where the copy of a directory stands after these answers.
pub open spec fn run_dir<E>(copy: dir::DirCopy<Seq<u8>>, replies: Seq<dir::Reply<E>>) -> Result<
    dir::DirCopy<Seq<u8>>,
    E,
>
    decreases replies.len(),
{
    if replies.len() == 0 {
        Ok(copy)
    } else {
        match run_dir(copy, replies.drop_last()) {
            Ok(copy) => copy.after(replies.last()),
            Err(error) => Err(error),
        }
    }
}

/// Whether each answer is one that its call can give.
pub open spec fn possible_dir<E>(
    copy: dir::DirCopy<Seq<u8>>,
    replies: Seq<dir::Reply<E>>,
) -> bool
    decreases replies.len(),
{
    replies.len() == 0 || {
        let before = replies.drop_last();
        &&& possible_dir(copy, before)
        &&& run_dir(copy, before) matches Ok(copy) && copy.takes(replies.last())
    }
}

/// The lasting change that a call for a directory made, if it made one.
pub open spec fn dir_change<E>(copy: dir::DirCopy<Seq<u8>>, reply: dir::Reply<E>) -> Seq<Effect> {
    match copy.wants() {
        Some(dir::Request::CreateDir { path }) => match reply.failure() {
            Some(failure) if failure.kind != FailureKind::AlreadyExists => seq![],
            _ => seq![Effect::Directory { path, new_mode: None }],
        },
        _ => seq![],
    }
}

/// The lasting changes that a run made up to the entries, in their order.
pub open spec fn dir_changes<E>(
    copy: dir::DirCopy<Seq<u8>>,
    replies: Seq<dir::Reply<E>>,
) -> Seq<Effect>
    decreases replies.len(),
{
    if replies.len() == 0 {
        seq![]
    } else {
        let before = replies.drop_last();
        dir_changes(copy, before) + match run_dir(copy, before) {
            Ok(copy) => dir_change(copy, replies.last()),
            Err(_) => seq![],
        }
    }
}

/// Where the copy of an entry stands after these answers.
pub open spec fn run_entry<E>(
    copy: entry::EntryCopy<Seq<u8>>,
    replies: Seq<entry::Reply<Seq<u8>, E>>,
) -> Result<entry::EntryCopy<Seq<u8>>, E>
    decreases replies.len(),
{
    if replies.len() == 0 {
        Ok(copy)
    } else {
        match run_entry(copy, replies.drop_last()) {
            Ok(copy) => copy.after(replies.last()),
            Err(error) => Err(error),
        }
    }
}

/// The lasting change that a call for an entry made itself, if it made one. The copy of
/// a directory is accounted for by the calls that it consists of.
pub open spec fn entry_change<E>(
    copy: entry::EntryCopy<Seq<u8>>,
    reply: entry::Reply<Seq<u8>, E>,
) -> Seq<Effect> {
    match copy.wants() {
        Some(entry::Request::MakeLink { target, path }) if reply.failure() is None => seq![
            Effect::Symlink { path, target },
        ],
        Some(entry::Request::CopyFile { from, to }) if reply.failure() is None => seq![
            Effect::Fill { path: to, from },
        ],
        _ => seq![],
    }
}

/// The lasting changes that a run on an entry made itself, in their order.
pub open spec fn entry_changes<E>(
    copy: entry::EntryCopy<Seq<u8>>,
    replies: Seq<entry::Reply<Seq<u8>, E>>,
) -> Seq<Effect>
    decreases replies.len(),
{
    if replies.len() == 0 {
        seq![]
    } else {
        let before = replies.drop_last();
        entry_changes(copy, before) + match run_entry(copy, before) {
            Ok(copy) => entry_change(copy, replies.last()),
            Err(_) => seq![],
        }
    }
}

/// Whether a run on an entry had a directory copied.
pub open spec fn descends<E>(
    copy: entry::EntryCopy<Seq<u8>>,
    replies: Seq<entry::Reply<Seq<u8>, E>>,
) -> bool
    decreases replies.len(),
{
    replies.len() > 0 && {
        let before = replies.drop_last();
        ||| descends(copy, before)
        ||| run_entry(copy, before) matches Ok(copy) && copy.wants() == Some(
            entry::Request::CopyDir { from: copy.from, to: copy.to, root_to_inode: copy.root },
        )
    }
}

/// What an object is.
pub open spec fn kind_of(item: Source) -> SourceKind {
    match item {
        Source::Directory(_) => SourceKind::Directory,
        Source::Symlink(_) => SourceKind::Symlink,
        Source::File { .. } => SourceKind::Other,
    }
}

/// Whether an answer about an entry, as far as it is one, is true of `listed`. An entry that
/// cannot be identified is taken for the top of the copy, and has to be it. Nothing is known
/// of a link at any other path.
pub open spec fn tells<E>(
    copy: entry::EntryCopy<Seq<u8>>,
    listed: SourceEntry,
    reply: entry::Reply<Seq<u8>, E>,
) -> bool {
    match reply {
        entry::Reply::Id(Ok(id)) => id == listed.id,
        entry::Reply::Id(Err(_)) => copy.root == Some(listed.id),
        entry::Reply::Kind(Ok(kind)) => kind == kind_of(listed.item),
        entry::Reply::Link(Ok(target)) => copy.wants() == Some(
            entry::Request::ReadLink { path: copy.from },
        ) ==> listed.item == Source::Symlink(target),
        _ => true,
    }
}

/// Whether each answer is one that its call can give, and is true of `listed`.
pub open spec fn truthful<E>(
    copy: entry::EntryCopy<Seq<u8>>,
    listed: SourceEntry,
    replies: Seq<entry::Reply<Seq<u8>, E>>,
) -> bool
    decreases replies.len(),
{
    replies.len() == 0 || {
        let before = replies.drop_last();
        &&& truthful(copy, listed, before)
        &&& run_entry(copy, before) matches Ok(copy) && copy.takes(replies.last()) && tells(
            copy,
            listed,
            replies.last(),
        )
    }
}

/// What holds wherever a truthful run on an entry stands.
spec fn entry_on_course(
    copy: entry::EntryCopy<Seq<u8>>,
    start: entry::EntryCopy<Seq<u8>>,
    listed: SourceEntry,
    made: Seq<Effect>,
    descended: bool,
) -> bool {
    let item = listed.item;
    let out = left_out(start.platform, start.root, listed);
    let whole = if out || item is Directory {
        Seq::<Effect>::empty()
    } else {
        image(start.platform, item, start.from, start.to)
    };
    let fits = entry::kind_phase(start.platform, kind_of(item));
    &&& copy.from == start.from
    &&& copy.to == start.to
    &&& copy.platform == start.platform
    &&& copy.root == start.root
    &&& match copy.phase {
        entry::Phase::Identifying => made.len() == 0 && !descended && start.phase is Identifying,
        entry::Phase::Typing => made.len() == 0 && !descended && !out,
        entry::Phase::Linking { target } => made.len() == 0 && !descended && !out
            && fits is ReadingLink && item == Source::Symlink(target),
        entry::Phase::Done => made == whole && descended == (!out && item is Directory),
        phase => made.len() == 0 && !descended && !out && fits == phase,
    }
}

/// Every truthful run on an entry that has not failed is on course.
proof fn lemma_entry_on_course<E>(
    start: entry::EntryCopy<Seq<u8>>,
    listed: SourceEntry,
    replies: Seq<entry::Reply<Seq<u8>, E>>,
)
    requires
        start == entry::EntryCopy::<Seq<u8>>::begin(
            start.platform,
            start.root,
            start.from,
            start.to,
            listed.ino,
        ),
        start.platform != Platform::Linux,
        truthful(start, listed, replies),
        run_entry(start, replies) is Ok,
    ensures
        entry_on_course(
            run_entry(start, replies)->Ok_0,
            start,
            listed,
            entry_changes(start, replies),
            descends(start, replies),
        ),
    decreases replies.len(),
{
    if replies.len() > 0 {
        let before = replies.drop_last();
        let reply = replies.last();
        lemma_entry_on_course(start, listed, before);
        let copy = run_entry(start, before)->Ok_0;
        let made = entry_changes(start, before) + entry_change(copy, reply);
        assert(made.len() == 0 ==> made =~= Seq::<Effect>::empty());
        assert(entry_changes(start, before) =~= Seq::<Effect>::empty());
        assert(made =~= entry_change(copy, reply));
    }
}

/// An entry is copied faithfully. Once a run on an entry has finished, in which every
/// answer was true of the entry, the changes that it made itself are the image of the
/// entry, unless that is a directory. Then, and only then, it had the directory copied. An
/// entry that is left out leads to neither.
pub proof fn law_an_entry_is_copied_faithfully<E>(
    platform: Platform,
    root: Option<FileId>,
    from: Seq<u8>,
    to: Seq<u8>,
    listed: SourceEntry,
    replies: Seq<entry::Reply<Seq<u8>, E>>,
)
    requires
        platform != Platform::Linux,
        truthful(
            entry::EntryCopy::<Seq<u8>>::begin(platform, root, from, to, listed.ino),
            listed,
            replies,
        ),
        run_entry(
            entry::EntryCopy::<Seq<u8>>::begin(platform, root, from, to, listed.ino),
            replies,
        ) matches Ok(copy) && copy.phase is Done,
    ensures
        ({
            let start = entry::EntryCopy::<Seq<u8>>::begin(platform, root, from, to, listed.ino);
            &&& entry_changes(start, replies) == if left_out(platform, root, listed)
                || listed.item is Directory {
                Seq::<Effect>::empty()
            } else {
                image(platform, listed.item, from, to)
            }
            &&& descends(start, replies) == (!left_out(platform, root, listed)
                && listed.item is Directory)
        }),
{
    let start = entry::EntryCopy::<Seq<u8>>::begin(platform, root, from, to, listed.ino);
    lemma_entry_on_course(start, listed, replies);
}

/// Up to its entries, a run on a directory leads to that directory alone, and finds out
/// which directory entries are compared with: the one that came with the directory, if one
/// did, and none where the top of the copy is not looked out for.
pub proof fn law_a_directory_is_made_first<E>(
    platform: Platform,
    work: Work,
    root_to_inode: Option<FileId>,
    replies: Seq<dir::Reply<E>>,
    root: Option<FileId>,
)
    requires
        platform != Platform::Linux,
        possible_dir(
            dir::DirCopy::<Seq<u8>>::begin(platform, work.from, work.to, root_to_inode),
            replies,
        ),
        run_dir(
            dir::DirCopy::<Seq<u8>>::begin(platform, work.from, work.to, root_to_inode),
            replies,
        ) matches Ok(copy) && copy.phase == (dir::Phase::Listed { root }),
    ensures
        dir_changes(
            dir::DirCopy::<Seq<u8>>::begin(platform, work.from, work.to, root_to_inode),
            replies,
        ) == image(platform, Source::Directory(work.dir), work.from, work.to),
        if platform.copies_links() {
            root is Some && (root_to_inode is Some ==> root == root_to_inode)
        } else {
            root is None
        },
{
    lemma_dir_on_course(platform, work, root_to_inode, replies);
}

proof fn lemma_dir_on_course<E>(
    platform: Platform,
    work: Work,
    root_to_inode: Option<FileId>,
    replies: Seq<dir::Reply<E>>,
)
    requires
        platform != Platform::Linux,
        possible_dir(
            dir::DirCopy::<Seq<u8>>::begin(platform, work.from, work.to, root_to_inode),
            replies,
        ),
        run_dir(
            dir::DirCopy::<Seq<u8>>::begin(platform, work.from, work.to, root_to_inode),
            replies,
        ) is Ok,
    ensures
        ({
            let start = dir::DirCopy::<Seq<u8>>::begin(
                platform,
                work.from,
                work.to,
                root_to_inode,
            );
            let copy = run_dir(start, replies)->Ok_0;
            let made = dir_changes(start, replies);
            let top = image(platform, Source::Directory(work.dir), work.from, work.to);
            &&& copy == (dir::DirCopy { phase: copy.phase, ..start })
            &&& match copy.phase {
                dir::Phase::Making => made.len() == 0,
                dir::Phase::Statting => made == top && platform.copies_links()
                    && root_to_inode is None,
                dir::Phase::Listing { root } => made == top && if platform.copies_links() {
                    root is Some && (root_to_inode is Some ==> root == root_to_inode)
                } else {
                    root is None
                },
                dir::Phase::Listed { root } => made == top && if platform.copies_links() {
                    root is Some && (root_to_inode is Some ==> root == root_to_inode)
                } else {
                    root is None
                },
            }
        }),
    decreases replies.len(),
{
    let start = dir::DirCopy::<Seq<u8>>::begin(platform, work.from, work.to, root_to_inode);
    if replies.len() > 0 {
        let before = replies.drop_last();
        lemma_dir_on_course(platform, work, root_to_inode, before);
        let copy = run_dir(start, before)->Ok_0;
        let top = image(platform, Source::Directory(work.dir), work.from, work.to);
        let made = dir_changes(start, before);
        let change = dir_change(copy, replies.last());
        if copy.phase is Making {
            assert(made + change =~= top);
        } else {
            assert(made + change =~= made);
        }
    }
}

/// The copy of a directory with all that is in it: the answers up to its entries, and
/// the copies of the entries.
pub struct DirRun<E> {
    pub replies: Seq<dir::Reply<E>>,
    pub entries: Seq<EntryRun<E>>,
}

/// The copy of an entry: the answers to its calls, and the copy of the directory that it
/// is, where it is one.
pub struct EntryRun<E> {
    pub replies: Seq<entry::Reply<Seq<u8>, E>>,
    pub below: Option<DirRun<E>>,
}

/// The directory that the run on a directory compares entries with.
pub open spec fn root_of<E>(
    platform: Platform,
    work: Work,
    root_to_inode: Option<FileId>,
    run: DirRun<E>,
) -> Option<FileId> {
    run_dir(
        dir::DirCopy::<Seq<u8>>::begin(platform, work.from, work.to, root_to_inode),
        run.replies,
    )->Ok_0.phase->Listed_root
}

/// Whether a directory was copied to the end, with answers that are true of it: it was
/// listed, and there is a copy of each of its entries.
pub open spec fn dir_copied<E>(
    platform: Platform,
    work: Work,
    root_to_inode: Option<FileId>,
    run: DirRun<E>,
) -> bool
    decreases work.dir,
{
    let start = dir::DirCopy::<Seq<u8>>::begin(platform, work.from, work.to, root_to_inode);
    &&& possible_dir(start, run.replies)
    &&& run_dir(start, run.replies) matches Ok(copy) && copy.phase is Listed
    &&& entries_copied(
        platform,
        root_of(platform, work, root_to_inode, run),
        work.from,
        work.to,
        work.dir.entries,
        run.entries,
    )
}

/// Whether all of these entries of a directory were copied to the end, with answers that
/// are true of them.
pub open spec fn entries_copied<E>(
    platform: Platform,
    root: Option<FileId>,
    from: Seq<u8>,
    to: Seq<u8>,
    entries: Seq<SourceEntry>,
    runs: Seq<EntryRun<E>>,
) -> bool
    decreases entries,
{
    &&& entries.len() == runs.len()
    &&& entries.len() > 0 ==> {
        &&& entries_copied(platform, root, from, to, entries.drop_last(), runs.drop_last())
        &&& entry_copied(platform, root, from, to, entries[entries.len() - 1], runs.last())
    }
}

/// Whether an entry was copied to the end, with answers that are true of it. If the run on
/// it had a directory copied, that was copied to the end too, with the top of the copy that
/// the run passed on.
pub open spec fn entry_copied<E>(
    platform: Platform,
    root: Option<FileId>,
    from: Seq<u8>,
    to: Seq<u8>,
    listed: SourceEntry,
    run: EntryRun<E>,
) -> bool
    decreases listed,
{
    let from = child(platform, from, listed.name);
    let to = child(platform, to, listed.name);
    let start = entry::EntryCopy::<Seq<u8>>::begin(platform, root, from, to, listed.ino);
    &&& truthful(start, listed, run.replies)
    &&& run_entry(start, run.replies) matches Ok(copy) && copy.phase is Done
    &&& run.below is Some <==> descends(start, run.replies)
    &&& run.below matches Some(below) ==> (listed.item matches Source::Directory(dir)
        ==> dir_copied(platform, Work { from, to, dir }, root, below))
}

/// The changes that copying a directory made, with all that is in it, listed entry by
/// entry.
pub open spec fn made_in_dir<E>(
    platform: Platform,
    work: Work,
    root_to_inode: Option<FileId>,
    run: DirRun<E>,
) -> Seq<Effect>
    decreases work.dir,
{
    dir_changes(
        dir::DirCopy::<Seq<u8>>::begin(platform, work.from, work.to, root_to_inode),
        run.replies,
    ) + made_in_entries(
        platform,
        root_of(platform, work, root_to_inode, run),
        work.from,
        work.to,
        work.dir.entries,
        run.entries,
    )
}

/// The changes that copying these entries made.
pub open spec fn made_in_entries<E>(
    platform: Platform,
    root: Option<FileId>,
    from: Seq<u8>,
    to: Seq<u8>,
    entries: Seq<SourceEntry>,
    runs: Seq<EntryRun<E>>,
) -> Seq<Effect>
    decreases entries,
{
    if entries.len() == 0 {
        seq![]
    } else {
        made_in_entries(platform, root, from, to, entries.drop_last(), runs.drop_last())
            + made_in_entry(platform, root, from, to, entries[entries.len() - 1], runs.last())
    }
}

/// The changes that copying this entry made.
pub open spec fn made_in_entry<E>(
    platform: Platform,
    root: Option<FileId>,
    from: Seq<u8>,
    to: Seq<u8>,
    listed: SourceEntry,
    run: EntryRun<E>,
) -> Seq<Effect>
    decreases listed,
{
    let from = child(platform, from, listed.name);
    let to = child(platform, to, listed.name);
    let start = entry::EntryCopy::<Seq<u8>>::begin(platform, root, from, to, listed.ino);
    entry_changes(start, run.replies) + match (run.below, listed.item) {
        (Some(below), Source::Directory(dir)) => made_in_dir(
            platform,
            Work { from, to, dir },
            root,
            below,
        ),
        _ => seq![],
    }
}

/// A tree is copied faithfully. If a directory was copied to the end, with all that is in
/// it, and all answers were true of the tree, the changes that were made are the image of
/// the tree, each of its objects once, and nothing else.
pub proof fn law_a_tree_is_copied_faithfully<E>(
    platform: Platform,
    work: Work,
    root_to_inode: Option<FileId>,
    run: DirRun<E>,
)
    requires
        platform != Platform::Linux,
        root_to_inode is Some ==> platform.copies_links(),
        dir_copied(platform, work, root_to_inode, run),
    ensures
        made_in_dir(platform, work, root_to_inode, run) == tree_effects(
            platform,
            root_of(platform, work, root_to_inode, run),
            work,
        ),
        root_to_inode is Some ==> root_of(platform, work, root_to_inode, run) == root_to_inode,
    decreases work.dir, 1int,
{
    let root = root_of(platform, work, root_to_inode, run);
    law_a_directory_is_made_first(platform, work, root_to_inode, run.replies, root);
    lemma_entries_faithful(platform, root, work.from, work.to, work.dir.entries, run.entries);
}

proof fn lemma_entries_faithful<E>(
    platform: Platform,
    root: Option<FileId>,
    from: Seq<u8>,
    to: Seq<u8>,
    entries: Seq<SourceEntry>,
    runs: Seq<EntryRun<E>>,
)
    requires
        platform != Platform::Linux,
        root is Some <==> platform.copies_links(),
        entries_copied(platform, root, from, to, entries, runs),
    ensures
        made_in_entries(platform, root, from, to, entries, runs) == branch_effects(
            platform,
            root,
            from,
            to,
            entries,
        ),
    decreases entries, 0int,
{
    if entries.len() > 0 {
        let listed = entries[entries.len() - 1];
        let run = runs.last();
        assert(entry_copied(platform, root, from, to, listed, run));
        lemma_entries_faithful(platform, root, from, to, entries.drop_last(), runs.drop_last());
        let sub_from = child(platform, from, listed.name);
        let sub_to = child(platform, to, listed.name);
        let start = entry::EntryCopy::<Seq<u8>>::begin(
            platform,
            root,
            sub_from,
            sub_to,
            listed.ino,
        );
        law_an_entry_is_copied_faithfully(platform, root, sub_from, sub_to, listed, run.replies);
        if descends(start, run.replies) {
            let sub = Work { from: sub_from, to: sub_to, dir: listed.item->Directory_0 };
            law_a_tree_is_copied_faithfully(platform, sub, root, run.below->0);
            lemma_other_root(platform, sub, root, run.below->0);
        }
        assert(made_in_entry(platform, root, from, to, listed, run) =~= entry_effects(
            platform,
            root,
            from,
            to,
            listed,
        ));
    }
}

/// Where the top of the copy is not looked out for, there is none to compare with.
proof fn lemma_other_root<E>(
    platform: Platform,
    work: Work,
    root_to_inode: Option<FileId>,
    run: DirRun<E>,
)
    requires
        platform != Platform::Linux,
        root_to_inode is Some <==> platform.copies_links(),
        dir_copied(platform, work, root_to_inode, run),
    ensures
        root_of(platform, work, root_to_inode, run) == root_to_inode,
{
    let root = root_of(platform, work, root_to_inode, run);
    law_a_directory_is_made_first(platform, work, root_to_inode, run.replies, root);
}

/// The copy of a directory, up to its entries, fails exactly when a call fails, with the
/// error of the call. That the directory to make is there already is no failure.
pub proof fn law_a_directory_fails_with_the_error_of_the_call<E>(
    copy: dir::DirCopy<Seq<u8>>,
    reply: dir::Reply<E>,
)
    requires
        copy.takes(reply),
    ensures
        copy.after(reply) is Err <==> (reply.failure() matches Some(failure) && !(
        copy.wants()->0 is CreateDir && failure.kind == FailureKind::AlreadyExists)),
        copy.after(reply) matches Err(error) ==> reply.failure() matches Some(failure)
            && failure.error == error,
{
}

/// The copy of an entry fails exactly when a call fails, with the error of the call. That the
/// entry cannot be identified is no failure.
pub proof fn law_an_entry_fails_with_the_error_of_the_call<E>(
    copy: entry::EntryCopy<Seq<u8>>,
    reply: entry::Reply<Seq<u8>, E>,
)
    requires
        copy.takes(reply),
    ensures
        copy.after(reply) is Err <==> reply.failure() is Some && !(copy.wants()->0 is Identify),
        copy.after(reply) matches Err(error) ==> reply.failure() matches Some(failure)
            && failure.error == error,
{
}

} // verus!
