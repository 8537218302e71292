//! Laws of `tree`.

use crate::c_path::{is_dot_name, SEPARATOR};
use crate::file_id::FileId;
use crate::platform::Platform;
use crate::tree::{
    are_without, branch_effects, child, entry_effects, forest_effects, image, is_without,
    leads_to, left_out, listed_effects, listed_work, own_effects, path_at, queued_work,
    spot_effects, spot_work, tree_effects, well_named, well_named_entries, Effect, Source,
    SourceEntry, Work,
};
use vstd::multiset::Multiset;
use vstd::prelude::*;

verus! {

/// Nothing but the top of the copy is left out. An entry that is left out, and is not the
/// one for the directory itself or its parent, is the directory at the top of the copy:
/// the same file, on the same device. And that directory is left out, wherever the
/// platform looks out for it, unless another inode number is listed for it.
pub proof fn law_only_the_top_is_left_out(
    platform: Platform,
    root: Option<FileId>,
    entry: SourceEntry,
)
    ensures
        left_out(platform, root, entry) && !(platform == Platform::Linux && is_dot_name(entry.name))
            ==> root == Some(entry.id),
        root == Some(entry.id) && entry.ino == entry.id.ino && platform.copies_links() ==> left_out(
            platform,
            root,
            entry,
        ),
{
}

/// Where the top of the copy does not stand inside what is copied, nothing is left out for
/// its sake: the tree is copied as if there were none to look out for.
pub proof fn law_a_tree_without_the_top_is_copied_whole(
    platform: Platform,
    root: FileId,
    work: Work,
)
    requires
        is_without(work.dir, root),
    ensures
        tree_effects(platform, Some(root), work) == tree_effects(platform, None, work),
    decreases work.dir, 1int,
{
    lemma_branches_without_the_top(platform, root, work.from, work.to, work.dir.entries);
}

proof fn lemma_branches_without_the_top(
    platform: Platform,
    root: FileId,
    from: Seq<u8>,
    to: Seq<u8>,
    entries: Seq<SourceEntry>,
)
    requires
        are_without(entries, root),
    ensures
        branch_effects(platform, Some(root), from, to, entries) == branch_effects(
            platform,
            None,
            from,
            to,
            entries,
        ),
    decreases entries, 0int,
{
    if entries.len() > 0 {
        let last = entries[entries.len() - 1];
        lemma_branches_without_the_top(platform, root, from, to, entries.drop_last());
        match last.item {
            Source::Directory(dir) => {
                let sub_from = child(platform, from, last.name);
                let sub_to = child(platform, to, last.name);
                law_a_tree_without_the_top_is_copied_whole(
                    platform,
                    root,
                    Work { from: sub_from, to: sub_to, dir },
                );
            },
            _ => {},
        }
        assert(entry_effects(platform, Some(root), from, to, last) == entry_effects(
            platform,
            None,
            from,
            to,
            last,
        ));
    }
}

/// What an entry leads to is part of what the whole listing leads to.
proof fn lemma_branch_contains(
    platform: Platform,
    root: Option<FileId>,
    from: Seq<u8>,
    to: Seq<u8>,
    entries: Seq<SourceEntry>,
    i: int,
    effect: Effect,
)
    requires
        0 <= i < entries.len(),
        entry_effects(platform, root, from, to, entries[i]).contains(effect),
    ensures
        branch_effects(platform, root, from, to, entries).contains(effect),
    decreases entries.len(),
{
    let rest = branch_effects(platform, root, from, to, entries.drop_last());
    let last = entry_effects(platform, root, from, to, entries[entries.len() - 1]);
    let all = branch_effects(platform, root, from, to, entries);
    assert(all == rest + last);
    if i == entries.len() - 1 {
        let k = choose|k: int| 0 <= k < last.len() && last[k] == effect;
        assert(all[rest.len() + k] == effect);
    } else {
        assert(entries.drop_last()[i] == entries[i]);
        lemma_branch_contains(platform, root, from, to, entries.drop_last(), i, effect);
        let k = choose|k: int| 0 <= k < rest.len() && rest[k] == effect;
        assert(all[k] == effect);
    }
}

/// What the whole listing leads to comes from one of its entries.
proof fn lemma_branch_origin(
    platform: Platform,
    root: Option<FileId>,
    from: Seq<u8>,
    to: Seq<u8>,
    entries: Seq<SourceEntry>,
    effect: Effect,
) -> (i: int)
    requires
        branch_effects(platform, root, from, to, entries).contains(effect),
    ensures
        0 <= i < entries.len(),
        entry_effects(platform, root, from, to, entries[i]).contains(effect),
    decreases entries.len(),
{
    let all = branch_effects(platform, root, from, to, entries);
    let k = choose|k: int| 0 <= k < all.len() && all[k] == effect;
    let rest = branch_effects(platform, root, from, to, entries.drop_last());
    let last = entry_effects(platform, root, from, to, entries[entries.len() - 1]);
    assert(all == rest + last);
    if k < rest.len() {
        assert(rest[k] == effect);
        let i = lemma_branch_origin(platform, root, from, to, entries.drop_last(), effect);
        assert(entries.drop_last()[i] == entries[i]);
        i
    } else {
        assert(last[k - rest.len()] == effect);
        entries.len() - 1
    }
}

/// Everything is copied. Whatever object some names lead to, from the directory
/// that is copied and through entries that are not left out, its image is among
/// the changes, at the path to which the same names lead from the top of the copy.
pub proof fn law_everything_is_copied(
    platform: Platform,
    root: Option<FileId>,
    work: Work,
    names: Seq<Seq<u8>>,
    item: Source,
    effect: Effect,
)
    requires
        leads_to(platform, root, work.dir, names, item),
        image(
            platform,
            item,
            path_at(platform, work.from, names),
            path_at(platform, work.to, names),
        ).contains(effect),
    ensures
        tree_effects(platform, root, work).contains(effect),
    decreases names.len(),
{
    let dir = work.dir;
    let i = choose|i: int|
        #![trigger dir.entries[i]]
        {
            &&& 0 <= i < dir.entries.len()
            &&& !left_out(platform, root, dir.entries[i])
            &&& dir.entries[i].name == names[0]
            &&& if names.len() == 1 {
                dir.entries[i].item == item
            } else {
                dir.entries[i].item matches Source::Directory(sub) && leads_to(
                    platform,
                    root,
                    sub,
                    names.drop_first(),
                    item,
                )
            }
        };
    let entry = dir.entries[i];
    let from = child(platform, work.from, entry.name);
    let to = child(platform, work.to, entry.name);
    let here = entry_effects(platform, root, work.from, work.to, entry);
    if names.len() == 1 {
        assert(names.drop_first().len() == 0);
        assert(path_at(platform, from, names.drop_first()) == from);
        assert(path_at(platform, to, names.drop_first()) == to);
        let top = image(platform, item, from, to);
        if item is Directory {
            let sub = Work { from, to, dir: item->Directory_0 };
            let below = branch_effects(platform, root, from, to, sub.dir.entries);
            assert(here == top + below);
            let k = choose|k: int| 0 <= k < top.len() && top[k] == effect;
            assert(here[k] == effect);
        }
    } else {
        let sub = Work { from, to, dir: entry.item->Directory_0 };
        law_everything_is_copied(platform, root, sub, names.drop_first(), item, effect);
    }
    lemma_branch_contains(platform, root, work.from, work.to, dir.entries, i, effect);
    let top = image(platform, Source::Directory(dir), work.from, work.to);
    let below = branch_effects(platform, root, work.from, work.to, dir.entries);
    let all = tree_effects(platform, root, work);
    assert(all == top + below);
    let k = choose|k: int| 0 <= k < below.len() && below[k] == effect;
    assert(all[top.len() + k] == effect);
}

/// Nothing else is changed. Every change is to the directory at the top of the
/// copy, or is part of the image of an object to which some names lead.
pub proof fn law_nothing_else_is_changed(
    platform: Platform,
    root: Option<FileId>,
    work: Work,
    effect: Effect,
)
    requires
        tree_effects(platform, root, work).contains(effect),
    ensures
        image(platform, Source::Directory(work.dir), work.from, work.to).contains(effect) || exists|
            names: Seq<Seq<u8>>,
            item: Source,
        |
            #![trigger leads_to(platform, root, work.dir, names, item)]
            leads_to(platform, root, work.dir, names, item) && image(
                platform,
                item,
                path_at(platform, work.from, names),
                path_at(platform, work.to, names),
            ).contains(effect),
    decreases work.dir,
{
    let dir = work.dir;
    let top = image(platform, Source::Directory(dir), work.from, work.to);
    let below = branch_effects(platform, root, work.from, work.to, dir.entries);
    let all = tree_effects(platform, root, work);
    assert(all == top + below);
    let k = choose|k: int| 0 <= k < all.len() && all[k] == effect;
    if k < top.len() {
        assert(top[k] == effect);
    } else {
        assert(below[k - top.len()] == effect);
        let i = lemma_branch_origin(platform, root, work.from, work.to, dir.entries, effect);
        let entry = dir.entries[i];
        let from = child(platform, work.from, entry.name);
        let to = child(platform, work.to, entry.name);
        let short = seq![entry.name];
        assert(short.drop_first().len() == 0);
        assert(path_at(platform, from, short.drop_first()) == from);
        assert(path_at(platform, to, short.drop_first()) == to);
        assert(leads_to(platform, root, dir, short, entry.item));
        if entry.item is Directory {
            let sub = Work { from, to, dir: entry.item->Directory_0 };
            law_nothing_else_is_changed(platform, root, sub, effect);
            if !image(platform, Source::Directory(sub.dir), from, to).contains(effect) {
                let (names, item) = choose|names: Seq<Seq<u8>>, item: Source|
                    #![trigger leads_to(platform, root, sub.dir, names, item)]
                    leads_to(platform, root, sub.dir, names, item) && image(
                        platform,
                        item,
                        path_at(platform, sub.from, names),
                        path_at(platform, sub.to, names),
                    ).contains(effect);
                let long = seq![entry.name] + names;
                assert(long.drop_first() =~= names);
                assert(leads_to(platform, root, dir, long, item));
            }
        }
    }
}

/// Whether a name is one that an entry can have: it is not empty and holds no separator.
spec fn is_name(name: Seq<u8>) -> bool {
    name.len() > 0 && !name.contains(SEPARATOR)
}

/// Whether the path of an entry of `dir` is that of the directory, a separator and the
/// name.
spec fn is_plain(platform: Platform, dir: Seq<u8>) -> bool {
    platform == Platform::Linux || (dir.len() > 0 && dir.last() != SEPARATOR)
}

/// What stands before the names in the paths of the entries of `dir`.
spec fn stem(platform: Platform, dir: Seq<u8>) -> Seq<u8> {
    if is_plain(platform, dir) {
        dir + seq![SEPARATOR]
    } else {
        dir
    }
}

/// The path of an entry.
proof fn lemma_child(platform: Platform, dir: Seq<u8>, name: Seq<u8>)
    requires
        is_name(name),
    ensures
        child(platform, dir, name) == stem(platform, dir) + name,
        child(platform, dir, name).len() > dir.len(),
        is_plain(platform, child(platform, dir, name)),
{
    assert(name.contains(name[0]));
    assert(name.contains(name.last()));
    assert(child(platform, dir, name).last() == name.last());
}

/// Whether `path` is `top` or below it.
spec fn below(path: Seq<u8>, top: Seq<u8>) -> bool {
    &&& path.len() >= top.len()
    &&& path.take(top.len() as int) == top
    &&& path.len() > top.len() ==> path[top.len() as int] == SEPARATOR
}

/// What is below a directory in `top` is not `top`, and is below it.
proof fn lemma_below_child(platform: Platform, path: Seq<u8>, top: Seq<u8>, name: Seq<u8>)
    requires
        is_name(name),
        below(path, child(platform, top, name)),
    ensures
        is_plain(platform, top) ==> below(path, top),
        path.len() > top.len(),
{
    let sub = child(platform, top, name);
    lemma_child(platform, top, name);
    if is_plain(platform, top) {
        assert(path.take(top.len() as int) =~= sub.take(top.len() as int));
        assert(sub.take(top.len() as int) =~= top);
        assert(path[top.len() as int] == path.take(sub.len() as int)[top.len() as int]);
    }
}

/// No path is below two entries with different names.
proof fn lemma_below_one(
    platform: Platform,
    path: Seq<u8>,
    top: Seq<u8>,
    one: Seq<u8>,
    other: Seq<u8>,
)
    requires
        is_name(one),
        is_name(other),
        below(path, child(platform, top, one)),
        below(path, child(platform, top, other)),
        one.len() <= other.len(),
    ensures
        one == other,
{
    let sub_one = child(platform, top, one);
    let sub_other = child(platform, top, other);
    let start = stem(platform, top).len();
    lemma_child(platform, top, one);
    lemma_child(platform, top, other);
    assert forall|k: int| 0 <= k < one.len() implies one[k] == other[k] by {
        let at = start + k;
        assert(path.take(sub_one.len() as int)[at] == sub_one[at]);
        assert(path.take(sub_other.len() as int)[at] == sub_other[at]);
    }
    if one.len() < other.len() {
        let at = sub_one.len() as int;
        assert(path[at] == SEPARATOR);
        assert(path.take(sub_other.len() as int)[at] == sub_other[at]);
        assert(sub_other[at] == other[one.len() as int]);
    }
    assert(one =~= other);
}

/// Every change that a tree leads to is below the top of its copy.
proof fn lemma_tree_below(platform: Platform, root: Option<FileId>, work: Work, effect: Effect)
    requires
        well_named(work.dir),
        is_plain(platform, work.to),
        tree_effects(platform, root, work).contains(effect),
    ensures
        below(effect.path(), work.to),
    decreases work.dir, 1int,
{
    let top = image(platform, Source::Directory(work.dir), work.from, work.to);
    let rest = branch_effects(platform, root, work.from, work.to, work.dir.entries);
    let all = tree_effects(platform, root, work);
    assert(all == top + rest);
    let k = choose|k: int| 0 <= k < all.len() && all[k] == effect;
    if k < top.len() {
        assert(effect.path() == work.to);
        assert(work.to.take(work.to.len() as int) =~= work.to);
    } else {
        assert(rest[k - top.len()] == effect);
        let i = lemma_branch_origin(
            platform,
            root,
            work.from,
            work.to,
            work.dir.entries,
            effect,
        );
        lemma_well_named_entry(work.dir.entries, i);
        lemma_entry_below(platform, root, work.from, work.to, work.dir.entries[i], effect);
        lemma_below_child(platform, effect.path(), work.to, work.dir.entries[i].name);
    }
}

/// Every change that an entry leads to is below the copy of the entry.
proof fn lemma_entry_below(
    platform: Platform,
    root: Option<FileId>,
    from: Seq<u8>,
    to: Seq<u8>,
    entry: SourceEntry,
    effect: Effect,
)
    requires
        is_name(entry.name),
        entry.item matches Source::Directory(dir) ==> well_named(dir),
        entry_effects(platform, root, from, to, entry).contains(effect),
    ensures
        below(effect.path(), child(platform, to, entry.name)),
    decreases entry, 0int,
{
    let sub_from = child(platform, from, entry.name);
    let sub_to = child(platform, to, entry.name);
    lemma_child(platform, to, entry.name);
    match entry.item {
        Source::Directory(dir) => {
            lemma_tree_below(platform, root, Work { from: sub_from, to: sub_to, dir }, effect);
        },
        _ => {
            assert(image(platform, entry.item, sub_from, sub_to).contains(effect));
            assert(effect.path() == sub_to);
            assert(sub_to.take(sub_to.len() as int) =~= sub_to);
        },
    }
}

/// The facts about one entry of a well-named listing.
proof fn lemma_well_named_entry(entries: Seq<SourceEntry>, i: int)
    requires
        well_named_entries(entries),
        0 <= i < entries.len(),
    ensures
        is_name(entries[i].name),
        entries[i].item matches Source::Directory(dir) ==> well_named(dir),
    decreases entries.len(),
{
    if i < entries.len() - 1 {
        lemma_well_named_entry(entries.drop_last(), i);
        assert(entries.drop_last()[i] == entries[i]);
    }
}

/// No change is made twice while a tree is copied in which, as the kernel has it,
/// no two entries of a directory have the same name and no name is empty or holds a
/// separator.
pub proof fn law_no_change_is_made_twice(platform: Platform, root: Option<FileId>, work: Work)
    requires
        well_named(work.dir),
    ensures
        tree_effects(platform, root, work).no_duplicates(),
    decreases work.dir, 2int,
{
    let top = image(platform, Source::Directory(work.dir), work.from, work.to);
    let rest = branch_effects(platform, root, work.from, work.to, work.dir.entries);
    lemma_branches_differ(platform, root, work.from, work.to, work.dir.entries);
    assert forall|j: int| 0 <= j < rest.len() implies #[trigger] rest[j] != top[0] by {
        let effect = rest[j];
        assert(rest.contains(effect));
        let i = lemma_branch_origin(
            platform,
            root,
            work.from,
            work.to,
            work.dir.entries,
            effect,
        );
        lemma_well_named_entry(work.dir.entries, i);
        lemma_entry_below(platform, root, work.from, work.to, work.dir.entries[i], effect);
        lemma_below_child(platform, effect.path(), work.to, work.dir.entries[i].name);
    }
}

/// No change is made twice by the entries of a well-named listing.
proof fn lemma_branches_differ(
    platform: Platform,
    root: Option<FileId>,
    from: Seq<u8>,
    to: Seq<u8>,
    entries: Seq<SourceEntry>,
)
    requires
        well_named_entries(entries),
    ensures
        branch_effects(platform, root, from, to, entries).no_duplicates(),
    decreases entries, 1int,
{
    if entries.len() > 0 {
        let first = entries.drop_last();
        let entry = entries[entries.len() - 1];
        let rest = branch_effects(platform, root, from, to, first);
        let last = entry_effects(platform, root, from, to, entry);
        let sub_from = child(platform, from, entry.name);
        let sub_to = child(platform, to, entry.name);
        lemma_branches_differ(platform, root, from, to, first);
        lemma_well_named_entry(entries, entries.len() - 1);
        match entry.item {
            Source::Directory(dir) => {
                law_no_change_is_made_twice(
                    platform,
                    root,
                    Work { from: sub_from, to: sub_to, dir },
                );
            },
            _ => {},
        }
        assert(last.no_duplicates());
        assert forall|j: int, k: int| 0 <= j < rest.len() && 0 <= k < last.len() implies rest[j]
            != last[k] by {
            if rest[j] == last[k] {
                let effect = rest[j];
                assert(rest.contains(effect));
                assert(last.contains(effect));
                let i = lemma_branch_origin(platform, root, from, to, first, effect);
                assert(first[i] == entries[i]);
                lemma_well_named_entry(entries, i);
                lemma_entry_below(platform, root, from, to, entries[i], effect);
                lemma_entry_below(platform, root, from, to, entry, effect);
                if entries[i].name.len() <= entry.name.len() {
                    lemma_below_one(platform, effect.path(), to, entries[i].name, entry.name);
                } else {
                    lemma_below_one(platform, effect.path(), to, entry.name, entries[i].name);
                }
            }
        }
        assert(branch_effects(platform, root, from, to, entries) == rest + last);
    }
}

/// The trees in two queues together.
proof fn lemma_forest_add(
    platform: Platform,
    root: Option<FileId>,
    one: Seq<Work>,
    other: Seq<Work>,
)
    ensures
        forest_effects(platform, root, one + other) == forest_effects(platform, root, one).add(
            forest_effects(platform, root, other),
        ),
    decreases other.len(),
{
    if other.len() == 0 {
        assert(one + other =~= one);
        assert(forest_effects(platform, root, one).add(Multiset::empty()) =~= forest_effects(
            platform,
            root,
            one,
        ));
    } else {
        lemma_forest_add(platform, root, one, other.drop_last());
        assert((one + other).drop_last() =~= one + other.drop_last());
        let last = tree_effects(platform, root, other.last()).to_multiset();
        assert(forest_effects(platform, root, one + other) =~= forest_effects(
            platform,
            root,
            one,
        ).add(forest_effects(platform, root, other.drop_last()).add(last)));
    }
}

/// One tree in a queue of its own.
proof fn lemma_forest_single(platform: Platform, root: Option<FileId>, work: Work)
    ensures
        forest_effects(platform, root, seq![work]) == tree_effects(
            platform,
            root,
            work,
        ).to_multiset(),
{
    let single = seq![work];
    assert(single.drop_last().len() == 0);
    assert(forest_effects(platform, root, single.drop_last()) == Multiset::<Effect>::empty());
    assert(single.last() == work);
    assert(forest_effects(platform, root, single) =~= tree_effects(
        platform,
        root,
        work,
    ).to_multiset());
}

/// What the entries of a directory lead to is what they lead to on the spot, and
/// what the directories that they queue lead to.
pub(crate) proof fn lemma_branches_split(
    platform: Platform,
    root: Option<FileId>,
    from: Seq<u8>,
    to: Seq<u8>,
    entries: Seq<SourceEntry>,
)
    ensures
        branch_effects(platform, root, from, to, entries).to_multiset() == listed_effects(
            platform,
            root,
            from,
            to,
            entries,
        ).to_multiset().add(
            forest_effects(platform, root, listed_work(platform, root, from, to, entries)),
        ),
    decreases entries.len(),
{
    let all = branch_effects(platform, root, from, to, entries);
    let spots = listed_effects(platform, root, from, to, entries);
    let queued = listed_work(platform, root, from, to, entries);
    broadcast use vstd::seq_lib::group_to_multiset_ensures;

    if entries.len() == 0 {
        assert(all.to_multiset() =~= spots.to_multiset().add(
            forest_effects(platform, root, queued),
        ));
    } else {
        let entry = entries.last();
        let first = entries.drop_last();
        let head = branch_effects(platform, root, from, to, first);
        let tail = entry_effects(platform, root, from, to, entry);
        let head_spots = listed_effects(platform, root, from, to, first);
        let tail_spots = spot_effects(platform, root, from, to, entry);
        let head_queued = listed_work(platform, root, from, to, first);
        let tail_queued = spot_work(platform, root, from, to, entry);
        lemma_branches_split(platform, root, from, to, first);
        vstd::seq_lib::lemma_multiset_commutative(head, tail);
        vstd::seq_lib::lemma_multiset_commutative(head_spots, tail_spots);
        lemma_forest_add(platform, root, head_queued, tail_queued);
        assert(tail.to_multiset() =~= tail_spots.to_multiset().add(
            forest_effects(platform, root, tail_queued),
        )) by {
            if !left_out(platform, root, entry) && entry.item is Directory {
                lemma_forest_single(
                    platform,
                    root,
                    Work {
                        from: child(platform, from, entry.name),
                        to: child(platform, to, entry.name),
                        dir: entry.item->Directory_0,
                    },
                );
            }
        }
        assert(all == head + tail);
        assert(spots == head_spots + tail_spots);
        assert(queued == head_queued + tail_queued);
        assert(all.to_multiset() =~= spots.to_multiset().add(
            forest_effects(platform, root, queued),
        ));
    }
}

/// Copying one directory turns its share of the tree into changes and leaves the
/// shares of the directories in it to be done.
pub proof fn law_a_directory_is_its_share(platform: Platform, root: Option<FileId>, work: Work)
    ensures
        tree_effects(platform, root, work).to_multiset() == own_effects(
            platform,
            root,
            work,
        ).to_multiset().add(forest_effects(platform, root, queued_work(platform, root, work))),
{
    let top = image(platform, Source::Directory(work.dir), work.from, work.to);
    let entries = work.dir.entries;
    let below = branch_effects(platform, root, work.from, work.to, entries);
    let spots = listed_effects(platform, root, work.from, work.to, entries);
    lemma_branches_split(platform, root, work.from, work.to, entries);
    vstd::seq_lib::lemma_multiset_commutative(top, below);
    vstd::seq_lib::lemma_multiset_commutative(top, spots);
    assert(tree_effects(platform, root, work) == top + below);
    assert(own_effects(platform, root, work) == top + spots);
    assert(tree_effects(platform, root, work).to_multiset() =~= own_effects(
        platform,
        root,
        work,
    ).to_multiset().add(forest_effects(platform, root, queued_work(platform, root, work))));
}

} // verus!
