//! What a faithful copy of a directory tree is.
//!
//! A source tree is written down as a value, and so is every lasting change that
//! copying it makes. The laws say that the changes are the image of the tree and that
//! none is made twice.

use crate::c_path::{child_path, is_dot_name, SEPARATOR};
use crate::file_id::FileId;
use crate::file_type::{permission_bits, FileType};
use crate::os_path::joined_bytes;
use crate::platform::Platform;
use vstd::multiset::Multiset;
use vstd::prelude::*;

verus! {

/// An object that a directory holds.
pub enum Source {
    /// A directory and all that is in it.
    Directory(SourceDir),
    /// A symbolic link and where it points.
    Symlink(Seq<u8>),
    /// A file of any other type, with its raw mode.
    File { file_type: FileType, mode: u16 },
}

/// A directory: its raw mode, and its entries in the order in which they are
/// listed.
pub struct SourceDir {
    pub mode: u16,
    pub entries: Seq<SourceEntry>,
}

/// An entry of a directory: the inode number under which it is listed, and the file
/// that it is. The two numbers differ where another file system is mounted on it.
pub struct SourceEntry {
    pub name: Seq<u8>,
    pub ino: u64,
    pub id: FileId,
    pub item: Source,
}

/// A lasting change that a copy makes.
pub enum Effect {
    /// A directory stands at `path`. If it had to be made, it was with this mode,
    /// where one is given.
    Directory { path: Seq<u8>, new_mode: Option<u32> },
    /// A symbolic link to `target` stands at `path`.
    Symlink { path: Seq<u8>, target: Seq<u8> },
    /// An empty file stands at `path`. If it had to be made, it was with this mode.
    Create { path: Seq<u8>, mode: u32 },
    /// The bytes of the file at `from` were copied to the file at `path`.
    Fill { path: Seq<u8>, from: Seq<u8> },
}

impl Effect {
    /// Where the change was made.
    pub open spec fn path(self) -> Seq<u8> {
        match self {
            Effect::Directory { path, .. } => path,
            Effect::Symlink { path, .. } => path,
            Effect::Create { path, .. } => path,
            Effect::Fill { path, .. } => path,
        }
    }
}

impl Source {
    /// The type under which the object is listed.
    pub open spec fn file_type(self) -> FileType {
        match self {
            Source::Directory(_) => FileType::Directory,
            Source::Symlink(_) => FileType::Symlink,
            Source::File { file_type, .. } => file_type,
        }
    }

    /// Whether a file is not listed as a directory or a link.
    pub open spec fn consistent(self) -> bool {
        self matches Source::File { file_type, .. } ==> file_type != FileType::Directory
            && file_type != FileType::Symlink
    }
}

/// The path of `name` in the directory `dir`.
pub open spec fn child(platform: Platform, dir: Seq<u8>, name: Seq<u8>) -> Seq<u8> {
    match platform {
        Platform::Linux => child_path(dir, name),
        _ => joined_bytes(dir, name),
    }
}

/// The mode that the copy of a directory is made with, where one is given.
pub open spec fn directory_mode(platform: Platform, raw: u16) -> Option<u32> {
    match platform {
        Platform::Linux => Some(permission_bits(raw)),
        _ => None,
    }
}

/// Whether an entry is the directory at the top of the copy, which is `root`, and is
/// listed under its inode number.
pub open spec fn is_top(root: Option<FileId>, entry: SourceEntry) -> bool {
    root == Some(entry.id) && entry.ino == entry.id.ino
}

/// Whether an entry is left out of the copy: the entries for a directory itself
/// and its parent, and the directory at the top of the copy, where it stands inside
/// what is being copied.
pub open spec fn left_out(platform: Platform, root: Option<FileId>, entry: SourceEntry) -> bool {
    match platform {
        Platform::Linux => is_dot_name(entry.name) || is_top(root, entry),
        Platform::Unix => is_top(root, entry),
        Platform::Other => false,
    }
}

/// The changes that copying an object makes at the path of its copy. For a
/// directory that is the directory alone.
pub open spec fn image(platform: Platform, item: Source, from: Seq<u8>, to: Seq<u8>) -> Seq<
    Effect,
> {
    match item {
        Source::Directory(dir) => seq![
            Effect::Directory { path: to, new_mode: directory_mode(platform, dir.mode) },
        ],
        Source::Symlink(target) => if platform.copies_links() {
            seq![Effect::Symlink { path: to, target }]
        } else {
            seq![Effect::Fill { path: to, from }]
        },
        Source::File { mode, .. } => if platform == Platform::Linux {
            seq![
                Effect::Create { path: to, mode: permission_bits(mode) },
                Effect::Fill { path: to, from },
            ]
        } else {
            seq![Effect::Fill { path: to, from }]
        },
    }
}

/// A directory that is to be copied from `from` to `to`.
pub struct Work {
    pub from: Seq<u8>,
    pub to: Seq<u8>,
    pub dir: SourceDir,
}

/// The changes that copying a whole tree makes.
pub open spec fn tree_effects(platform: Platform, root: Option<FileId>, work: Work) -> Seq<Effect>
    decreases work.dir,
{
    image(platform, Source::Directory(work.dir), work.from, work.to) + branch_effects(
        platform,
        root,
        work.from,
        work.to,
        work.dir.entries,
    )
}

/// The changes that copying all of these entries, with what is below them, makes.
pub open spec fn branch_effects(
    platform: Platform,
    root: Option<FileId>,
    from: Seq<u8>,
    to: Seq<u8>,
    entries: Seq<SourceEntry>,
) -> Seq<Effect>
    decreases entries,
{
    if entries.len() == 0 {
        seq![]
    } else {
        branch_effects(platform, root, from, to, entries.drop_last()) + entry_effects(
            platform,
            root,
            from,
            to,
            entries[entries.len() - 1],
        )
    }
}

/// The changes that copying this entry, with what is below it, makes.
pub open spec fn entry_effects(
    platform: Platform,
    root: Option<FileId>,
    from: Seq<u8>,
    to: Seq<u8>,
    entry: SourceEntry,
) -> Seq<Effect>
    decreases entry,
{
    let from = child(platform, from, entry.name);
    let to = child(platform, to, entry.name);
    if left_out(platform, root, entry) {
        seq![]
    } else {
        match entry.item {
            Source::Directory(dir) => tree_effects(platform, root, Work { from, to, dir }),
            _ => image(platform, entry.item, from, to),
        }
    }
}

/// The changes that are made while this one directory is copied.
pub open spec fn own_effects(platform: Platform, root: Option<FileId>, work: Work) -> Seq<Effect> {
    image(platform, Source::Directory(work.dir), work.from, work.to) + listed_effects(
        platform,
        root,
        work.from,
        work.to,
        work.dir.entries,
    )
}

/// The changes that are made while these entries of a directory are copied.
pub open spec fn listed_effects(
    platform: Platform,
    root: Option<FileId>,
    from: Seq<u8>,
    to: Seq<u8>,
    entries: Seq<SourceEntry>,
) -> Seq<Effect>
    decreases entries.len(),
{
    if entries.len() == 0 {
        seq![]
    } else {
        listed_effects(platform, root, from, to, entries.drop_last()) + spot_effects(
            platform,
            root,
            from,
            to,
            entries.last(),
        )
    }
}

/// The changes that an entry leads to on the spot.
pub open spec fn spot_effects(
    platform: Platform,
    root: Option<FileId>,
    from: Seq<u8>,
    to: Seq<u8>,
    entry: SourceEntry,
) -> Seq<Effect> {
    if left_out(platform, root, entry) || entry.item is Directory {
        seq![]
    } else {
        image(
            platform,
            entry.item,
            child(platform, from, entry.name),
            child(platform, to, entry.name),
        )
    }
}

/// The directories that are queued while this one directory is copied.
pub open spec fn queued_work(platform: Platform, root: Option<FileId>, work: Work) -> Seq<Work> {
    listed_work(platform, root, work.from, work.to, work.dir.entries)
}

/// The directories that are queued while these entries of a directory are copied.
pub open spec fn listed_work(
    platform: Platform,
    root: Option<FileId>,
    from: Seq<u8>,
    to: Seq<u8>,
    entries: Seq<SourceEntry>,
) -> Seq<Work>
    decreases entries.len(),
{
    if entries.len() == 0 {
        seq![]
    } else {
        listed_work(platform, root, from, to, entries.drop_last()) + spot_work(
            platform,
            root,
            from,
            to,
            entries.last(),
        )
    }
}

/// The directory that an entry leads to, if it does to one.
pub open spec fn spot_work(
    platform: Platform,
    root: Option<FileId>,
    from: Seq<u8>,
    to: Seq<u8>,
    entry: SourceEntry,
) -> Seq<Work> {
    if left_out(platform, root, entry) {
        seq![]
    } else {
        match entry.item {
            Source::Directory(dir) => seq![
                Work {
                    from: child(platform, from, entry.name),
                    to: child(platform, to, entry.name),
                    dir,
                },
            ],
            _ => seq![],
        }
    }
}

/// The changes that copying all of these trees makes.
pub open spec fn forest_effects(
    platform: Platform,
    root: Option<FileId>,
    pending: Seq<Work>,
) -> Multiset<Effect>
    decreases pending.len(),
{
    if pending.len() == 0 {
        Multiset::empty()
    } else {
        forest_effects(platform, root, pending.drop_last()).add(
            tree_effects(platform, root, pending.last()).to_multiset(),
        )
    }
}

/// Whether no entry of a directory, or of one below it, is the file `id`.
pub open spec fn is_without(dir: SourceDir, id: FileId) -> bool
    decreases dir,
{
    are_without(dir.entries, id)
}

/// Whether the same holds of these entries and of all below them.
pub open spec fn are_without(entries: Seq<SourceEntry>, id: FileId) -> bool
    decreases entries,
{
    entries.len() == 0 || {
        let last = entries[entries.len() - 1];
        &&& are_without(entries.drop_last(), id)
        &&& last.id != id
        &&& last.item matches Source::Directory(dir) ==> is_without(dir, id)
    }
}

/// The path that `names` lead to from `base`, one directory after the other.
pub open spec fn path_at(platform: Platform, base: Seq<u8>, names: Seq<Seq<u8>>) -> Seq<u8>
    decreases names.len(),
{
    if names.len() == 0 {
        base
    } else {
        path_at(platform, child(platform, base, names[0]), names.drop_first())
    }
}

/// Whether `names` lead from a directory to this object, through entries none of
/// which is left out.
pub open spec fn leads_to(
    platform: Platform,
    root: Option<FileId>,
    dir: SourceDir,
    names: Seq<Seq<u8>>,
    item: Source,
) -> bool
    decreases names.len(),
{
    &&& names.len() > 0
    &&& exists|i: int|
        #![trigger dir.entries[i]]
        {
            &&& 0 <= i < dir.entries.len()
            &&& !left_out(platform, root, dir.entries[i])
            &&& dir.entries[i].name == names[0]
            &&& if names.len() == 1 {
                dir.entries[i].item == item
            } else {
                dir.entries[i].item matches Source::Directory(sub) && leads_to(
                    platform,
                    root,
                    sub,
                    names.drop_first(),
                    item,
                )
            }
        }
}

/// Whether, in a directory and in all below it, no two entries have the same name
/// and no name is empty or holds a separator, as the kernel has it.
pub open spec fn well_named(dir: SourceDir) -> bool
    decreases dir,
{
    well_named_entries(dir.entries)
}

/// Whether the same holds of these entries and of all below them.
pub open spec fn well_named_entries(entries: Seq<SourceEntry>) -> bool
    decreases entries,
{
    entries.len() == 0 || {
        let last = entries[entries.len() - 1];
        &&& well_named_entries(entries.drop_last())
        &&& last.name.len() > 0
        &&& !last.name.contains(SEPARATOR)
        &&& forall|j: int| 0 <= j < entries.len() - 1 ==> (#[trigger] entries[j]).name != last.name
        &&& last.item matches Source::Directory(dir) ==> well_named(dir)
    }
}

} // verus!
