//! A file system seen as the objects at its paths, and the laws that in it the order of files
//! that are apart does not show, and that no path is taken twice.

use crate::error::{Error, ErrorView, Failure, FailureKind};
use crate::linux::backend::root_node;
use crate::op::{CopyOpView, RunPhase, RunView};
use crate::order_laws::{
    all_independent, answered, calls_for, commute, ends_well, independent, keeps_places,
    law_the_order_of_independent_files_does_not_show, leaves_place, makes_place, needs_place,
    state_after, whole_run, HasPlace, World,
};
use crate::os_path::{lies_in, lies_in_parent, parent_bytes};
use crate::platform::Platform;
use crate::schedule::{Reply, Request, ScheduleView, SourceKind};
use crate::schedule_laws::{run, run_through};
use vstd::multiset::Multiset;
use vstd::prelude::*;

verus! {

/// What stands at a path.
pub enum Object {
    Directory,
    /// A symbolic link and where it points.
    Symlink(Seq<u8>),
    /// A file and its bytes.
    File(Seq<u8>),
}

/// A file system: what stands at each path, and the directories that were handed over and
/// are still to be copied. No link leads from one of the paths to another.
#[verifier::ext_equal]
pub struct Disk {
    pub objects: spec_fn(Seq<u8>) -> Option<Object>,
    pub handed: Multiset<(Seq<u8>, Seq<u8>)>,
}

/// Whether `dir` is a directory on the way to `path`, or is `path`.
pub open spec fn is_on_the_way(dir: Seq<u8>, path: Seq<u8>) -> bool {
    dir.len() > 0 && lies_in(path, dir)
}

/// Whether something that is no directory stands on the way to a path, or at it.
pub open spec fn is_blocked(disk: Disk, path: Seq<u8>) -> bool {
    exists|dir: Seq<u8>|
        #![trigger is_on_the_way(dir, path)]
        is_on_the_way(dir, path) && (disk.objects)(dir) is Some && (disk.objects)(dir)
            != Some(Object::Directory)
}

/// The file system with directories all the way to a path.
pub open spec fn with_way(disk: Disk, path: Seq<u8>) -> Disk {
    Disk {
        objects: |at: Seq<u8>|
            if is_on_the_way(at, path) && (disk.objects)(at) is None {
                Some(Object::Directory)
            } else {
                (disk.objects)(at)
            },
        ..disk
    }
}

/// The file system with an object at a path.
pub open spec fn with_object(disk: Disk, path: Seq<u8>, object: Object) -> Disk {
    Disk {
        objects: |at: Seq<u8>|
            if at == path {
                Some(object)
            } else {
                (disk.objects)(at)
            },
        ..disk
    }
}

/// The object that goes to a path when the directory `from` is copied to `to`, if one does:
/// the one that has the same place in `from`.
pub open spec fn source_of(disk: Disk, from: Seq<u8>, to: Seq<u8>, path: Seq<u8>) -> Option<
    Object,
> {
    let source = from + path.skip(to.len() as int);
    if lies_in(path, to) && lies_in(source, from) {
        (disk.objects)(source)
    } else {
        None
    }
}

/// Whether an object can take the place of what stands at its path.
pub open spec fn can_replace(object: Object, old: Option<Object>) -> bool {
    match (object, old) {
        (_, None) => true,
        (Object::Directory, Some(Object::Directory)) => true,
        (Object::File(_), Some(Object::File(_))) => true,
        _ => false,
    }
}

/// Whether a directory can be copied, with all that is in it.
pub open spec fn can_copy(disk: Disk, from: Seq<u8>, to: Seq<u8>) -> bool {
    &&& (disk.objects)(from) == Some(Object::Directory)
    &&& forall|path: Seq<u8>|
        #![trigger source_of(disk, from, to, path)]
        source_of(disk, from, to, path) matches Some(object) ==> can_replace(
            object,
            (disk.objects)(path),
        )
}

/// The file system with the copy of a directory and all that is in it.
pub open spec fn with_tree(disk: Disk, from: Seq<u8>, to: Seq<u8>) -> Disk {
    Disk {
        objects: |at: Seq<u8>|
            match source_of(disk, from, to, at) {
                Some(object) => Some(object),
                None => (disk.objects)(at),
            },
        ..disk
    }
}

/// Whether the directory is there that a path is in.
pub open spec fn has_place(disk: Disk, path: Seq<u8>) -> bool {
    parent_bytes(path) matches Some(parent) ==> parent.len() == 0 || (disk.objects)(parent)
        == Some(Object::Directory)
}

/// What an object is.
pub open spec fn kind_of(object: Object) -> SourceKind {
    match object {
        Object::Directory => SourceKind::Directory,
        Object::Symlink(_) => SourceKind::Symlink,
        Object::File(_) => SourceKind::Other,
    }
}

/// What the file system answers to a call, and what the call makes of it. Calls that fail
/// change nothing. On Linux, directories are only queued when they are handed over, if system
/// calls can take their paths.
pub open spec fn disk_step<E>(
    platform: Platform,
    error: E,
    disk: Disk,
    request: Request<Seq<u8>>,
) -> (Reply<Seq<u8>, Seq<u8>, E>, Disk) {
    let missing = Failure { kind: FailureKind::NotFound, error };
    let failure = Failure { kind: FailureKind::Other, error };
    match request {
        Request::Check { path } => match (disk.objects)(path) {
            Some(_) => (Reply::Unit(Ok(())), disk),
            None => (Reply::Unit(Err(missing)), disk),
        },
        Request::Inspect { path } => match (disk.objects)(path) {
            Some(object) => (Reply::Kind(Ok(kind_of(object))), disk),
            None => (Reply::Kind(Err(missing)), disk),
        },
        Request::CreateDirAll { path } => if is_blocked(disk, path) {
            (Reply::Unit(Err(failure)), disk)
        } else {
            (Reply::Unit(Ok(())), with_way(disk, path))
        },
        Request::HandOver { from, to } => if platform == Platform::Linux {
            match root_node::<E>(from, to) {
                Ok(_) => (
                    Reply::HandedOver(Ok(())),
                    Disk { handed: disk.handed.insert((from, to)), ..disk },
                ),
                Err(refused) => (Reply::HandedOver(Err(refused)), disk),
            }
        } else if has_place(disk, to) && can_copy(disk, from, to) {
            (Reply::HandedOver(Ok(())), with_tree(disk, from, to))
        } else {
            (Reply::HandedOver(Err(Error::Internal)), disk)
        },
        Request::ReadLink { path } => match (disk.objects)(path) {
            Some(Object::Symlink(target)) => (Reply::Link(Ok(target)), disk),
            _ => (Reply::Link(Err(failure)), disk),
        },
        Request::MakeLink { target, path } => if has_place(disk, path) && (disk.objects)(
            path,
        ) is None {
            (Reply::Unit(Ok(())), with_object(disk, path, Object::Symlink(target)))
        } else {
            (Reply::Unit(Err(failure)), disk)
        },
        Request::CopyFile { from, to } => match (disk.objects)(from) {
            Some(Object::File(bytes)) if has_place(disk, to) && can_replace(
                Object::File(bytes),
                (disk.objects)(to),
            ) => (Reply::Unit(Ok(())), with_object(disk, to, Object::File(bytes))),
            _ => (Reply::Unit(Err(failure)), disk),
        },
    }
}

/// The file system as the world that files are copied in.
pub open spec fn disk_world<E>(platform: Platform, error: E) -> World<Disk, E> {
    |disk: Disk, request: Request<Seq<u8>>| disk_step(platform, error, disk, request)
}

/// Where the file system has places.
pub open spec fn disk_places() -> HasPlace<Disk> {
    |disk: Disk, path: Seq<u8>| has_place(disk, path)
}

/// Whether one of two paths lies in the other.
pub open spec fn overlap(one: Seq<u8>, other: Seq<u8>) -> bool {
    lies_in(one, other) || lies_in(other, one)
}

/// Whether two files are apart: the path of no copy is the same as a path of the other file,
/// contains it or lies in it. Two copies may go into the same directory.
pub open spec fn apart(one: (Seq<u8>, Seq<u8>), other: (Seq<u8>, Seq<u8>)) -> bool {
    &&& !overlap(one.1, other.1)
    &&& !overlap(one.1, other.0)
    &&& !overlap(other.1, one.0)
}

/// What lies in something lies in all that contains it.
proof fn lemma_lies_in_all(path: Seq<u8>, middle: Seq<u8>, dir: Seq<u8>)
    requires
        lies_in(path, middle),
        lies_in(middle, dir),
    ensures
        lies_in(path, dir),
{
    if path != middle && middle != dir {
        assert(path.take(dir.len() as int) =~= path.take(middle.len() as int).take(
            dir.len() as int,
        ));
        assert(path[dir.len() as int] == path.take(middle.len() as int)[dir.len() as int]);
    }
}

/// Of two directories that a path lies in, one lies in the other.
proof fn lemma_one_in_the_other(path: Seq<u8>, one: Seq<u8>, other: Seq<u8>)
    requires
        lies_in(path, one),
        lies_in(path, other),
        one.len() <= other.len(),
    ensures
        lies_in(other, one),
{
    if path != other && path != one {
        assert(other.take(one.len() as int) =~= path.take(one.len() as int));
        if one.len() == other.len() {
            assert(one =~= other);
        } else {
            assert(other[one.len() as int] == path.take(other.len() as int)[one.len() as int]);
        }
    } else if path == one {
        assert(one =~= other);
    }
}

/// No path lies in two that do not overlap.
proof fn lemma_no_common_path(path: Seq<u8>, one: Seq<u8>, other: Seq<u8>)
    requires
        !overlap(one, other),
        lies_in(path, one),
    ensures
        !lies_in(path, other),
{
    if lies_in(path, other) {
        if one.len() <= other.len() {
            lemma_one_in_the_other(path, one, other);
        } else {
            lemma_one_in_the_other(path, other, one);
        }
    }
}

/// Whether a path lies at one of the two places of a file.
spec fn is_of(file: (Seq<u8>, Seq<u8>), path: Seq<u8>) -> bool {
    lies_in(path, file.0) || lies_in(path, file.1)
}

/// Whether two file systems are the same at the two places of a file.
spec fn agree(file: (Seq<u8>, Seq<u8>), one: Disk, other: Disk) -> bool {
    forall|path: Seq<u8>| #[trigger]
        is_of(file, path) ==> (one.objects)(path) == (other.objects)(path)
}

/// The directories that a call hands over to be copied later.
spec fn handed_by<E>(platform: Platform, request: Request<Seq<u8>>) -> Multiset<
    (Seq<u8>, Seq<u8>),
> {
    match request {
        Request::HandOver { from, to } if platform == Platform::Linux && root_node::<E>(
            from,
            to,
        ) is Ok => Multiset::empty().insert((from, to)),
        _ => Multiset::empty(),
    }
}

/// A call for a file, other than to make the way to it, changes nothing but what lies at the
/// path of its copy.
proof fn lemma_changes_the_copy<E>(
    platform: Platform,
    error: E,
    file: (Seq<u8>, Seq<u8>),
    disk: Disk,
    request: Request<Seq<u8>>,
)
    requires
        calls_for(file, request),
        !(request is CreateDirAll),
    ensures
        ({
            let after = disk_step(platform, error, disk, request).1;
            &&& forall|path: Seq<u8>|
                !(#[trigger] lies_in(path, file.1)) ==> (after.objects)(path) == (disk.objects)(
                    path,
                )
            &&& after.handed == disk.handed.add(handed_by::<E>(platform, request))
        }),
{
    let after = disk_step(platform, error, disk, request).1;
    assert(disk.handed.add(Multiset::empty()) =~= disk.handed);
    assert(lies_in(file.1, file.1));
    match request {
        Request::HandOver { from, to } if platform == Platform::Linux => {
            assert(after.handed =~= disk.handed.add(handed_by::<E>(platform, request)));
        },
        _ => {},
    }
}

/// A call for a file, other than to make the way to it, goes by nothing but what lies at the
/// two places of the file, where there is a place for the copy.
proof fn lemma_goes_by_the_file<E>(
    platform: Platform,
    error: E,
    file: (Seq<u8>, Seq<u8>),
    one: Disk,
    other: Disk,
    request: Request<Seq<u8>>,
)
    requires
        calls_for(file, request),
        !(request is CreateDirAll),
        agree(file, one, other),
        needs_place(request) ==> has_place(one, file.1) && has_place(other, file.1),
    ensures
        disk_step(platform, error, one, request).0 == disk_step(platform, error, other, request).0,
        agree(
            file,
            disk_step(platform, error, one, request).1,
            disk_step(platform, error, other, request).1,
        ),
{
    assert(is_of(file, file.0));
    assert(is_of(file, file.1));
    match request {
        Request::HandOver { from, to } => {
            assert forall|path: Seq<u8>|
                source_of(one, from, to, path) == source_of(other, from, to, path) by {
                assert(is_of(file, from + path.skip(to.len() as int)) || !lies_in(
                    from + path.skip(to.len() as int),
                    from,
                ));
            }
            assert(can_copy(one, from, to) == can_copy(other, from, to)) by {
                assert forall|path: Seq<u8>|
                    source_of(one, from, to, path) is Some implies (one.objects)(path)
                    == (other.objects)(path) by {
                    assert(is_of(file, path));
                }
                assert forall|path: Seq<u8>|
                    #![trigger source_of(one, from, to, path)]
                    #![trigger source_of(other, from, to, path)]
                    source_of(one, from, to, path) == source_of(other, from, to, path) by {}
            }
        },
        _ => {},
    }
}

/// The way to the parent of a copy is apart from all files that the copy is apart from.
proof fn lemma_way_is_apart(
    file: (Seq<u8>, Seq<u8>),
    other: (Seq<u8>, Seq<u8>),
    parent: Seq<u8>,
    path: Seq<u8>,
)
    requires
        apart(file, other),
        lies_in_parent(file.1),
        parent_bytes(file.1) == Some(parent),
        is_on_the_way(path, parent),
    ensures
        !is_of(other, path),
        !lies_in(path, other.1),
{
    if parent.len() > 0 {
        lemma_lies_in_all(file.1, parent, path);
        if lies_in(path, other.0) {
            lemma_lies_in_all(file.1, path, other.0);
        }
        if lies_in(path, other.1) {
            lemma_lies_in_all(file.1, path, other.1);
        }
    }
}

/// Two calls that change no more than copies commute.
proof fn lemma_copies_commute<E>(
    platform: Platform,
    error: E,
    disk: Disk,
    file: (Seq<u8>, Seq<u8>),
    other: (Seq<u8>, Seq<u8>),
    p: Request<Seq<u8>>,
    q: Request<Seq<u8>>,
)
    requires
        apart(file, other),
        lies_in_parent(file.1),
        lies_in_parent(other.1),
        calls_for(file, p),
        calls_for(other, q),
        !(p is CreateDirAll),
        !(q is CreateDirAll),
        needs_place(p) ==> has_place(disk, file.1),
        needs_place(q) ==> has_place(disk, other.1),
    ensures
        commute(disk_world(platform, error), disk, p, q),
{
    let after_p = disk_step(platform, error, disk, p).1;
    let after_q = disk_step(platform, error, disk, q).1;
    let pq = disk_step(platform, error, after_p, q).1;
    let qp = disk_step(platform, error, after_q, p).1;
    lemma_changes_the_copy(platform, error, file, disk, p);
    lemma_changes_the_copy(platform, error, other, disk, q);
    lemma_changes_the_copy(platform, error, other, after_p, q);
    lemma_changes_the_copy(platform, error, file, after_q, p);
    assert forall|path: Seq<u8>| #[trigger] is_of(other, path) implies (after_p.objects)(path)
        == (disk.objects)(path) by {
        if lies_in(path, file.1) {
            lemma_no_common_path(path, file.1, other.0);
            lemma_no_common_path(path, file.1, other.1);
        }
    }
    assert forall|path: Seq<u8>| #[trigger] is_of(file, path) implies (after_q.objects)(path)
        == (disk.objects)(path) by {
        if lies_in(path, other.1) {
            lemma_no_common_path(path, other.1, file.0);
            lemma_no_common_path(path, other.1, file.1);
        }
    }
    lemma_step_leaves_place(platform, error, disk, file, p, other.1);
    lemma_step_leaves_place(platform, error, disk, other, q, file.1);
    lemma_goes_by_the_file(platform, error, other, disk, after_p, q);
    lemma_goes_by_the_file(platform, error, file, disk, after_q, p);
    assert forall|path: Seq<u8>| #[trigger] (pq.objects)(path) == (qp.objects)(path) by {
        if lies_in(path, file.1) {
            lemma_no_common_path(path, file.1, other.1);
            assert(is_of(file, path));
        } else if lies_in(path, other.1) {
            assert(is_of(other, path));
        }
    }
    assert(pq.objects =~= qp.objects);
    assert(pq.handed =~= qp.handed);
    assert(pq =~= qp);
}

/// Making the way to a copy commutes with the calls for another file.
proof fn lemma_way_commutes<E>(
    platform: Platform,
    error: E,
    disk: Disk,
    file: (Seq<u8>, Seq<u8>),
    other: (Seq<u8>, Seq<u8>),
    p: Request<Seq<u8>>,
    q: Request<Seq<u8>>,
)
    requires
        apart(file, other),
        lies_in_parent(file.1),
        lies_in_parent(other.1),
        calls_for(file, p),
        calls_for(other, q),
        p is CreateDirAll,
        needs_place(q) ==> has_place(disk, other.1),
    ensures
        commute(disk_world(platform, error), disk, p, q),
{
    let parent = p->CreateDirAll_path;
    let after_p = disk_step(platform, error, disk, p).1;
    let after_q = disk_step(platform, error, disk, q).1;
    let pq = disk_step(platform, error, after_p, q).1;
    let qp = disk_step(platform, error, after_q, p).1;
    if q is CreateDirAll {
        let way = q->CreateDirAll_path;
        assert(is_blocked(after_q, parent) == is_blocked(disk, parent)) by {
            lemma_way_blocks_nothing(disk, way, parent);
        }
        assert(is_blocked(after_p, way) == is_blocked(disk, way)) by {
            lemma_way_blocks_nothing(disk, parent, way);
        }
    } else {
        lemma_changes_the_copy(platform, error, other, disk, q);
        lemma_changes_the_copy(platform, error, other, after_p, q);
        assert forall|path: Seq<u8>| #[trigger] is_of(other, path) implies (after_p.objects)(path)
            == (disk.objects)(path) by {
            if is_on_the_way(path, parent) {
                lemma_way_is_apart(file, other, parent, path);
            }
        }
        lemma_step_leaves_place(platform, error, disk, file, p, other.1);
        lemma_goes_by_the_file(platform, error, other, disk, after_p, q);
        assert forall|dir: Seq<u8>| #[trigger] is_on_the_way(dir, parent) implies (
        after_q.objects)(dir) == (disk.objects)(dir) by {
            lemma_way_is_apart(file, other, parent, dir);
        }
        assert(is_blocked(after_q, parent) == is_blocked(disk, parent));
        assert forall|path: Seq<u8>| #[trigger] (pq.objects)(path) == (qp.objects)(path) by {
            if lies_in(path, other.1) {
                assert(is_of(other, path));
                if is_on_the_way(path, parent) {
                    lemma_way_is_apart(file, other, parent, path);
                }
            }
        }
    }
    assert(pq.objects =~= qp.objects);
    assert(pq.handed =~= qp.handed);
    assert(pq =~= qp);
}

/// Directories on the way to a path stand in the way of no other.
proof fn lemma_way_blocks_nothing(disk: Disk, path: Seq<u8>, other: Seq<u8>)
    ensures
        is_blocked(with_way(disk, path), other) == is_blocked(disk, other),
{
    let after = with_way(disk, path);
    if is_blocked(disk, other) {
        let dir = choose|dir: Seq<u8>|
            #![trigger is_on_the_way(dir, other)]
            is_on_the_way(dir, other) && (disk.objects)(dir) is Some && (disk.objects)(dir)
                != Some(Object::Directory);
        assert((after.objects)(dir) == (disk.objects)(dir));
    }
    if is_blocked(after, other) {
        let dir = choose|dir: Seq<u8>|
            #![trigger is_on_the_way(dir, other)]
            is_on_the_way(dir, other) && (after.objects)(dir) is Some && (after.objects)(dir)
                != Some(Object::Directory);
        assert((after.objects)(dir) == (disk.objects)(dir));
    }
}

/// No call takes a directory away.
proof fn lemma_step_leaves_place<E>(
    platform: Platform,
    error: E,
    disk: Disk,
    file: (Seq<u8>, Seq<u8>),
    request: Request<Seq<u8>>,
    path: Seq<u8>,
)
    requires
        calls_for(file, request),
    ensures
        has_place(disk, path) ==> has_place(disk_step(platform, error, disk, request).1, path),
{
    if has_place(disk, path) && parent_bytes(path) is Some {
        let parent = parent_bytes(path)->0;
        match request {
            Request::HandOver { from, to } => {
                assert(source_of(disk, from, to, parent) is Some ==> platform == Platform::Linux
                    || !can_copy(disk, from, to) || can_replace(
                    source_of(disk, from, to, parent)->0,
                    (disk.objects)(parent),
                ));
            },
            _ => {},
        }
    }
}

/// Files that are apart are independent of each other, in a file system.
pub proof fn law_files_that_are_apart_are_independent<E>(
    platform: Platform,
    error: E,
    files: Seq<(Seq<u8>, Seq<u8>)>,
)
    requires
        forall|i: int| 0 <= i < files.len() ==> lies_in_parent((#[trigger] files[i]).1),
        forall|i: int, j: int|
            0 <= i < files.len() && 0 <= j < files.len() && i != j ==> apart(
                #[trigger] files[i],
                #[trigger] files[j],
            ),
    ensures
        all_independent(disk_world(platform, error), disk_places(), files),
{
    let world = disk_world(platform, error);
    let places = disk_places();
    assert forall|i: int| 0 <= i < files.len() implies keeps_places(
        world,
        places,
        #[trigger] files[i],
    ) by {
        let file = files[i];
        assert forall|disk: Disk| #[trigger] makes_place(world, places, disk, file.1) by {
            if parent_bytes(file.1) is Some {
                let parent = parent_bytes(file.1)->0;
                if parent.len() > 0 {
                    assert(is_on_the_way(parent, parent));
                }
            }
        }
        assert forall|disk: Disk, request: Request<Seq<u8>>, path: Seq<u8>|
            calls_for(file, request) implies #[trigger] leaves_place(
            world,
            places,
            disk,
            request,
            path,
        ) by {
            lemma_step_leaves_place(platform, error, disk, file, request, path);
        }
    }
    assert forall|i: int, j: int|
        0 <= i < files.len() && 0 <= j < files.len() && i != j implies independent(
        world,
        places,
        #[trigger] files[i],
        #[trigger] files[j],
    ) by {
        let file = files[i];
        let other = files[j];
        assert forall|disk: Disk, p: Request<Seq<u8>>, q: Request<Seq<u8>>|
            calls_for(file, p) && calls_for(other, q) && (needs_place(p) ==> places(disk, file.1))
                && (needs_place(q) ==> places(disk, other.1)) implies #[trigger] commute(
            world,
            disk,
            p,
            q,
        ) by {
            if p is CreateDirAll {
                lemma_way_commutes(platform, error, disk, file, other, p, q);
            } else if q is CreateDirAll {
                lemma_way_commutes(platform, error, disk, other, file, q, p);
            } else {
                lemma_copies_commute(platform, error, disk, file, other, p, q);
            }
        }
    }
}

/// The order of files that are apart does not show. Let an operation go through all of its
/// files without an error in a file system, and let the files be apart from each other. Then
/// the operation on the same files in any other order does so too, from the same file
/// system. It leaves the same objects at the same paths, with the same bytes and targets,
/// and has handed over the same directories. And the outcomes are the same, whatever became
/// of those.
pub proof fn law_the_order_of_files_that_are_apart_does_not_show<E>(
    platform: Platform,
    error: E,
    disk: Disk,
    op: CopyOpView,
    other: CopyOpView,
    replies: Seq<Reply<Seq<u8>, Seq<u8>, E>>,
    finish: Result<(), ErrorView<E>>,
) -> (others: Seq<Reply<Seq<u8>, Seq<u8>, E>>)
    requires
        other.force == op.force,
        other.files.to_multiset() == op.files.to_multiset(),
        forall|i: int| 0 <= i < op.files.len() ==> lies_in_parent((#[trigger] op.files[i]).1),
        forall|i: int, j: int|
            0 <= i < op.files.len() && 0 <= j < op.files.len() && i != j ==> apart(
                #[trigger] op.files[i],
                #[trigger] op.files[j],
            ),
        ends_well(disk_world(platform, error), disk, op, platform, replies),
    ensures
        ends_well(disk_world(platform, error), disk, other, platform, others),
        state_after(
            disk_world(platform, error),
            disk,
            ScheduleView::begin(other, platform),
            others,
        ) == state_after(
            disk_world(platform, error),
            disk,
            ScheduleView::begin(op, platform),
            replies,
        ),
        run_through(RunView::<E>::begin(other, platform), whole_run(others, finish))
            == RunPhase::<ScheduleView, Seq<u8>, Seq<u8>, E>::Done(finish),
        run_through(RunView::<E>::begin(op, platform), whole_run(replies, finish))
            == RunPhase::<ScheduleView, Seq<u8>, Seq<u8>, E>::Done(finish),
{
    law_files_that_are_apart_are_independent(platform, error, op.files);
    law_the_order_of_independent_files_does_not_show(
        disk_world(platform, error),
        disk_places(),
        disk,
        op,
        other,
        platform,
        replies,
        finish,
    )
}

/// Whether the copy of a file stands at its path, or the file is a directory that is still
/// to be copied.
spec fn has_landed(platform: Platform, disk: Disk, file: (Seq<u8>, Seq<u8>)) -> bool {
    (disk.objects)(file.1) is Some || platform == Platform::Linux && disk.handed.contains(file)
}

/// Whether the first files have landed, and of those and of the next one none went to the
/// path of an earlier one, unless that was a directory which is still to be copied. The next
/// one counts if `checked` holds.
spec fn landed_apart(
    platform: Platform,
    disk: Disk,
    files: Seq<(Seq<u8>, Seq<u8>)>,
    index: int,
    checked: bool,
) -> bool {
    &&& forall|i: int| 0 <= i < index ==> has_landed(platform, disk, #[trigger] files[i])
    &&& forall|i: int, j: int|
        0 <= i < j && (j < index || checked && j == index) && (#[trigger] files[i]).1 == (
        #[trigger] files[j]).1 ==> platform == Platform::Linux && disk.handed.contains(files[i])
}

/// A call takes nothing away, neither an object nor a directory that is still to be copied.
proof fn lemma_step_takes_nothing_away<E>(
    platform: Platform,
    error: E,
    disk: Disk,
    request: Request<Seq<u8>>,
)
    ensures
        ({
            let after = disk_step(platform, error, disk, request).1;
            &&& forall|path: Seq<u8>|
                (disk.objects)(path) is Some ==> (#[trigger] (after.objects)(path)) is Some
            &&& forall|file: (Seq<u8>, Seq<u8>)|
                disk.handed.contains(file) ==> #[trigger] after.handed.contains(file)
        }),
{
}

/// While an operation that replaces nothing goes through its files, they land apart.
proof fn lemma_files_land_apart<E>(
    platform: Platform,
    error: E,
    disk: Disk,
    op: CopyOpView,
    replies: Seq<Reply<Seq<u8>, Seq<u8>, E>>,
)
    requires
        !op.force,
        answered(
            disk_world(platform, error),
            disk,
            ScheduleView::begin(op, platform),
            replies,
        ),
    ensures
        ({
            let start = ScheduleView::begin(op, platform);
            run(start, replies) matches Ok(schedule) ==> {
                &&& schedule.wf()
                &&& schedule.op == op
                &&& schedule.platform == platform
                &&& landed_apart(
                    platform,
                    state_after(disk_world(platform, error), disk, start, replies),
                    op.files,
                    schedule.index as int,
                    !(schedule.phase is Checking) && !(schedule.phase is Finished),
                )
            }
        }),
    decreases replies.len(),
{
    let start = ScheduleView::begin(op, platform);
    if replies.len() > 0 {
        let before = replies.drop_last();
        lemma_files_land_apart(platform, error, disk, op, before);
        let schedule = run(start, before)->Ok_0;
        let now = state_after(disk_world(platform, error), disk, start, before);
        let request = schedule.wants()->0;
        let after = disk_step(platform, error, now, request).1;
        lemma_step_takes_nothing_away(platform, error, now, request);
        if run(start, replies) is Ok {
            let file = op.files[schedule.index as int];
            let next = run(start, replies)->Ok_0;
            if next.index > schedule.index {
                assert(has_landed(platform, after, file)) by {
                    if request is HandOver {
                        assert(file.0 + file.1.skip(file.1.len() as int) =~= file.0);
                        assert(source_of(now, file.0, file.1, file.1) == (now.objects)(file.0));
                    }
                }
            }
        }
    }
}

/// An operation that replaces nothing never takes a path twice. If it goes through all of
/// its files without an error in a file system, no two of them go to the same path, unless
/// the first of them is a directory that was only queued when it was handed over, as it is on
/// Linux.
pub proof fn law_no_path_is_taken_twice<E>(
    platform: Platform,
    error: E,
    disk: Disk,
    op: CopyOpView,
    replies: Seq<Reply<Seq<u8>, Seq<u8>, E>>,
    i: int,
    j: int,
)
    requires
        !op.force,
        ends_well(disk_world(platform, error), disk, op, platform, replies),
        0 <= i < j < op.files.len(),
        op.files[i].1 == op.files[j].1,
    ensures
        platform == Platform::Linux,
        state_after(
            disk_world(platform, error),
            disk,
            ScheduleView::begin(op, platform),
            replies,
        ).handed.contains(op.files[i]),
{
    lemma_files_land_apart(platform, error, disk, op, replies);
}

} // verus!
