use fuc_engine::error::{Attempt, Context, Error, Failure, FailureKind, Subject};
use fuc_engine::file_id::FileId;
use fuc_engine::platform::Platform;
use fuc_engine::portable::backend::{copy_impl, Impl};
use fuc_engine::portable::dir::{self, copy_dir};
use fuc_engine::portable::entry::{self, begin_entry, begin_entry_at};
use fuc_engine::schedule::SourceKind;
use std::collections::BTreeMap;
use std::path::PathBuf;

fn p(text: &str) -> PathBuf {
    PathBuf::from(text)
}

/// A file on the device of the top of the copy.
fn id(ino: u64) -> FileId {
    FileId { dev: 3, ino }
}

fn fail(kind: FailureKind) -> Failure<&'static str> {
    Failure { kind, error: "os" }
}

fn unit() -> dir::Reply<&'static str> {
    dir::Reply::Unit(Ok(()))
}

#[test]
fn a_directory_is_made_and_listed() {
    let copy = copy_impl(Platform::Unix).run(p("a"), p("b"));
    assert_eq!(copy.request(), Some(dir::Request::CreateDir { path: p("b") }));
    let copy = copy.advance(unit()).unwrap();
    assert_eq!(copy.request(), Some(dir::Request::Stat { path: p("b") }));
    assert!(!copy.accepts(&unit()));
    let copy = copy.advance::<&str>(dir::Reply::Id(Ok(id(5)))).unwrap();
    assert_eq!(copy.request(), Some(dir::Request::ReadDir { path: p("a") }));
    let copy = copy.advance(unit()).unwrap();
    assert_eq!(copy.request(), None);
    assert_eq!(copy.phase, dir::Phase::Listed { root: Some(id(5)) });
}

#[test]
fn the_top_of_the_copy_is_handed_down() {
    let copy = copy_dir(Platform::Unix, p("a"), p("b"), Some(id(5)));
    let taken = dir::Reply::Unit(Err(fail(FailureKind::AlreadyExists)));
    let copy = copy.advance(taken).unwrap();
    assert_eq!(copy.phase, dir::Phase::Listing { root: Some(id(5)) });
    let copy = copy_dir(Platform::Other, p("a"), p("b"), None);
    let copy = copy.advance(unit()).unwrap();
    assert_eq!(copy.phase, dir::Phase::Listing { root: None });
}

#[test]
fn a_failing_call_ends_the_copy_of_the_directory() {
    let failed = || dir::Reply::Unit(Err(fail(FailureKind::Other)));
    let copy = copy_dir(Platform::Unix, p("a"), p("b"), None);
    assert_eq!(copy.advance(failed()).unwrap_err(), "os");
    let copy = copy_dir(Platform::Unix, p("a"), p("b"), None).advance(unit()).unwrap();
    let no_id = dir::Reply::Id(Err(fail(FailureKind::Other)));
    assert_eq!(copy.advance(no_id).unwrap_err(), "os");
    let copy = copy_dir(Platform::Other, p("a"), p("b"), None).advance(unit()).unwrap();
    assert_eq!(copy.advance(failed()).unwrap_err(), "os");
}

#[test]
fn entries_are_copied_by_what_they_are() {
    let begin = |platform| begin_entry(platform, Some(id(5)), p("a/n"), &p("b"), &p("n"), 6);
    let typed = |platform, kind| {
        let copy = begin(platform);
        assert_eq!(copy.request(), Some(entry::Request::FileType));
        copy.advance::<&str>(entry::Reply::Kind(Ok(kind))).unwrap()
    };
    assert_eq!(
        typed(Platform::Unix, SourceKind::Directory).request(),
        Some(entry::Request::CopyDir { from: p("a/n"), to: p("b/n"), root_to_inode: Some(id(5)) })
    );
    assert_eq!(
        typed(Platform::Unix, SourceKind::Other).request(),
        Some(entry::Request::CopyFile { from: p("a/n"), to: p("b/n") })
    );
    assert_eq!(
        typed(Platform::Other, SourceKind::Symlink).request(),
        Some(entry::Request::CopyFile { from: p("a/n"), to: p("b/n") })
    );
    let link = typed(Platform::Unix, SourceKind::Symlink);
    assert_eq!(link.request(), Some(entry::Request::ReadLink { path: p("a/n") }));
    let link = link.advance::<&str>(entry::Reply::Link(Ok(p("t")))).unwrap();
    assert_eq!(
        link.request(),
        Some(entry::Request::MakeLink { target: p("t"), path: p("b/n") })
    );
    let link = link.advance::<&str>(entry::Reply::Unit(Ok(()))).unwrap();
    assert_eq!(link.request(), None);
}

#[test]
fn the_top_of_the_copy_is_left_out_where_inodes_are_looked_at() {
    let top = begin_entry_at(Platform::Unix, Some(id(5)), p("a/n"), p("b/n"), 5);
    assert_eq!(top.request(), Some(entry::Request::Identify));
    let top = top.advance::<&str>(entry::Reply::Id(Ok(id(5)))).unwrap();
    assert_eq!(top.request(), None);
    let elsewhere = begin_entry_at(Platform::Unix, Some(id(5)), p("a/n"), p("b/n"), 5)
        .advance::<&str>(entry::Reply::Id(Ok(FileId { dev: 4, ino: 5 })))
        .unwrap();
    assert_eq!(elsewhere.request(), Some(entry::Request::FileType));
    let unseen = begin_entry_at(Platform::Unix, Some(id(5)), p("a/n"), p("b/n"), 5);
    let no_id = entry::Reply::Id(Err(fail(FailureKind::Other)));
    assert!(unseen.accepts(&no_id));
    assert_eq!(unseen.advance(no_id).unwrap().request(), None);
    let other = begin_entry_at(Platform::Other, Some(id(5)), p("a/n"), p("b/n"), 5);
    assert_eq!(other.request(), Some(entry::Request::FileType));
    let unknown = begin_entry_at(Platform::Unix, None, p("a/n"), p("b/n"), 5);
    assert_eq!(unknown.request(), Some(entry::Request::FileType));
}

#[test]
fn a_failing_call_ends_the_copy_of_the_entry() {
    let begin = || begin_entry_at(Platform::Unix, None, p("a"), p("b"), 1);
    let kind = entry::Reply::Kind(Err(fail(FailureKind::AlreadyExists)));
    assert!(begin().accepts(&kind));
    assert_eq!(begin().advance(kind).unwrap_err(), "os");
    let link = begin().advance::<&str>(entry::Reply::Kind(Ok(SourceKind::Symlink))).unwrap();
    assert!(!link.accepts::<&str>(&entry::Reply::Unit(Ok(()))));
    assert_eq!(
        link.advance(entry::Reply::Link(Err(fail(FailureKind::Other)))).unwrap_err(),
        "os"
    );
    let file = begin().advance::<&str>(entry::Reply::Kind(Ok(SourceKind::Other))).unwrap();
    assert_eq!(
        file.advance(entry::Reply::Unit(Err(fail(FailureKind::Other)))).unwrap_err(),
        "os"
    );
}

#[test]
fn the_error_names_the_directory_that_was_handed_over() {
    assert_eq!(
        Impl::copied(p("a"), Err("os")),
        Err(Error::Io {
            error: "os",
            context: Context {
                attempt: Attempt::CopyDirectory,
                subject: Subject::Named(p("a"))
            }
        })
    );
    assert_eq!(Impl::copied::<&str>(p("a"), Ok(())), Ok(()));
    assert_eq!(copy_impl(Platform::Unix).finish::<&str>(), Ok(()));
}

/// An object of a file system that is kept in memory.
#[derive(Clone, Debug, PartialEq)]
enum Object {
    Dir,
    File(&'static str),
    Link(&'static str),
}

/// A file system: objects with what identifies them, by their paths.
type Disk = BTreeMap<PathBuf, (FileId, Object)>;

fn disk(objects: &[(&str, Object)]) -> Disk {
    let mut disk = Disk::new();
    for (path, object) in objects {
        let ino = 100 + disk.len() as u64;
        disk.insert(p(path), (id(ino), object.clone()));
    }
    disk
}

fn put(disk: &mut Disk, path: PathBuf, object: Object) {
    let id = match path.starts_with("other") {
        true => FileId { dev: 4, ino: 101 },
        false => id(100 + disk.len() as u64),
    };
    disk.insert(path, (id, object));
}

fn copy_tree(disk: &mut Disk, mut copy: dir::DirCopy<PathBuf>) -> Result<(), &'static str> {
    let mut listing = Vec::new();
    while let Some(request) = copy.request() {
        let reply = match request {
            dir::Request::CreateDir { path } => {
                if disk.contains_key(&path) {
                    dir::Reply::Unit(Err(fail(FailureKind::AlreadyExists)))
                } else {
                    put(disk, path, Object::Dir);
                    unit()
                }
            }
            dir::Request::Stat { path } => dir::Reply::Id(Ok(disk[&path].0)),
            dir::Request::ReadDir { path } => {
                listing = disk
                    .iter()
                    .filter(|(entry, _)| entry.parent() == Some(path.as_path()))
                    .map(|(entry, (id, object))| (entry.clone(), *id, object.clone()))
                    .collect();
                unit()
            }
        };
        copy = copy.advance(reply)?;
    }
    let root = match copy.phase {
        dir::Phase::Listed { root } => root,
        other => panic!("{:?}", other),
    };
    for (path, id, object) in listing {
        let name = PathBuf::from(path.file_name().unwrap());
        let mut entry = begin_entry(copy.platform, root, path, &copy.to, &name, id.ino);
        while let Some(request) = entry.request() {
            let reply = match request {
                entry::Request::Identify => entry::Reply::Id(Ok(id)),
                entry::Request::FileType => entry::Reply::Kind(Ok(match object {
                    Object::Dir => SourceKind::Directory,
                    Object::File(_) => SourceKind::Other,
                    Object::Link(_) => SourceKind::Symlink,
                })),
                entry::Request::CopyDir { from, to, root_to_inode } => {
                    let below = copy_dir(copy.platform, from, to, root_to_inode);
                    copy_tree(disk, below)?;
                    entry::Reply::Unit(Ok(()))
                }
                entry::Request::ReadLink { .. } => match object {
                    Object::Link(target) => entry::Reply::Link(Ok(p(target))),
                    _ => entry::Reply::Link(Err(fail(FailureKind::Other))),
                },
                entry::Request::MakeLink { target, path } => {
                    assert_eq!(target, p("target"));
                    put(disk, path, Object::Link("target"));
                    entry::Reply::Unit(Ok(()))
                }
                entry::Request::CopyFile { from, to } => {
                    let copied = disk[&from].1.clone();
                    put(disk, to, copied);
                    entry::Reply::Unit(Ok(()))
                }
            };
            entry = entry.advance(reply)?;
        }
    }
    Ok(())
}

#[test]
fn a_tree_is_copied_with_portable_calls() {
    let mut disk = disk(&[
        ("a", Object::Dir),
        ("a/b", Object::Dir),
        ("a/b/file", Object::File("deep")),
        ("a/file", Object::File("shallow")),
        ("a/link", Object::Link("target")),
    ]);
    copy_tree(&mut disk, copy_impl(Platform::Unix).run(p("a"), p("t"))).unwrap();
    assert_eq!(disk[&p("t/b")].1, Object::Dir);
    assert_eq!(disk[&p("t/b/file")].1, Object::File("deep"));
    assert_eq!(disk[&p("t/file")].1, Object::File("shallow"));
    assert_eq!(disk[&p("t/link")].1, Object::Link("target"));
    assert_eq!(disk.len(), 10);
}

#[test]
fn a_portable_copy_into_itself_ends() {
    let mut disk = disk(&[
        ("a", Object::Dir),
        ("a/file", Object::File("x")),
        ("a/t", Object::Dir),
    ]);
    copy_tree(&mut disk, copy_impl(Platform::Unix).run(p("a"), p("a/t"))).unwrap();
    assert_eq!(disk[&p("a/t/file")].1, Object::File("x"));
    assert_eq!(disk.len(), 4);
}

#[test]
fn the_number_of_the_top_on_another_device_is_no_reason_to_leave_a_file_out() {
    let mut disk = disk(&[("a", Object::Dir), ("a/file", Object::File("x"))]);
    copy_tree(&mut disk, copy_impl(Platform::Unix).run(p("a"), p("other"))).unwrap();
    assert_eq!(disk[&p("other")].0.ino, disk[&p("a/file")].0.ino);
    assert_eq!(disk[&p("other/file")].1, Object::File("x"));
}

#[test]
fn names_are_joined_to_the_directory_of_the_copy() {
    let to = |dir: &str, name: &str| {
        begin_entry(Platform::Unix, None, p("a/n"), &p(dir), &p(name), 6).to
    };
    assert_eq!(to("b", "n").into_os_string(), "b/n");
    assert_eq!(to("b/", "n").into_os_string(), "b/n");
    assert_eq!(to("", "n").into_os_string(), "n");
    assert_eq!(to("/", "n").into_os_string(), "/n");
    assert_eq!(to("b", "/n").into_os_string(), "/n");
    assert_eq!(to("b", "").into_os_string(), "b/");
}
