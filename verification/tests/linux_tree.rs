use fuc_engine::c_path::CPath;
use fuc_engine::error::{CopyError, Error, Failure};
use fuc_engine::file_id::FileId;
use fuc_engine::file_type::FileType;
use fuc_engine::linux::dir::{copy_dir, DirCopy};
use fuc_engine::linux::node::{Entry, OpenFlags, Reply, Request, TreeNode};
use std::collections::BTreeMap;

/// An object of a file system that is kept in memory.
#[derive(Clone, Debug, PartialEq)]
enum Object {
    Dir { mode: u32 },
    File { mode: u32, data: Vec<u8> },
    Link { target: Vec<u8> },
    Fifo { mode: u32, data: Vec<u8> },
}

struct Disk {
    objects: BTreeMap<Vec<u8>, (FileId, Object)>,
    next_ino: u64,
    /// Where another device is mounted.
    mounted: &'static str,
    /// Whether listings leave the types of entries open.
    untyped: bool,
    /// How many bytes the kernel copies at once; none stands for two file systems.
    range: Option<usize>,
    /// What was made, in its order.
    made: Vec<Vec<u8>>,
}

/// The copy of one directory, under way.
struct Worker {
    copy: DirCopy<CPath>,
    from_dir: Vec<u8>,
    to_dir: Vec<u8>,
    listing: Vec<Entry<CPath>>,
    source_file: Vec<u8>,
    target_file: Vec<u8>,
    offset: usize,
}

impl Worker {
    fn new(node: TreeNode<CPath>) -> Worker {
        Worker {
            from_dir: node.from.as_bytes().to_vec(),
            to_dir: node.to.as_bytes().to_vec(),
            copy: copy_dir(node),
            listing: Vec::new(),
            source_file: Vec::new(),
            target_file: Vec::new(),
            offset: 0,
        }
    }
}

fn c(bytes: &[u8]) -> CPath {
    CPath::new(bytes.to_vec()).unwrap()
}

fn below(dir: &[u8], name: &[u8]) -> Vec<u8> {
    let mut path = dir.to_vec();
    path.push(b'/');
    path.extend_from_slice(name);
    path
}

fn failure(code: i32) -> Failure<i32> {
    Failure::from_errno(code, code)
}

impl Disk {
    fn new() -> Disk {
        Disk {
            objects: BTreeMap::new(),
            next_ino: 100,
            mounted: "/other",
            untyped: false,
            range: Some(4),
            made: Vec::new(),
        }
    }

    fn put(&mut self, path: &str, object: Object) -> FileId {
        self.insert(path.as_bytes().to_vec(), object)
    }

    fn insert(&mut self, path: Vec<u8>, object: Object) -> FileId {
        let id = match self.objects.get(&path) {
            Some((id, _)) => *id,
            None => {
                self.next_ino += 1;
                let minor = if path.starts_with(self.mounted.as_bytes()) { 2 } else { 1 };
                FileId::on_device(8, minor, self.next_ino)
            }
        };
        self.objects.insert(path, (id, object));
        id
    }

    fn get(&self, path: &str) -> Option<&Object> {
        self.objects.get(path.as_bytes()).map(|(_, object)| object)
    }

    fn raw_mode(object: &Object) -> u16 {
        let raw = match object {
            Object::Dir { mode } => 0o040000 | mode,
            Object::File { mode, .. } => 0o100000 | mode,
            Object::Link { .. } => 0o120777,
            Object::Fifo { mode, .. } => 0o010000 | mode,
        };
        raw as u16
    }

    fn list(&self, dir: &[u8]) -> Vec<Entry<CPath>> {
        let own = self.objects[dir].0;
        let mut entries = Vec::new();
        for name in [&b"."[..], &b".."[..]] {
            entries.push(Entry { name: c(name), ino: own.ino, file_type: FileType::Directory });
        }
        for (path, (id, object)) in &self.objects {
            if path.len() > dir.len() + 1 && path.starts_with(dir) && path[dir.len()] == b'/' {
                let name = &path[dir.len() + 1..];
                if !name.contains(&b'/') {
                    let file_type = match object {
                        _ if self.untyped => FileType::Unknown,
                        Object::Dir { .. } => FileType::Directory,
                        Object::File { .. } => FileType::RegularFile,
                        Object::Link { .. } => FileType::Symlink,
                        Object::Fifo { .. } => FileType::Fifo,
                    };
                    entries.push(Entry { name: c(name), ino: id.ino, file_type });
                }
            }
        }
        entries
    }

    /// Copies one directory and returns those that it queues.
    fn copy_one(&mut self, node: TreeNode<CPath>) -> Result<Vec<TreeNode<CPath>>, CopyError<i32>> {
        let mut queued = Vec::new();
        let mut worker = Worker::new(node);
        while let Some(next) = self.call(worker, &mut queued)? {
            worker = next;
        }
        Ok(queued)
    }

    /// Makes the next call for a directory, unless it is copied.
    fn call(
        &mut self,
        worker: Worker,
        queued: &mut Vec<TreeNode<CPath>>,
    ) -> Result<Option<Worker>, CopyError<i32>> {
        let Worker {
            copy,
            from_dir,
            to_dir,
            mut listing,
            mut source_file,
            mut target_file,
            mut offset,
        } = worker;
        let request = match copy.request() {
            Some(request) => request,
            None => return Ok(None),
        };
        let reply: Reply<CPath, i32> = match request {
            Request::OpenSourceDir { path, flags } => {
                assert!(flags.directory && flags.no_follow && !flags.write);
                Reply::Unit(match self.objects.get(path.as_bytes()) {
                    Some((_, Object::Dir { .. })) => {
                        listing = self.list(path.as_bytes());
                        listing.reverse();
                        Ok(())
                    }
                    _ => Err(failure(2)),
                })
            }
            Request::StatSourceDir => {
                Reply::Mode(Ok(Disk::raw_mode(&self.objects[&from_dir].1)))
            }
            Request::MakeDir { path, mode } => {
                Reply::Unit(if self.objects.contains_key(path.as_bytes()) {
                    Err(failure(17))
                } else {
                    self.made.push(path.as_bytes().to_vec());
                    self.insert(path.as_bytes().to_vec(), Object::Dir { mode });
                    Ok(())
                })
            }
            Request::OpenTargetDir { path, flags } => {
                assert!(flags.directory && flags.path && !flags.no_follow);
                Reply::Unit(match self.objects.get(path.as_bytes()) {
                    Some((_, Object::Dir { .. })) => Ok(()),
                    _ => Err(failure(20)),
                })
            }
            Request::StatTargetDir => Reply::Id(Ok(self.objects[&to_dir].0)),
            Request::ReadEntry => Reply::Entry(listing.pop().map(Ok)),
            Request::IdentifyEntry { name } => {
                Reply::Id(Ok(self.objects[&below(&from_dir, name.as_bytes())].0))
            }
            Request::StatEntry { name, .. } => Reply::Mode(Ok(Disk::raw_mode(
                &self.objects[&below(&from_dir, name.as_bytes())].1,
            ))),
            Request::Send { node } => {
                queued.push(node);
                Reply::Sent(true)
            }
            Request::ReadLink { name } => {
                match &self.objects[&below(&from_dir, name.as_bytes())].1 {
                    Object::Link { target } => Reply::Link(Ok(c(target))),
                    _ => Reply::Link(Err(failure(22))),
                }
            }
            Request::MakeLink { target, name } => {
                let path = below(&to_dir, name.as_bytes());
                Reply::Unit(if self.objects.contains_key(&path) {
                    Err(failure(17))
                } else {
                    self.made.push(path.clone());
                    self.insert(path, Object::Link { target: target.as_bytes().to_vec() });
                    Ok(())
                })
            }
            Request::OpenSourceFile { name, flags } => {
                let plain = OpenFlags {
                    write: false,
                    create: false,
                    truncate: false,
                    directory: false,
                    no_follow: false,
                    path: false,
                };
                assert_eq!(flags, plain);
                source_file = below(&from_dir, name.as_bytes());
                offset = 0;
                Reply::Unit(Ok(()))
            }
            Request::OpenTargetFile { name, flags, mode } => {
                assert!(flags.write && flags.create && flags.truncate && !flags.directory);
                target_file = below(&to_dir, name.as_bytes());
                self.made.push(target_file.clone());
                self.insert(target_file.clone(), Object::File { mode, data: Vec::new() });
                Reply::Unit(Ok(()))
            }
            Request::CopyRange { len } => match self.range {
                None => Reply::Copied(Err(failure(18))),
                Some(range) => {
                    assert_eq!(len, usize::MAX - offset);
                    let n = self.append(&source_file, &target_file, offset, range);
                    offset += n;
                    Reply::Copied(Ok(n))
                }
            },
            Request::CopyRest => {
                self.append(&source_file, &target_file, offset, usize::MAX);
                Reply::Unit(Ok(()))
            }
        };
        assert!(copy.accepts(&reply));
        let copy = copy.advance(reply)?;
        Ok(Some(Worker { copy, from_dir, to_dir, listing, source_file, target_file, offset }))
    }

    fn append(&mut self, source: &[u8], target: &[u8], offset: usize, range: usize) -> usize {
        let bytes = match &self.objects[source].1 {
            Object::File { data, .. } | Object::Fifo { data, .. } => data[offset..].to_vec(),
            _ => panic!("not a file"),
        };
        let n = bytes.len().min(range);
        match &mut self.objects.get_mut(target).unwrap().1 {
            Object::File { data, .. } => data.extend_from_slice(&bytes[..n]),
            _ => panic!("not a file"),
        }
        n
    }

    /// Copies a tree with several workers, each of which makes one call in its turn.
    fn copy_interleaved(&mut self, from: &str, to: &str, workers: usize) -> usize {
        let mut queue = vec![TreeNode {
            from: c(from.as_bytes()),
            to: c(to.as_bytes()),
            root_to_inode: None,
        }];
        let mut at_work: Vec<Option<Worker>> = (0..workers).map(|_| None).collect();
        let mut at_once = 0;
        while !queue.is_empty() || at_work.iter().any(Option::is_some) {
            for slot in at_work.iter_mut() {
                if slot.is_none() && !queue.is_empty() {
                    *slot = Some(Worker::new(queue.remove(0)));
                }
                if let Some(worker) = slot.take() {
                    *slot = self.call(worker, &mut queue).unwrap();
                }
            }
            at_once = at_once.max(at_work.iter().filter(|slot| slot.is_some()).count());
        }
        at_once
    }

    /// Copies a tree, taking directories from the front or the back of the queue.
    fn copy_tree(&mut self, from: &str, to: &str, front: bool) -> Result<usize, CopyError<i32>> {
        self.copy_trees(&[(from, to)], front)
    }

    /// Copies trees that share a queue.
    fn copy_trees(&mut self, tops: &[(&str, &str)], front: bool) -> Result<usize, CopyError<i32>> {
        let top = |(from, to): &(&str, &str)| TreeNode {
            from: c(from.as_bytes()),
            to: c(to.as_bytes()),
            root_to_inode: None,
        };
        let mut queue: Vec<TreeNode<CPath>> = tops.iter().map(top).collect();
        let mut copied = 0;
        while !queue.is_empty() {
            let node = if front { queue.remove(0) } else { queue.pop().unwrap() };
            queue.extend(self.copy_one(node)?);
            copied += 1;
        }
        Ok(copied)
    }
}

fn sample() -> Disk {
    let mut disk = Disk::new();
    disk.put("/a", Object::Dir { mode: 0o1755 });
    disk.put("/a/file", Object::File { mode: 0o4640, data: b"nine bytes".to_vec() });
    disk.put("/a/empty", Object::File { mode: 0o600, data: Vec::new() });
    disk.put("/a/link", Object::Link { target: b"../elsewhere".to_vec() });
    disk.put("/a/pipe", Object::Fifo { mode: 0o622, data: b"in flight".to_vec() });
    disk.put("/a/b", Object::Dir { mode: 0o700 });
    disk.put("/a/b/file", Object::File { mode: 0o644, data: b"deeper".to_vec() });
    disk.put("/a/b/c", Object::Dir { mode: 0o711 });
    disk.put("/a/d", Object::Dir { mode: 0o755 });
    disk.put("/a/d/...", Object::File { mode: 0o644, data: b"dots".to_vec() });
    disk
}

fn check_copy(disk: &Disk) {
    assert_eq!(disk.get("/t"), Some(&Object::Dir { mode: 0o1755 }));
    assert_eq!(
        disk.get("/t/file"),
        Some(&Object::File { mode: 0o4640, data: b"nine bytes".to_vec() })
    );
    assert_eq!(disk.get("/t/empty"), Some(&Object::File { mode: 0o600, data: Vec::new() }));
    assert_eq!(disk.get("/t/link"), Some(&Object::Link { target: b"../elsewhere".to_vec() }));
    assert_eq!(
        disk.get("/t/pipe"),
        Some(&Object::File { mode: 0o622, data: b"in flight".to_vec() })
    );
    assert_eq!(disk.get("/t/b"), Some(&Object::Dir { mode: 0o700 }));
    assert_eq!(
        disk.get("/t/b/file"),
        Some(&Object::File { mode: 0o644, data: b"deeper".to_vec() })
    );
    assert_eq!(disk.get("/t/b/c"), Some(&Object::Dir { mode: 0o711 }));
    assert_eq!(
        disk.get("/t/d/..."),
        Some(&Object::File { mode: 0o644, data: b"dots".to_vec() })
    );
    assert_eq!(disk.objects.keys().filter(|path| path.starts_with(b"/t")).count(), 10);
}

#[test]
fn a_tree_is_copied_object_by_object() {
    let mut disk = sample();
    assert_eq!(disk.copy_tree("/a", "/t", true).unwrap(), 4);
    check_copy(&disk);
}

#[test]
fn the_order_of_directories_does_not_matter() {
    let mut disk = sample();
    assert_eq!(disk.copy_tree("/a", "/t", false).unwrap(), 4);
    check_copy(&disk);
}

#[test]
fn the_interleaving_of_threads_does_not_matter() {
    for workers in 1..5 {
        let mut disk = sample();
        let at_once = disk.copy_interleaved("/a", "/t", workers);
        assert_eq!(at_once > 1, workers > 1);
        check_copy(&disk);
        assert_eq!(disk.made.len(), 10);
    }
}

#[test]
fn a_failed_copy_has_made_no_more_than_it_came_to() {
    let mut disk = sample();
    disk.put("/t", Object::Dir { mode: 0o755 });
    disk.put("/t/link", Object::Link { target: b"in the way".to_vec() });
    let mut queued = Vec::new();
    let mut worker = Worker::new(TreeNode { from: c(b"/a"), to: c(b"/t"), root_to_inode: None });
    let error = loop {
        match disk.call(worker, &mut queued) {
            Ok(Some(next)) => worker = next,
            Ok(None) => panic!("the link is in the way"),
            Err(error) => break error,
        }
    };
    match error {
        Error::Io { error, .. } => assert_eq!(error, 17),
        other => panic!("{:?}", other),
    }
    assert_eq!(disk.made, vec![b"/t/empty".to_vec(), b"/t/file".to_vec()]);
    let names: Vec<CPath> = queued.into_iter().map(|node| node.to).collect();
    assert_eq!(names, vec![c(b"/t/b"), c(b"/t/d")]);
}

#[test]
fn entries_without_a_type_are_asked_for_it() {
    let mut disk = sample();
    disk.untyped = true;
    disk.copy_tree("/a", "/t", true).unwrap();
    check_copy(&disk);
}

#[test]
fn files_are_copied_between_file_systems() {
    let mut disk = sample();
    disk.range = None;
    disk.copy_tree("/a", "/t", true).unwrap();
    check_copy(&disk);
}

#[test]
fn a_copy_into_itself_ends() {
    let mut disk = Disk::new();
    disk.put("/p", Object::Dir { mode: 0o755 });
    disk.put("/p/x", Object::File { mode: 0o644, data: b"x".to_vec() });
    disk.put("/p/sub", Object::Dir { mode: 0o755 });
    disk.put("/p/sub/y", Object::File { mode: 0o644, data: b"y".to_vec() });
    disk.put("/p/child", Object::Dir { mode: 0o755 });
    assert_eq!(disk.copy_tree("/p", "/p/child", true).unwrap(), 2);
    assert!(disk.get("/p/child/x").is_some());
    assert!(disk.get("/p/child/sub/y").is_some());
    assert!(disk.get("/p/child/child").is_none());
}

#[test]
fn a_file_on_another_device_is_copied_though_it_has_the_number_of_the_top() {
    let objects = [
        Object::File { mode: 0o644, data: b"same number".to_vec() },
        Object::Link { target: b"elsewhere".to_vec() },
        Object::Dir { mode: 0o711 },
    ];
    for untyped in [false, true] {
        for object in &objects {
            let mut disk = Disk::new();
            disk.untyped = untyped;
            disk.put("/p", Object::Dir { mode: 0o755 });
            let same = disk.put("/p/same", object.clone());
            disk.put("/p/z", Object::File { mode: 0o600, data: b"z".to_vec() });
            disk.next_ino = same.ino - 1;
            disk.copy_tree("/p", "/other", true).unwrap();
            let top = disk.objects[&b"/other"[..]].0;
            assert_eq!(top.ino, same.ino);
            assert_ne!(top, same);
            assert_eq!(disk.get("/other/same"), Some(object));
            assert!(disk.get("/other/z").is_some());
        }
    }
}

#[test]
fn existing_directories_and_files_are_taken_over() {
    let mut disk = sample();
    disk.put("/t", Object::Dir { mode: 0o500 });
    disk.put("/t/file", Object::File { mode: 0o600, data: b"older and longer than that".to_vec() });
    disk.copy_tree("/a", "/t", true).unwrap();
    assert_eq!(disk.get("/t"), Some(&Object::Dir { mode: 0o500 }));
    match disk.get("/t/file") {
        Some(Object::File { data, .. }) => assert_eq!(data, b"nine bytes"),
        other => panic!("{:?}", other),
    }
}

#[test]
fn nothing_is_made_twice() {
    let mut disk = sample();
    disk.copy_tree("/a", "/t", false).unwrap();
    let mut paths = disk.made.clone();
    paths.sort();
    paths.dedup();
    assert_eq!(paths.len(), disk.made.len());
    assert_eq!(paths.len(), 10);
}

#[test]
fn trees_can_share_a_queue() {
    let mut disk = sample();
    disk.put("/x", Object::Dir { mode: 0o750 });
    disk.put("/x/y", Object::Dir { mode: 0o750 });
    disk.put("/x/y/z", Object::File { mode: 0o640, data: b"z".to_vec() });
    assert_eq!(disk.copy_trees(&[("/a", "/t"), ("/x", "/u")], true).unwrap(), 6);
    check_copy(&disk);
    assert_eq!(disk.get("/u/y"), Some(&Object::Dir { mode: 0o750 }));
    assert_eq!(
        disk.get("/u/y/z"),
        Some(&Object::File { mode: 0o640, data: b"z".to_vec() })
    );
}

#[test]
fn the_copy_stops_at_the_first_failure() {
    let mut disk = sample();
    disk.put("/t", Object::File { mode: 0o600, data: Vec::new() });
    assert!(disk.copy_tree("/a", "/t", true).is_err());
    assert!(disk.made.is_empty());
    assert!(disk.copy_tree("/missing", "/v", true).is_err());
    assert_eq!(disk.get("/v"), None);
}

#[test]
fn directories_can_be_handed_over_in_any_order() {
    let copied = |tops: &[(&str, &str)], front: bool| {
        let mut disk = sample();
        disk.put("/x", Object::Dir { mode: 0o750 });
        disk.put("/x/y", Object::Dir { mode: 0o710 });
        disk.put("/x/y/z", Object::File { mode: 0o640, data: b"z".to_vec() });
        assert_eq!(disk.copy_trees(tops, front).unwrap(), 6);
        check_copy(&disk);
        disk.made.sort();
        let left: Vec<(Vec<u8>, Object)> =
            disk.objects.into_iter().map(|(path, (_, object))| (path, object)).collect();
        (disk.made, left)
    };
    let first = copied(&[("/a", "/t"), ("/x", "/u")], true);
    assert_eq!(first.0.len(), 13);
    assert_eq!(copied(&[("/x", "/u"), ("/a", "/t")], true), first);
    assert_eq!(copied(&[("/x", "/u"), ("/a", "/t")], false), first);
}

#[test]
fn a_worker_that_fails_among_others_adds_nothing_else() {
    let mut whole = sample();
    whole.copy_interleaved("/a", "/t", 3);
    let mut disk = sample();
    disk.put("/t", Object::Dir { mode: 0o755 });
    disk.put("/t/d", Object::File { mode: 0o600, data: b"in the way".to_vec() });
    let mut queue = vec![TreeNode { from: c(b"/a"), to: c(b"/t"), root_to_inode: None }];
    let mut at_work: Vec<Option<Worker>> = (0..3).map(|_| None).collect();
    let mut failed = Vec::new();
    while !queue.is_empty() || at_work.iter().any(Option::is_some) {
        for slot in at_work.iter_mut() {
            if slot.is_none() && !queue.is_empty() {
                *slot = Some(Worker::new(queue.remove(0)));
            }
            if let Some(worker) = slot.take() {
                match disk.call(worker, &mut queue) {
                    Ok(next) => *slot = next,
                    Err(error) => failed.push(error),
                }
            }
        }
    }
    assert_eq!(failed.len(), 1);
    assert!(matches!(failed[0], Error::Io { error: 20, .. }));
    assert_eq!(disk.made.len(), 7);
    for path in &disk.made {
        assert!(whole.made.contains(path));
    }
    assert!(disk.get("/t/b/c").is_some());
    assert!(disk.get("/t/d/...").is_none());
}
