use fuc_engine::c_path::CPath;
use fuc_engine::error::{CopyError, Failure, FailureKind};
use fuc_engine::op::{CopyOp, CopyRun, RunReply, RunRequest};
use fuc_engine::platform::Platform;
use fuc_engine::schedule::{Reply, Request, SourceKind};
use std::collections::BTreeMap;
use std::path::PathBuf;

/// An object of a file system that is kept in memory.
#[derive(Clone, Debug, PartialEq)]
enum Object {
    Dir,
    File(&'static str),
    Link(&'static str),
}

/// A file system: objects by their paths.
type Disk = BTreeMap<PathBuf, Object>;
type Outcome = Result<(), CopyError<&'static str>>;

fn p(text: &str) -> PathBuf {
    PathBuf::from(text)
}

fn disk() -> Disk {
    [
        ("s", Object::Dir),
        ("s/file", Object::File("bytes")),
        ("s/link", Object::Link("target")),
        ("d", Object::Dir),
        ("d/in", Object::File("deep")),
    ]
    .into_iter()
    .map(|(path, object)| (p(path), object))
    .collect()
}

fn fail<T>(kind: FailureKind) -> Result<T, Failure<&'static str>> {
    Err(Failure { kind, error: "os" })
}

/// Makes a call.
fn perform(disk: &mut Disk, request: Request<PathBuf>) -> Reply<PathBuf, CPath, &'static str> {
    match request {
        Request::Check { path } => Reply::Unit(match disk.get(&path) {
            Some(_) => Ok(()),
            None => fail(FailureKind::NotFound),
        }),
        Request::Inspect { path } => Reply::Kind(match disk.get(&path) {
            Some(Object::Dir) => Ok(SourceKind::Directory),
            Some(Object::Link(_)) => Ok(SourceKind::Symlink),
            Some(Object::File(_)) => Ok(SourceKind::Other),
            None => fail(FailureKind::NotFound),
        }),
        Request::CreateDirAll { path } => {
            for dir in path.ancestors().filter(|dir| !dir.as_os_str().is_empty()) {
                disk.entry(dir.to_path_buf()).or_insert(Object::Dir);
            }
            Reply::Unit(Ok(()))
        }
        Request::HandOver { from, to } => {
            for (path, object) in disk.clone() {
                if let Ok(rest) = path.strip_prefix(&from) {
                    disk.insert(to.join(rest), object);
                }
            }
            Reply::HandedOver(Ok(()))
        }
        Request::ReadLink { path } => Reply::Link(match disk.get(&path) {
            Some(Object::Link(target)) => Ok(p(target)),
            _ => fail(FailureKind::Other),
        }),
        Request::MakeLink { target, path } => {
            assert_eq!(target, p("target"));
            Reply::Unit(if disk.contains_key(&path) {
                fail(FailureKind::AlreadyExists)
            } else {
                disk.insert(path, Object::Link("target"));
                Ok(())
            })
        }
        Request::CopyFile { from, to } => Reply::Unit(match disk.get(&from).cloned() {
            Some(Object::File(bytes)) => {
                disk.insert(to, Object::File(bytes));
                Ok(())
            }
            _ => fail(FailureKind::Other),
        }),
    }
}

/// Runs an operation, and returns the calls that it asked for.
fn copy(
    disk: &mut Disk,
    files: &[(&str, &str)],
    force: bool,
) -> (Vec<Request<PathBuf>>, Outcome) {
    let files = files.iter().map(|(from, to)| (p(from), p(to))).collect();
    let op = CopyOp::builder().files(files).force(force).build();
    let mut run: CopyRun<&'static str> = op.run(Platform::Unix);
    let mut asked = Vec::new();
    while let Some(request) = run.request() {
        let reply = match request {
            RunRequest::File(request) => {
                asked.push(match &request {
                    Request::Check { path } => Request::Check { path: path.clone() },
                    Request::Inspect { path } => Request::Inspect { path: path.clone() },
                    Request::CreateDirAll { path } => Request::CreateDirAll { path: path.clone() },
                    Request::HandOver { from, to } => {
                        Request::HandOver { from: from.clone(), to: to.clone() }
                    }
                    Request::ReadLink { path } => Request::ReadLink { path: path.clone() },
                    Request::MakeLink { target, path } => {
                        Request::MakeLink { target: target.clone(), path: path.clone() }
                    }
                    Request::CopyFile { from, to } => {
                        Request::CopyFile { from: from.clone(), to: to.clone() }
                    }
                });
                RunReply::File(perform(disk, request))
            }
            RunRequest::Finish => RunReply::Finished(Ok(())),
        };
        assert!(run.accepts(&reply));
        run = run.advance(reply);
    }
    (asked, run.outcome().unwrap())
}

#[test]
fn the_order_of_files_that_are_apart_does_not_show() {
    let files = [("s/file", "t/u/file"), ("s/link", "t/u/link"), ("d", "t/d")];
    let mut first = disk();
    assert_eq!(copy(&mut first, &files, false).1, Ok(()));
    assert_eq!(first[&p("t/u/file")], Object::File("bytes"));
    assert_eq!(first[&p("t/u/link")], Object::Link("target"));
    assert_eq!(first[&p("t/d/in")], Object::File("deep"));
    assert_eq!(first.len(), 11);
    for order in [[0, 2, 1], [1, 0, 2], [1, 2, 0], [2, 0, 1], [2, 1, 0]] {
        let mut other = disk();
        let moved = order.map(|i| files[i]);
        assert_eq!(copy(&mut other, &moved, false).1, Ok(()));
        assert_eq!(other, first);
    }
}

#[test]
fn the_order_of_files_that_are_not_apart_can_show() {
    let mut one = disk();
    assert_eq!(copy(&mut one, &[("s/file", "x"), ("x", "y")], false).1, Ok(()));
    let mut other = disk();
    assert!(copy(&mut other, &[("x", "y"), ("s/file", "x")], false).1.is_err());
}

#[test]
fn two_lists_are_run_one_after_the_other() {
    let one = [("s/file", "t/a"), ("s/link", "t/b")];
    let two = [("d", "u"), ("s/file", "v")];
    let mut apart = disk();
    let mut asked = copy(&mut apart, &one, false).0;
    asked.extend(copy(&mut apart, &two, false).0);
    let mut together = disk();
    let all = [one[0], one[1], two[0], two[1]];
    let (calls, outcome) = copy(&mut together, &all, false);
    assert_eq!(outcome, Ok(()));
    assert_eq!(calls, asked);
    assert_eq!(together, apart);
}

#[test]
fn force_only_leaves_out_the_checks() {
    let files = [("s/file", "t/a"), ("s/link", "t/b"), ("d", "u")];
    let mut checked = disk();
    let (mut asked, outcome) = copy(&mut checked, &files, false);
    assert_eq!(outcome, Ok(()));
    let mut forced = disk();
    let (calls, outcome) = copy(&mut forced, &files, true);
    assert_eq!(outcome, Ok(()));
    asked.retain(|request| !matches!(request, Request::Check { .. }));
    assert_eq!(calls, asked);
    assert_eq!(forced, checked);
}
