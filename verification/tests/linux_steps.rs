use fuc_engine::c_path::CPath;
use fuc_engine::error::{Attempt, Context, CopyError, Error, Failure, FailureKind, Subject};
use fuc_engine::file_id::FileId;
use fuc_engine::file_type::FileType;
use fuc_engine::linux::dir::{copy_dir, DirCopy, Phase};
use fuc_engine::linux::file::Step;
use fuc_engine::linux::node::{Entry, Reply, Request, TreeNode};

type R = Reply<CPath, &'static str>;

fn c(text: &str) -> CPath {
    CPath::new(text.as_bytes().to_vec()).unwrap()
}

/// A file on the device of the top of the copy.
fn id(ino: u64) -> FileId {
    FileId { dev: 3, ino }
}

fn node(root_to_inode: Option<FileId>) -> TreeNode<CPath> {
    TreeNode { from: c("src"), to: c("dst"), root_to_inode }
}

fn at(phase: Phase<CPath>) -> DirCopy<CPath> {
    DirCopy { node: node(Some(id(7))), phase }
}

fn copying(step: Step<CPath>) -> DirCopy<CPath> {
    at(Phase::Copying { root: id(7), name: c("n"), step })
}

fn fail(kind: FailureKind) -> Failure<&'static str> {
    Failure { kind, error: "os" }
}

fn other() -> Failure<&'static str> {
    fail(FailureKind::Other)
}

fn io(attempt: Attempt, subject: Subject<std::path::PathBuf, CPath>) -> CopyError<&'static str> {
    Error::Io { error: "os", context: Context { attempt, subject } }
}

fn dir(path: &str) -> Subject<std::path::PathBuf, CPath> {
    Subject::Directory(c(path))
}

fn entry(path: &str) -> Subject<std::path::PathBuf, CPath> {
    Subject::Entry { dir: c(path), name: c("n") }
}

fn listed(name: &str, ino: u64, file_type: FileType) -> R {
    Reply::Entry(Some(Ok(Entry { name: c(name), ino, file_type })))
}

#[test]
fn the_mode_of_the_source_is_kept_to_twelve_bits() {
    let copy = at(Phase::StattingSource).advance::<&str>(R::Mode(Ok(0o041755))).unwrap();
    assert_eq!(copy.phase, Phase::MakingTarget { mode: 0o1755 });
    assert_eq!(copy.request(), Some(Request::MakeDir { path: c("dst"), mode: 0o1755 }));
    let copy = copying(Step::StattingFrom { regular: true })
        .advance::<&str>(R::Mode(Ok(0o177777)))
        .unwrap();
    match copy.request() {
        Some(Request::OpenTargetFile { mode, .. }) => assert_eq!(mode, 0o7777),
        other => panic!("{:?}", other),
    }
}

#[test]
fn the_inode_is_read_only_at_the_top() {
    let top = DirCopy { node: node(None), phase: Phase::OpeningTarget };
    let top = top.advance::<&str>(R::Unit(Ok(()))).unwrap();
    assert_eq!(top.request(), Some(Request::StatTargetDir));
    let top = top.advance::<&str>(R::Id(Ok(id(9)))).unwrap();
    assert_eq!(top.phase, Phase::Reading { root: id(9) });
    let below = at(Phase::OpeningTarget).advance::<&str>(R::Unit(Ok(()))).unwrap();
    assert_eq!(below.phase, Phase::Reading { root: id(7) });
}

#[test]
fn dots_and_the_top_of_the_copy_are_passed_over() {
    for (name, ino) in [(".", 1), ("..", 2), (".", 7)] {
        let copy = at(Phase::Reading { root: id(7) })
            .advance(listed(name, ino, FileType::Directory))
            .unwrap();
        assert_eq!(copy.phase, Phase::Reading { root: id(7) });
    }
    let copy = at(Phase::Reading { root: id(7) })
        .advance(listed("again", 7, FileType::Directory))
        .unwrap();
    assert_eq!(copy.request(), Some(Request::IdentifyEntry { name: c("again") }));
    let copy = copy.advance::<&str>(R::Id(Ok(id(7)))).unwrap();
    assert_eq!(copy.phase, Phase::Reading { root: id(7) });
    let copy = at(Phase::Reading { root: id(7) })
        .advance(listed("...", 3, FileType::Directory))
        .unwrap();
    assert_eq!(
        copy.phase,
        Phase::Copying { root: id(7), name: c("..."), step: Step::Sending }
    );
}

#[test]
fn the_number_of_the_top_on_another_device_is_not_passed_over() {
    for (file_type, step) in [
        (FileType::RegularFile, Step::OpeningFrom { regular: true }),
        (FileType::Symlink, Step::ReadingLink),
        (FileType::Directory, Step::Sending),
        (FileType::Unknown, Step::Typing),
    ] {
        let copy =
            at(Phase::Reading { root: id(7) }).advance(listed("f", 7, file_type)).unwrap();
        assert!(!copy.accepts::<&str>(&R::Mode(Ok(0))));
        let elsewhere = FileId { dev: 4, ino: 7 };
        let copy = copy.advance::<&str>(R::Id(Ok(elsewhere))).unwrap();
        assert_eq!(copy.phase, Phase::Copying { root: id(7), name: c("f"), step });
    }
}

#[test]
fn what_has_the_number_of_the_top_and_cannot_be_looked_up_is_passed_over() {
    for file_type in [FileType::RegularFile, FileType::Directory, FileType::Unknown] {
        let copy =
            at(Phase::Reading { root: id(7) }).advance(listed("f", 7, file_type)).unwrap();
        for kind in [FailureKind::NotFound, FailureKind::AlreadyExists, FailureKind::Other] {
            let failed = R::Id(Err(fail(kind)));
            assert!(copy.accepts(&failed));
        }
        let copy = copy.advance(R::Id(Err(other()))).unwrap();
        assert_eq!(copy.phase, Phase::Reading { root: id(7) });
    }
}

#[test]
fn every_type_has_its_first_step() {
    let first = |file_type| match at(Phase::Reading { root: id(7) })
        .advance(listed("n", 3, file_type))
        .unwrap()
        .phase
    {
        Phase::Copying { step, .. } => step,
        other => panic!("{:?}", other),
    };
    assert_eq!(first(FileType::Directory), Step::Sending);
    assert_eq!(first(FileType::Symlink), Step::ReadingLink);
    assert_eq!(first(FileType::RegularFile), Step::OpeningFrom { regular: true });
    for special in [
        FileType::Fifo,
        FileType::Socket,
        FileType::CharacterDevice,
        FileType::BlockDevice,
    ] {
        assert_eq!(first(special), Step::OpeningFrom { regular: false });
    }
    assert_eq!(first(FileType::Unknown), Step::Typing);
}

#[test]
fn raw_modes_tell_the_type() {
    let typed = |raw| match copying(Step::Typing).advance::<&str>(R::Mode(Ok(raw))).unwrap().phase {
        Phase::Copying { step, .. } => step,
        other => panic!("{:?}", other),
    };
    assert_eq!(typed(0o100644), Step::OpeningFrom { regular: true });
    assert_eq!(typed(0o040755), Step::Sending);
    assert_eq!(typed(0o120777), Step::ReadingLink);
    for raw in [0o010644, 0o140644, 0o020644, 0o060644, 0o000644, 0o170644] {
        assert_eq!(typed(raw), Step::OpeningFrom { regular: false });
    }
    assert_eq!(
        copying(Step::Typing).request(),
        Some(Request::StatEntry { name: c("n"), follow: false })
    );
}

#[test]
fn directories_are_queued_under_their_paths() {
    assert_eq!(
        copying(Step::Sending).request(),
        Some(Request::Send {
            node: TreeNode { from: c("src/n"), to: c("dst/n"), root_to_inode: Some(id(7)) }
        })
    );
    let copy = copying(Step::Sending).advance::<&str>(R::Sent(true)).unwrap();
    assert_eq!(copy.phase, Phase::Reading { root: id(7) });
    assert_eq!(copying(Step::Sending).advance::<&str>(R::Sent(false)), Err(Error::Internal));
}

#[test]
fn links_are_made_with_the_target_they_had() {
    let copy = copying(Step::ReadingLink).advance::<&str>(R::Link(Ok(c("../x")))).unwrap();
    assert_eq!(
        copy.request(),
        Some(Request::MakeLink { target: c("../x"), name: c("n") })
    );
    let copy = copy.advance::<&str>(R::Unit(Ok(()))).unwrap();
    assert_eq!(copy.phase, Phase::Reading { root: id(7) });
}

#[test]
fn bytes_are_counted_until_none_is_copied() {
    let copy = copying(Step::OpeningTo { regular: true, mode: 0 })
        .advance::<&str>(R::Unit(Ok(())))
        .unwrap();
    assert_eq!(copy.request(), Some(Request::CopyRange { len: usize::MAX }));
    let copy = copy.advance::<&str>(R::Copied(Ok(10))).unwrap();
    assert_eq!(copy.request(), Some(Request::CopyRange { len: usize::MAX - 10 }));
    let copy = copy.advance::<&str>(R::Copied(Ok(5))).unwrap();
    assert_eq!(copy.request(), Some(Request::CopyRange { len: usize::MAX - 15 }));
    assert!(copy.accepts::<&str>(&R::Copied(Ok(usize::MAX - 15))));
    assert!(!copy.accepts::<&str>(&R::Copied(Ok(usize::MAX - 14))));
    let copy = copy.advance::<&str>(R::Copied(Ok(0))).unwrap();
    assert_eq!(copy.phase, Phase::Reading { root: id(7) });
}

#[test]
fn another_file_system_is_no_failure_before_the_first_byte() {
    let copy = copying(Step::Ranging { total: 0 })
        .advance(R::Copied(Err(fail(FailureKind::CrossDevice))))
        .unwrap();
    assert_eq!(copy.request(), Some(Request::CopyRest));
    assert_eq!(
        copying(Step::Ranging { total: 1 }).advance(R::Copied(Err(fail(FailureKind::CrossDevice)))),
        Err(io(Attempt::CopyFile, entry("src")))
    );
    assert_eq!(
        copying(Step::Ranging { total: 0 }).advance(R::Copied(Err(other()))),
        Err(io(Attempt::CopyFile, entry("src")))
    );
}

#[test]
fn special_files_are_copied_through_a_buffer() {
    let copy = copying(Step::OpeningTo { regular: false, mode: 0 })
        .advance::<&str>(R::Unit(Ok(())))
        .unwrap();
    assert_eq!(copy.request(), Some(Request::CopyRest));
}

#[test]
fn a_directory_that_is_there_is_taken_over() {
    let copy = at(Phase::MakingTarget { mode: 0 })
        .advance(R::Unit(Err(fail(FailureKind::AlreadyExists))))
        .unwrap();
    assert_eq!(copy.phase, Phase::OpeningTarget);
    assert_eq!(
        copying(Step::Linking { target: c("t") })
            .advance(R::Unit(Err(fail(FailureKind::AlreadyExists)))),
        Err(io(Attempt::CreateSymlink, entry("dst")))
    );
}

#[test]
fn every_failure_says_what_was_attempted() {
    let unit = || R::Unit(Err(other()));
    let mode = || R::Mode(Err(other()));
    let cases: Vec<(DirCopy<CPath>, R, Attempt, Subject<std::path::PathBuf, CPath>)> = vec![
        (copy_dir(node(None)), unit(), Attempt::OpenDirectory, dir("src")),
        (at(Phase::StattingSource), mode(), Attempt::StatDirectory, dir("src")),
        (at(Phase::MakingTarget { mode: 0 }), unit(), Attempt::CreateDirectory, dir("dst")),
        (at(Phase::OpeningTarget), unit(), Attempt::OpenDirectory, dir("dst")),
        (at(Phase::StattingTarget), R::Id(Err(other())), Attempt::StatDirectory, dir("dst")),
        (
            at(Phase::Reading { root: id(7) }),
            R::Entry(Some(Err(other()))),
            Attempt::ReadDirectory,
            dir("src"),
        ),
        (copying(Step::Typing), mode(), Attempt::StatFile, entry("src")),
        (copying(Step::ReadingLink), R::Link(Err(other())), Attempt::ReadSymlink, entry("src")),
        (copying(Step::Linking { target: c("t") }), unit(), Attempt::CreateSymlink, entry("dst")),
        (copying(Step::OpeningFrom { regular: true }), unit(), Attempt::OpenFile, entry("src")),
        (copying(Step::StattingFrom { regular: true }), mode(), Attempt::StatFile, entry("src")),
        (
            copying(Step::OpeningTo { regular: true, mode: 0 }),
            unit(),
            Attempt::OpenFile,
            entry("dst"),
        ),
        (copying(Step::Streaming), unit(), Attempt::CopyFile, entry("src")),
    ];
    for (copy, reply, attempt, subject) in cases {
        assert!(copy.accepts(&reply));
        assert_eq!(copy.advance(reply), Err(io(attempt, subject)));
    }
}

#[test]
fn answers_to_other_calls_are_not_accepted() {
    let start = copy_dir(node(None));
    assert!(start.accepts::<&str>(&R::Unit(Ok(()))));
    assert!(!start.accepts::<&str>(&R::Id(Ok(id(1)))));
    assert!(!at(Phase::Finished { root: id(7) }).accepts::<&str>(&R::Unit(Ok(()))));
    assert_eq!(at(Phase::Finished { root: id(7) }).request(), None);
    let done = at(Phase::Reading { root: id(7) }).advance::<&str>(R::Entry(None)).unwrap();
    assert_eq!(done.phase, Phase::Finished { root: id(7) });
}
