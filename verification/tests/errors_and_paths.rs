use fuc_engine::c_path::{concat_cstrs, CPath};
use fuc_engine::error::{Attempt, Context, CopyError, Error, Failure, FailureKind, Subject};
use fuc_engine::file_id::FileId;
use fuc_engine::linux::backend::{copy_impl, path_buf_to_cstring, Impl};
use fuc_engine::linux::node::TreeNode;
use fuc_engine::linux::pool::Joined;
use std::path::PathBuf;

fn c(text: &str) -> CPath {
    CPath::new(text.as_bytes().to_vec()).unwrap()
}

#[test]
fn error_numbers_tell_the_kind() {
    assert_eq!(Failure::from_errno(17, "e").kind, FailureKind::AlreadyExists);
    assert_eq!(Failure::from_errno(18, "e").kind, FailureKind::CrossDevice);
    assert_eq!(Failure::from_errno(2, "e").kind, FailureKind::NotFound);
    for code in [1, 3, 16, 19, 4095, 0, 4096, -17, i32::MAX, i32::MIN] {
        let failure = Failure::from_errno(code, code);
        assert_eq!(failure.kind, FailureKind::Other);
        assert_eq!(failure.error, code);
    }
}

#[test]
fn messages_name_the_attempt_and_the_subject() {
    let on = |attempt| Context::<PathBuf, CPath> { attempt, subject: Subject::Directory(c("d")) };
    let cases = [
        (Attempt::ReadMetadata, "Failed to read metadata for file: \"d\""),
        (Attempt::CreateParent, "Failed to create parent directory: \"d\""),
        (Attempt::ReadSymlink, "Failed to read symlink: \"d\""),
        (Attempt::CreateSymlink, "Failed to create symlink: \"d\""),
        (Attempt::CopyFile, "Failed to copy file: \"d\""),
        (Attempt::CopyDirectory, "Failed to copy directory: \"d\""),
        (Attempt::OpenDirectory, "Failed to open directory: \"d\""),
        (Attempt::ReadDirectory, "Failed to read directory: \"d\""),
        (Attempt::StatDirectory, "Failed to stat directory: \"d\""),
        (Attempt::CreateDirectory, "Failed to create directory: \"d\""),
        (Attempt::OpenFile, "Failed to open file: \"d\""),
        (Attempt::StatFile, "Failed to stat file: \"d\""),
    ];
    for (attempt, message) in cases {
        assert_eq!(on(attempt).message("\"d\""), message);
    }
    let unshare = Context::<PathBuf, CPath> {
        attempt: Attempt::UnshareDescriptors,
        subject: Subject::Nothing,
    };
    assert_eq!(unshare.message("ignored"), "Failed to unshare FD table.");
}

#[test]
fn paths_with_a_zero_byte_are_refused() {
    assert!(CPath::new(vec![]).is_some());
    assert!(CPath::new(vec![0]).is_none());
    assert!(CPath::new(b"a\0b".to_vec()).is_none());
    assert_eq!(CPath::new(vec![255, 1]).unwrap().as_bytes(), &[255, 1]);
}

#[test]
fn names_are_put_behind_a_separator() {
    assert_eq!(concat_cstrs(&c("a/b"), &c("c")), c("a/b/c"));
    assert_eq!(concat_cstrs(&c("/"), &c("c")), c("//c"));
    assert!(c(".").is_dot() && c("..").is_dot());
    for name in ["", "a", ".a", "a.", "..."] {
        assert!(!c(name).is_dot());
    }
}

#[test]
fn messages_show_joined_paths() {
    for (dir, name, path) in [
        ("a", "b", "a/b"),
        ("a/", "b", "a/b"),
        ("", "b", "b"),
        ("a", "", "a/"),
        ("a", "/b", "/b"),
        ("/", "b", "/b"),
    ] {
        assert_eq!(c(dir).join(&c(name)), c(path));
        assert_eq!(PathBuf::from(dir).join(name).into_os_string(), path);
    }
}

#[test]
fn devices_tell_files_apart() {
    assert_eq!(FileId::on_device(0, 5, 9), FileId { dev: 5, ino: 9 });
    assert_eq!(FileId::on_device(2, 1, 9), FileId { dev: 0x2_0000_0001, ino: 9 });
    assert_eq!(FileId::on_device(u32::MAX, u32::MAX, 0), FileId { dev: u64::MAX, ino: 0 });
}

#[test]
fn path_bytes_are_those_of_the_path() {
    let path: Result<CPath, CopyError<()>> = path_buf_to_cstring(PathBuf::from("/tmp/ü"));
    assert_eq!(path.unwrap().as_bytes(), "/tmp/ü".as_bytes());
    let bad: Result<CPath, CopyError<()>> = path_buf_to_cstring(PathBuf::from("a\0"));
    assert_eq!(bad, Err(Error::BadPath { path: PathBuf::from("a\0") }));
}

#[test]
fn the_worker_is_started_with_the_first_directory() {
    let mut worker = copy_impl();
    assert!(!worker.must_join());
    let first = worker.run::<()>(PathBuf::from("a\0"), PathBuf::from("b\0"));
    assert!(first.start);
    assert_eq!(first.node, Err(Error::BadPath { path: PathBuf::from("a\0") }));
    assert!(worker.must_join());
    let second = worker.run::<()>(PathBuf::from("a"), PathBuf::from("b\0"));
    assert!(!second.start);
    assert_eq!(second.node, Err(Error::BadPath { path: PathBuf::from("b\0") }));
    let third = worker.run::<()>(PathBuf::from("a"), PathBuf::from("b"));
    assert_eq!(third.node, Ok(TreeNode { from: c("a"), to: c("b"), root_to_inode: None }));
    assert_eq!(Impl::sent::<()>(true), Ok(()));
    assert_eq!(Impl::sent::<()>(false), Err(Error::Internal));
}

#[test]
fn the_worker_ends_as_its_thread_does() {
    assert_eq!(copy_impl().finish::<()>(None), Ok(()));
    let started = Impl { started: true };
    assert_eq!(started.finish::<()>(Some(Joined::Panicked)), Err(Error::Join));
    assert_eq!(started.finish::<()>(Some(Joined::Returned(Ok(())))), Ok(()));
    assert_eq!(
        started.finish::<()>(Some(Joined::Returned(Err(Error::Internal)))),
        Err(Error::Internal)
    );
}
