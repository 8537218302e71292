use fuc_engine::c_path::CPath;
use fuc_engine::error::{Attempt, Context, CopyError, Error, Failure, FailureKind, Subject};
use fuc_engine::op::{copy_file, CopyOp, CopyRun, RunReply, RunRequest};
use fuc_engine::platform::Platform;
use fuc_engine::schedule::{inspected, transfer, Phase, Reply, Request, SourceKind};
use std::path::PathBuf;

type Run = CopyRun<&'static str>;
type Answer = Reply<PathBuf, CPath, &'static str>;

fn p(text: &str) -> PathBuf {
    PathBuf::from(text)
}

fn missing() -> Answer {
    Reply::Unit(Err(Failure { kind: FailureKind::NotFound, error: "missing" }))
}

fn denied() -> Failure<&'static str> {
    Failure { kind: FailureKind::Other, error: "denied" }
}

fn done() -> Answer {
    Reply::Unit(Ok(()))
}

fn kind(kind: SourceKind) -> Answer {
    Reply::Kind(Ok(kind))
}

fn io(attempt: Attempt, path: &str) -> CopyError<&'static str> {
    Error::Io { error: "denied", context: Context { attempt, subject: Subject::Named(p(path)) } }
}

/// Checks that each call is asked for in turn, and gives its answer.
fn play(mut run: Run, script: Vec<(Request<PathBuf>, Answer)>) -> Run {
    for (request, answer) in script {
        assert_eq!(run.request(), Some(RunRequest::File(request)));
        let answer = RunReply::File(answer);
        assert!(run.accepts(&answer));
        run = run.advance(answer);
    }
    run
}

/// Ends a run, the directories that were handed over having ended like this.
fn end(
    run: Run,
    finish: Result<(), CopyError<&'static str>>,
) -> Result<(), CopyError<&'static str>> {
    assert_eq!(run.request(), Some(RunRequest::Finish));
    let run = run.advance(RunReply::Finished(finish));
    assert_eq!(run.request(), None);
    run.outcome().unwrap()
}

fn op(files: &[(&str, &str)], force: bool) -> CopyOp {
    let files = files.iter().map(|(from, to)| (p(from), p(to))).collect();
    CopyOp::builder().files(files).force(force).build()
}

fn check(path: &str) -> Request<PathBuf> {
    Request::Check { path: p(path) }
}

fn inspect(path: &str) -> Request<PathBuf> {
    Request::Inspect { path: p(path) }
}

fn create(path: &str) -> Request<PathBuf> {
    Request::CreateDirAll { path: p(path) }
}

#[test]
fn a_file_is_copied() {
    let run = play(
        copy_file(p("a"), p("x/b"), Platform::Linux),
        vec![
            (check("x/b"), missing()),
            (inspect("a"), kind(SourceKind::Other)),
            (create("x"), done()),
            (Request::CopyFile { from: p("a"), to: p("x/b") }, done()),
        ],
    );
    assert_eq!(end(run, Ok(())), Ok(()));
}

#[test]
fn an_existing_destination_is_refused() {
    let run = play(copy_file(p("a"), p("b"), Platform::Linux), vec![(check("b"), done())]);
    assert_eq!(end(run, Ok(())), Err(Error::AlreadyExists { file: p("b") }));
}

#[test]
fn a_destination_that_cannot_be_looked_at_is_an_error() {
    let run = play(
        copy_file(p("a"), p("b"), Platform::Linux),
        vec![(check("b"), Reply::Unit(Err(denied())))],
    );
    assert_eq!(end(run, Ok(())), Err(io(Attempt::ReadMetadata, "b")));
}

#[test]
fn force_does_not_look_at_the_destination() {
    let run = play(
        op(&[("a", "b")], true).run(Platform::Linux),
        vec![
            (inspect("a"), kind(SourceKind::Other)),
            (create(""), done()),
            (Request::CopyFile { from: p("a"), to: p("b") }, done()),
        ],
    );
    assert_eq!(end(run, Ok(())), Ok(()));
}

#[test]
fn files_are_copied_in_turn_until_one_fails() {
    let run = play(
        op(&[("a", "/"), ("l", "/m"), ("d", "/e"), ("z", "/z")], false).run(Platform::Linux),
        vec![
            (check("/"), missing()),
            (inspect("a"), kind(SourceKind::Other)),
            (Request::CopyFile { from: p("a"), to: p("/") }, done()),
            (check("/m"), missing()),
            (inspect("l"), kind(SourceKind::Symlink)),
            (create("/"), done()),
            (Request::ReadLink { path: p("l") }, Reply::Link(Ok(p("target")))),
            (Request::MakeLink { target: p("target"), path: p("/m") }, done()),
            (check("/e"), missing()),
            (inspect("d"), kind(SourceKind::Directory)),
            (create("/"), done()),
            (Request::HandOver { from: p("d"), to: p("/e") }, Reply::HandedOver(Ok(()))),
            (check("/z"), done()),
        ],
    );
    assert_eq!(end(run, Ok(())), Err(Error::AlreadyExists { file: p("/z") }));
}

#[test]
fn no_path_is_taken_twice() {
    let run = play(
        op(&[("a", "/t"), ("b", "/t")], false).run(Platform::Linux),
        vec![
            (check("/t"), missing()),
            (inspect("a"), kind(SourceKind::Other)),
            (create("/"), done()),
            (Request::CopyFile { from: p("a"), to: p("/t") }, done()),
            (check("/t"), done()),
        ],
    );
    assert_eq!(end(run, Ok(())), Err(Error::AlreadyExists { file: p("/t") }));
}

#[test]
fn no_files_are_no_work() {
    let run: Run = op(&[], false).run(Platform::Linux);
    assert_eq!(end(run, Ok(())), Ok(()));
}

#[test]
fn the_error_of_handed_over_directories_comes_first() {
    let refused = || play(copy_file(p("a"), p("b"), Platform::Linux), vec![(check("b"), done())]);
    assert_eq!(end(refused(), Err(Error::Join)), Err(Error::Join));
    let copied = play(
        op(&[("a", "/")], true).run(Platform::Linux),
        vec![
            (inspect("a"), kind(SourceKind::Other)),
            (Request::CopyFile { from: p("a"), to: p("/") }, done()),
        ],
    );
    assert_eq!(end(copied, Err(Error::Internal)), Err(Error::Internal));
}

#[test]
fn every_failing_call_says_what_was_attempted() {
    let begin = || op(&[("a", "x/b")], true).run::<&'static str>(Platform::Linux);
    let up_to = |seen: SourceKind| {
        play(begin(), vec![(inspect("a"), kind(seen)), (create("x"), done())])
    };
    let run = play(begin(), vec![(inspect("a"), Reply::Kind(Err(denied())))]);
    assert_eq!(end(run, Ok(())), Err(io(Attempt::ReadMetadata, "a")));
    let run = play(
        begin(),
        vec![
            (inspect("a"), kind(SourceKind::Other)),
            (create("x"), Reply::Unit(Err(denied()))),
        ],
    );
    assert_eq!(end(run, Ok(())), Err(io(Attempt::CreateParent, "x")));
    let run = play(
        up_to(SourceKind::Symlink),
        vec![(Request::ReadLink { path: p("a") }, Reply::Link(Err(denied())))],
    );
    assert_eq!(end(run, Ok(())), Err(io(Attempt::ReadSymlink, "a")));
    let run = play(
        up_to(SourceKind::Symlink),
        vec![
            (Request::ReadLink { path: p("a") }, Reply::Link(Ok(p("t")))),
            (Request::MakeLink { target: p("t"), path: p("x/b") }, Reply::Unit(Err(denied()))),
        ],
    );
    assert_eq!(end(run, Ok(())), Err(io(Attempt::CreateSymlink, "x/b")));
    let run = play(
        up_to(SourceKind::Other),
        vec![(Request::CopyFile { from: p("a"), to: p("x/b") }, Reply::Unit(Err(denied())))],
    );
    assert_eq!(end(run, Ok(())), Err(io(Attempt::CopyFile, "a")));
    let run = play(
        up_to(SourceKind::Directory),
        vec![(
            Request::HandOver { from: p("a"), to: p("x/b") },
            Reply::HandedOver(Err(Error::Internal)),
        )],
    );
    assert_eq!(end(run, Ok(())), Err(Error::Internal));
}

#[test]
fn links_are_files_where_there_are_no_links() {
    assert_eq!(transfer(Platform::Unix, SourceKind::Symlink), Phase::ReadingLink);
    assert_eq!(transfer(Platform::Other, SourceKind::Symlink), Phase::Copying);
    assert_eq!(transfer(Platform::Other, SourceKind::Directory), Phase::HandingOver);
    assert_eq!(inspected(Platform::Linux, SourceKind::Other, None), Phase::Copying);
    assert_eq!(
        inspected(Platform::Linux, SourceKind::Other, Some(p("d"))),
        Phase::MakingParent { kind: SourceKind::Other, parent: p("d") }
    );
}

#[test]
fn only_fitting_answers_are_accepted() {
    let run: Run = copy_file(p("a"), p("b"), Platform::Linux);
    assert!(!run.accepts(&RunReply::Finished(Ok(()))));
    assert!(!run.accepts(&RunReply::File(kind(SourceKind::Other))));
    assert!(run.accepts(&RunReply::File(done())));
    assert_eq!(run.outcome(), None);
}

#[test]
fn operations_replace_nothing_unless_told_to() {
    let files = || vec![(p("a"), p("b"))];
    assert!(!CopyOp::builder().files(files()).build().force);
    assert!(CopyOp::builder().force(true).files(files()).build().force);
    assert_eq!(CopyOp::builder().files(files()).force(true).build().files, files());
}
