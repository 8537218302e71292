//! Copy operations: which files to copy where, and the run of such an operation
//! from its beginning to its outcome.

use crate::c_path::CPath;
use crate::error::{outcome_view, CopyError, Error, ErrorView};
use crate::os_path::{lies_in_parent, os_bytes};
use crate::platform::Platform;
use crate::schedule::{schedule_copies, Reply, Request, Schedule, ScheduleView};
use std::path::PathBuf;
use vstd::pervasive::unreached;
use vstd::prelude::*;

verus! {

/// Files and directories to copy, each with the path of its copy.
#[derive(Debug, PartialEq, Eq)]
pub struct CopyOp {
    pub files: Vec<(PathBuf, PathBuf)>,
    /// Whether what stands at the path of a copy may be replaced.
    pub force: bool,
}

/// Copy operations with every path taken by its bytes.
pub struct CopyOpView {
    pub files: Seq<(Seq<u8>, Seq<u8>)>,
    pub force: bool,
}

/// Pairs of paths by their bytes.
pub open spec fn files_view(files: Seq<(PathBuf, PathBuf)>) -> Seq<(Seq<u8>, Seq<u8>)> {
    files.map_values(|pair: (PathBuf, PathBuf)| (os_bytes(pair.0), os_bytes(pair.1)))
}

impl View for CopyOp {
    type V = CopyOpView;

    open spec fn view(&self) -> CopyOpView {
        CopyOpView { files: files_view(self.files@), force: self.force }
    }
}

/// A copy operation in the making. `F` tells whether the files were given.
#[derive(Debug, PartialEq, Eq)]
pub struct CopyOpBuilder<F> {
    files: F,
    force: bool,
}

impl<F> CopyOpBuilder<F> {
    /// What was given as the files.
    pub closed spec fn given(self) -> F {
        self.files
    }

    /// Whether copies may replace what is there.
    pub closed spec fn forces(self) -> bool {
        self.force
    }

    /// Sets whether what stands at the path of a copy may be replaced.
    pub fn force(self, force: bool) -> (builder: CopyOpBuilder<F>)
        ensures
            builder.given() == self.given(),
            builder.forces() == force,
    {
        CopyOpBuilder { files: self.files, force }
    }
}

impl CopyOpBuilder<()> {
    /// Sets the files to copy.
    pub fn files(self, files: Vec<(PathBuf, PathBuf)>) -> (builder: CopyOpBuilder<
        (Vec<(PathBuf, PathBuf)>,),
    >)
        ensures
            builder.given() == (files,),
            builder.forces() == self.forces(),
    {
        CopyOpBuilder { files: (files,), force: self.force }
    }
}

impl CopyOpBuilder<(Vec<(PathBuf, PathBuf)>,)> {
    /// The copy operation.
    pub fn build(self) -> (op: CopyOp)
        ensures
            op.files == self.given().0,
            op.force == self.forces(),
    {
        CopyOp { files: self.files.0, force: self.force }
    }
}

/// What a run is doing.
#[derive(Debug, PartialEq, Eq)]
pub enum RunPhase<S, Q, P, E> {
    /// Going through the files.
    Scheduling(S),
    /// Waiting for the directories that were handed over, with the outcome of going
    /// through the files.
    Finishing(Result<(), Error<Q, P, E>>),
    /// Done, with the outcome of the whole operation.
    Done(Result<(), Error<Q, P, E>>),
}

/// The run of a copy operation.
#[derive(Debug, PartialEq, Eq)]
pub struct CopyRun<E> {
    pub phase: RunPhase<Schedule, PathBuf, CPath, E>,
}

/// Runs with every path taken by its bytes.
pub type RunView<E> = RunPhase<ScheduleView, Seq<u8>, Seq<u8>, E>;

impl<E> View for CopyRun<E> {
    type V = RunView<E>;

    open spec fn view(&self) -> RunView<E> {
        match self.phase {
            RunPhase::Scheduling(schedule) => RunPhase::Scheduling(schedule@),
            RunPhase::Finishing(outcome) => RunPhase::Finishing(outcome_view(outcome)),
            RunPhase::Done(outcome) => RunPhase::Done(outcome_view(outcome)),
        }
    }
}

/// What a run asks for.
#[derive(Debug, PartialEq, Eq)]
pub enum RunRequest<Q> {
    /// A call for one of the files.
    File(Request<Q>),
    /// To wait until the directories that were handed over are copied.
    Finish,
}

/// What a run is answered.
#[derive(Debug, PartialEq, Eq)]
pub enum RunReply<Q, P, E> {
    /// What a call for one of the files answered.
    File(Reply<Q, P, E>),
    /// How the copy of the directories that were handed over ended.
    Finished(Result<(), Error<Q, P, E>>),
}

impl<E> View for RunReply<PathBuf, CPath, E> {
    type V = RunReply<Seq<u8>, Seq<u8>, E>;

    open spec fn view(&self) -> RunReply<Seq<u8>, Seq<u8>, E> {
        match *self {
            RunReply::File(reply) => RunReply::File(reply@),
            RunReply::Finished(outcome) => RunReply::Finished(outcome_view(outcome)),
        }
    }
}

/// Requests with every path taken by its bytes.
pub open spec fn run_request_view(request: Option<RunRequest<PathBuf>>) -> Option<
    RunRequest<Seq<u8>>,
> {
    match request {
        Some(RunRequest::File(request)) => Some(RunRequest::File(request@)),
        Some(RunRequest::Finish) => Some(RunRequest::Finish),
        None => None,
    }
}

/// The outcome of the whole operation: the error of the directories that were handed
/// over, if there is one, and else the outcome of going through the files.
pub open spec fn overall<E>(
    finish: Result<(), ErrorView<E>>,
    schedule: Result<(), ErrorView<E>>,
) -> Result<(), ErrorView<E>> {
    match finish {
        Ok(_) => schedule,
        Err(error) => Err(error),
    }
}

/// A run that goes through the files of this schedule, or has come to their end.
pub open spec fn scheduling<E>(schedule: ScheduleView) -> RunView<E> {
    if schedule.phase is Finished {
        RunPhase::Finishing(Ok(()))
    } else {
        RunPhase::Scheduling(schedule)
    }
}

impl<E> RunPhase<ScheduleView, Seq<u8>, Seq<u8>, E> {
    /// The run of an operation at its beginning.
    pub open spec fn begin(op: CopyOpView, platform: Platform) -> RunView<E> {
        scheduling(ScheduleView::begin(op, platform))
    }

    /// What the run asks for, if it is not done.
    pub open spec fn wants(self) -> Option<RunRequest<Seq<u8>>> {
        match self {
            RunPhase::Scheduling(schedule) => match schedule.wants() {
                Some(request) => Some(RunRequest::File(request)),
                None => None,
            },
            RunPhase::Finishing(_) => Some(RunRequest::Finish),
            RunPhase::Done(_) => None,
        }
    }

    /// Whether an answer fits what the run asks for.
    pub open spec fn takes(self, reply: RunReply<Seq<u8>, Seq<u8>, E>) -> bool {
        match (self, reply) {
            (RunPhase::Scheduling(schedule), RunReply::File(reply)) => schedule.takes(reply),
            (RunPhase::Finishing(_), RunReply::Finished(_)) => true,
            _ => false,
        }
    }

    /// Where an answer leads. An error ends the way through the files, but the
    /// directories that were handed over are waited for all the same.
    pub open spec fn after(self, reply: RunReply<Seq<u8>, Seq<u8>, E>) -> RunView<E> {
        match (self, reply) {
            (RunPhase::Scheduling(schedule), RunReply::File(reply)) => match schedule.after(reply) {
                Ok(schedule) => scheduling(schedule),
                Err(error) => RunPhase::Finishing(Err(error)),
            },
            (RunPhase::Finishing(schedule), RunReply::Finished(finish)) => RunPhase::Done(
                overall(finish, schedule),
            ),
            _ => self,
        }
    }
}

/// Begins the copy of one file or directory, which replaces nothing.
pub fn copy_file<E>(from: PathBuf, to: PathBuf, platform: Platform) -> (run: CopyRun<E>)
    ensures
        run@ == RunView::<E>::begin(
            CopyOpView { files: seq![(os_bytes(from), os_bytes(to))], force: false },
            platform,
        ),
{
    let mut files: Vec<(PathBuf, PathBuf)> = Vec::new();
    files.push((from, to));
    assert(files_view(files@) =~= seq![(os_bytes(from), os_bytes(to))]);
    CopyOp::builder().files(files).build().run(platform)
}

impl CopyOp {
    /// A copy operation in the making, which replaces nothing unless told to.
    pub fn builder() -> (builder: CopyOpBuilder<()>)
        ensures
            !builder.forces(),
    {
        CopyOpBuilder { files: (), force: false }
    }

    /// Begins this copy operation.
    pub fn run<E>(self, platform: Platform) -> (run: CopyRun<E>)
        ensures
            run@ == RunView::<E>::begin(self@, platform),
    {
        CopyRun::scheduling(schedule_copies(self, platform))
    }
}

impl<E> CopyRun<E> {
    /// A run that goes through the files of this schedule, or has come to their end.
    fn scheduling(schedule: Schedule) -> (run: CopyRun<E>)
        ensures
            run@ == scheduling::<E>(schedule@),
    {
        if schedule.is_finished() {
            CopyRun { phase: RunPhase::Finishing(Ok(())) }
        } else {
            CopyRun { phase: RunPhase::Scheduling(schedule) }
        }
    }

    /// What to do next, or nothing when the run is done.
    pub fn request(&self) -> (request: Option<RunRequest<PathBuf>>)
        ensures
            run_request_view(request) == self@.wants(),
    {
        match &self.phase {
            RunPhase::Scheduling(schedule) => match schedule.request() {
                Some(request) => Some(RunRequest::File(request)),
                None => None,
            },
            RunPhase::Finishing(_) => Some(RunRequest::Finish),
            RunPhase::Done(_) => None,
        }
    }

    /// Whether an answer fits what the run asks for.
    pub fn accepts(&self, reply: &RunReply<PathBuf, CPath, E>) -> (accepted: bool)
        ensures
            accepted == self@.takes(reply@),
    {
        match (&self.phase, reply) {
            (RunPhase::Scheduling(schedule), RunReply::File(reply)) => schedule.accepts(reply),
            (RunPhase::Finishing(_), RunReply::Finished(_)) => true,
            _ => false,
        }
    }

    /// Goes on with what was answered. Where the parent of the path of a copy comes up, it is
    /// one that the path lies in.
    pub fn advance(self, reply: RunReply<PathBuf, CPath, E>) -> (run: CopyRun<E>)
        requires
            self@.takes(reply@),
        ensures
            run@ == self@.after(reply@),
            (match (self@, reply@) {
                (
                    RunPhase::Scheduling(schedule),
                    RunReply::File(Reply::Kind(Ok(_))),
                ) => lies_in_parent(schedule.to()),
                _ => true,
            }),
    {
        match (self.phase, reply) {
            (RunPhase::Scheduling(schedule), RunReply::File(reply)) => match schedule.advance(
                reply,
            ) {
                Ok(schedule) => CopyRun::scheduling(schedule),
                Err(error) => CopyRun { phase: RunPhase::Finishing(Err(error)) },
            },
            (RunPhase::Finishing(schedule), RunReply::Finished(finish)) => match finish {
                Ok(_) => CopyRun { phase: RunPhase::Done(schedule) },
                Err(error) => CopyRun { phase: RunPhase::Done(Err(error)) },
            },
            _ => unreached(),
        }
    }

    /// The outcome, once the run is done.
    pub fn outcome(self) -> (outcome: Option<Result<(), CopyError<E>>>)
        ensures
            match (self@, outcome) {
                (RunPhase::Done(done), Some(outcome)) => outcome_view(outcome) == done,
                (RunPhase::Done(_), None) => false,
                (_, outcome) => outcome is None,
            },
    {
        match self.phase {
            RunPhase::Done(outcome) => Some(outcome),
            _ => None,
        }
    }
}

} // verus!
