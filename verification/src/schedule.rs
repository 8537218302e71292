//! Going through the files of a copy operation: each is copied, linked or handed
//! over, by what it is.

use crate::c_path::CPath;
use crate::error::{
    io_error, io_error_view, outcome_view, Attempt, CopyError, Error, ErrorView, Failure,
    FailureKind, Subject,
};
use crate::op::{CopyOp, CopyOpView};
use crate::os_path::{lies_in_parent, optional_bytes, os_bytes, parent, parent_bytes};
use crate::platform::Platform;
use std::path::PathBuf;
use vstd::pervasive::unreached;
use vstd::prelude::*;

verus! {

/// What a file to copy is.
#[derive(Debug, Clone, Copy, PartialEq, Eq, Structural)]
pub enum SourceKind {
    Directory,
    Symlink,
    Other,
}

/// How far the copy of one file has come: the call that is under way.
#[derive(Debug, PartialEq, Eq)]
pub enum Phase<Q> {
    /// Looking whether something stands at the path of the copy.
    Checking,
    /// Looking what the file is.
    Inspecting,
    /// Making the directory that the copy goes into.
    MakingParent { kind: SourceKind, parent: Q },
    /// Handing over a directory.
    HandingOver,
    /// Reading a symbolic link.
    ReadingLink,
    /// Making the link.
    Linking { target: Q },
    /// Copying a file.
    Copying,
    /// There are no more files.
    Finished,
}

/// The way through the files of a copy operation.
#[derive(Debug, PartialEq, Eq)]
pub struct Schedule {
    op: CopyOp,
    platform: Platform,
    /// Which of the files is being copied.
    index: usize,
    phase: Phase<PathBuf>,
}

/// Schedules with every path taken by its bytes.
pub struct ScheduleView {
    pub op: CopyOpView,
    pub platform: Platform,
    pub index: int,
    pub phase: Phase<Seq<u8>>,
}

impl View for Phase<PathBuf> {
    type V = Phase<Seq<u8>>;

    open spec fn view(&self) -> Phase<Seq<u8>> {
        match *self {
            Phase::Checking => Phase::Checking,
            Phase::Inspecting => Phase::Inspecting,
            Phase::MakingParent { kind, parent } => Phase::MakingParent {
                kind,
                parent: os_bytes(parent),
            },
            Phase::HandingOver => Phase::HandingOver,
            Phase::ReadingLink => Phase::ReadingLink,
            Phase::Linking { target } => Phase::Linking { target: os_bytes(target) },
            Phase::Copying => Phase::Copying,
            Phase::Finished => Phase::Finished,
        }
    }
}

impl View for Schedule {
    type V = ScheduleView;

    closed spec fn view(&self) -> ScheduleView {
        ScheduleView {
            op: self.op@,
            platform: self.platform,
            index: self.index as int,
            phase: self.phase@,
        }
    }
}

/// A call to make for one of the files.
#[derive(Debug, PartialEq, Eq)]
pub enum Request<Q> {
    /// Look whether something stands at the path, without following a link.
    Check { path: Q },
    /// Look what stands at the path, without following a link.
    Inspect { path: Q },
    /// Make a directory and all that it is in.
    CreateDirAll { path: Q },
    /// Hand a directory over to be copied.
    HandOver { from: Q, to: Q },
    /// Read a symbolic link.
    ReadLink { path: Q },
    /// Make a symbolic link.
    MakeLink { target: Q, path: Q },
    /// Copy the bytes and the permissions of a file.
    CopyFile { from: Q, to: Q },
}

impl View for Request<PathBuf> {
    type V = Request<Seq<u8>>;

    open spec fn view(&self) -> Request<Seq<u8>> {
        match *self {
            Request::Check { path } => Request::Check { path: os_bytes(path) },
            Request::Inspect { path } => Request::Inspect { path: os_bytes(path) },
            Request::CreateDirAll { path } => Request::CreateDirAll { path: os_bytes(path) },
            Request::HandOver { from, to } => Request::HandOver {
                from: os_bytes(from),
                to: os_bytes(to),
            },
            Request::ReadLink { path } => Request::ReadLink { path: os_bytes(path) },
            Request::MakeLink { target, path } => Request::MakeLink {
                target: os_bytes(target),
                path: os_bytes(path),
            },
            Request::CopyFile { from, to } => Request::CopyFile {
                from: os_bytes(from),
                to: os_bytes(to),
            },
        }
    }
}

/// What a call for one of the files answered.
#[derive(Debug, PartialEq, Eq)]
pub enum Reply<Q, P, E> {
    /// Of a call that answers nothing but whether it worked.
    Unit(Result<(), Failure<E>>),
    /// What stands at the path.
    Kind(Result<SourceKind, Failure<E>>),
    /// Where a symbolic link points.
    Link(Result<Q, Failure<E>>),
    /// Whether a directory was handed over.
    HandedOver(Result<(), Error<Q, P, E>>),
}

/// Link targets by their bytes.
pub open spec fn link_view<E>(link: Result<PathBuf, Failure<E>>) -> Result<Seq<u8>, Failure<E>> {
    match link {
        Ok(target) => Ok(os_bytes(target)),
        Err(failure) => Err(failure),
    }
}

impl<E> View for Reply<PathBuf, CPath, E> {
    type V = Reply<Seq<u8>, Seq<u8>, E>;

    open spec fn view(&self) -> Reply<Seq<u8>, Seq<u8>, E> {
        match *self {
            Reply::Unit(result) => Reply::Unit(result),
            Reply::Kind(result) => Reply::Kind(result),
            Reply::Link(result) => Reply::Link(link_view(result)),
            Reply::HandedOver(result) => Reply::HandedOver(outcome_view(result)),
        }
    }
}

impl<E> Reply<Seq<u8>, Seq<u8>, E> {
    /// The failure that the answer reports, if a system call failed.
    pub open spec fn failure(self) -> Option<Failure<E>> {
        match self {
            Reply::Unit(Err(failure)) => Some(failure),
            Reply::Kind(Err(failure)) => Some(failure),
            Reply::Link(Err(failure)) => Some(failure),
            _ => None,
        }
    }
}

/// The phase in which a file of this kind is transferred.
pub open spec fn transfer_phase(platform: Platform, kind: SourceKind) -> Phase<Seq<u8>> {
    match kind {
        SourceKind::Directory => Phase::HandingOver,
        SourceKind::Symlink if platform.copies_links() => Phase::ReadingLink,
        _ => Phase::Copying,
    }
}

/// The phase that follows once it is known what the file is. Where the path of the
/// copy has a parent, that is made first.
pub open spec fn inspected_phase(
    platform: Platform,
    kind: SourceKind,
    parent: Option<Seq<u8>>,
) -> Phase<Seq<u8>> {
    match parent {
        Some(parent) => Phase::MakingParent { kind, parent },
        None => transfer_phase(platform, kind),
    }
}

impl ScheduleView {
    /// The schedule at the beginning of the file at `index`, if there is one. Only
    /// where nothing is to be replaced does it matter what is there.
    pub open spec fn at(op: CopyOpView, platform: Platform, index: int) -> ScheduleView {
        let phase = if index >= op.files.len() {
            Phase::Finished
        } else if op.force {
            Phase::Inspecting
        } else {
            Phase::Checking
        };
        ScheduleView { op, platform, index, phase }
    }

    /// The schedule at its beginning.
    pub open spec fn begin(op: CopyOpView, platform: Platform) -> ScheduleView {
        ScheduleView::at(op, platform, 0)
    }

    /// There is a file to copy until the schedule is finished.
    pub open spec fn wf(self) -> bool {
        &&& 0 <= self.index <= self.op.files.len()
        &&& self.phase is Finished <==> self.index == self.op.files.len()
    }

    /// The path of the file.
    pub open spec fn from(self) -> Seq<u8> {
        self.op.files[self.index].0
    }

    /// The path of the copy.
    pub open spec fn to(self) -> Seq<u8> {
        self.op.files[self.index].1
    }

    /// The call that is under way, if there is still a file to copy.
    pub open spec fn wants(self) -> Option<Request<Seq<u8>>> {
        match self.phase {
            Phase::Checking => Some(Request::Check { path: self.to() }),
            Phase::Inspecting => Some(Request::Inspect { path: self.from() }),
            Phase::MakingParent { parent, .. } => Some(Request::CreateDirAll { path: parent }),
            Phase::HandingOver => Some(Request::HandOver { from: self.from(), to: self.to() }),
            Phase::ReadingLink => Some(Request::ReadLink { path: self.from() }),
            Phase::Linking { target } => Some(Request::MakeLink { target, path: self.to() }),
            Phase::Copying => Some(Request::CopyFile { from: self.from(), to: self.to() }),
            Phase::Finished => None,
        }
    }

    /// Whether an answer is one that the call under way can give.
    pub open spec fn takes<E>(self, reply: Reply<Seq<u8>, Seq<u8>, E>) -> bool {
        match self.phase {
            Phase::Checking => reply is Unit,
            Phase::Inspecting => reply is Kind,
            Phase::MakingParent { .. } => reply is Unit,
            Phase::HandingOver => reply is HandedOver,
            Phase::ReadingLink => reply is Link,
            Phase::Linking { .. } => reply is Unit,
            Phase::Copying => reply is Unit,
            Phase::Finished => false,
        }
    }

    /// What an error message is about.
    pub open spec fn blame(self) -> (Attempt, Subject<Seq<u8>, Seq<u8>>) {
        match self.phase {
            Phase::Checking => (Attempt::ReadMetadata, Subject::Named(self.to())),
            Phase::MakingParent { parent, .. } => (Attempt::CreateParent, Subject::Named(parent)),
            Phase::ReadingLink => (Attempt::ReadSymlink, Subject::Named(self.from())),
            Phase::Linking { .. } => (Attempt::CreateSymlink, Subject::Named(self.to())),
            Phase::Copying => (Attempt::CopyFile, Subject::Named(self.from())),
            _ => (Attempt::ReadMetadata, Subject::Named(self.from())),
        }
    }

    /// Whether a failure is what is hoped for: that nothing stands at the path of the
    /// copy.
    pub open spec fn hopes_for<E>(self, failure: Failure<E>) -> bool {
        self.phase is Checking && failure.kind == FailureKind::NotFound
    }

    /// The schedule in another phase of the same file.
    pub open spec fn enter(self, phase: Phase<Seq<u8>>) -> ScheduleView {
        ScheduleView { phase, ..self }
    }

    /// Where an answer leads that is no reason to stop.
    pub open spec fn follow_up<E>(self, reply: Reply<Seq<u8>, Seq<u8>, E>) -> ScheduleView {
        match self.phase {
            Phase::Checking => self.enter(Phase::Inspecting),
            Phase::Inspecting => self.enter(
                inspected_phase(self.platform, reply->Kind_0->Ok_0, parent_bytes(self.to())),
            ),
            Phase::MakingParent { kind, .. } => self.enter(transfer_phase(self.platform, kind)),
            Phase::ReadingLink => self.enter(Phase::Linking { target: reply->Link_0->Ok_0 }),
            _ => ScheduleView::at(self.op, self.platform, self.index + 1),
        }
    }

    /// Where an answer leads, or the error with which the way through the files ends.
    pub open spec fn after<E>(self, reply: Reply<Seq<u8>, Seq<u8>, E>) -> Result<
        ScheduleView,
        ErrorView<E>,
    > {
        match reply {
            Reply::HandedOver(Err(error)) => Err(error),
            Reply::Unit(Ok(_)) if self.phase is Checking => Err(
                Error::AlreadyExists { file: self.to() },
            ),
            _ => match reply.failure() {
                Some(failure) if !self.hopes_for(failure) => Err(
                    io_error_view(failure.error, self.blame().0, self.blame().1),
                ),
                _ => Ok(self.follow_up(reply)),
            },
        }
    }
}

/// Requests with every path taken by its bytes.
pub open spec fn schedule_request_view(request: Option<Request<PathBuf>>) -> Option<
    Request<Seq<u8>>,
> {
    match request {
        Some(request) => Some(request@),
        None => None,
    }
}

/// Schedules by their views, and errors by theirs.
pub open spec fn schedule_result_view<E>(result: Result<Schedule, CopyError<E>>) -> Result<
    ScheduleView,
    ErrorView<E>,
> {
    match result {
        Ok(schedule) => Ok(schedule@),
        Err(error) => Err(error@),
    }
}

/// The error for a call that failed on a path that the caller named.
fn named_error<E>(error: E, attempt: Attempt, path: &PathBuf) -> (result: CopyError<E>)
    ensures
        result@ == io_error_view(error, attempt, Subject::Named(os_bytes(*path))),
{
    io_error(error, attempt, Subject::Named(path.clone()))
}

/// How a file of this kind is transferred: a directory is handed over, a symbolic
/// link is made anew where links are, and anything else is copied.
pub fn transfer(platform: Platform, kind: SourceKind) -> (phase: Phase<PathBuf>)
    ensures
        phase@ == transfer_phase(platform, kind),
{
    match kind {
        SourceKind::Directory => Phase::HandingOver,
        SourceKind::Symlink => if platform.has_links() {
            Phase::ReadingLink
        } else {
            Phase::Copying
        },
        SourceKind::Other => Phase::Copying,
    }
}

/// How to go on once it is known what the file is, where `parent` is the parent of
/// the path of the copy, if that has one.
pub fn inspected(platform: Platform, kind: SourceKind, parent: Option<PathBuf>) -> (phase: Phase<
    PathBuf,
>)
    ensures
        phase@ == inspected_phase(platform, kind, optional_bytes(parent)),
{
    match parent {
        Some(parent) => Phase::MakingParent { kind, parent },
        None => transfer(platform, kind),
    }
}

/// Begins the way through the files of a copy operation.
pub fn schedule_copies(op: CopyOp, platform: Platform) -> (schedule: Schedule)
    ensures
        schedule@ == ScheduleView::begin(op@, platform),
        schedule@.wf(),
{
    Schedule::at(op, platform, 0)
}

impl Schedule {
    #[verifier::type_invariant]
    spec fn has_file(self) -> bool {
        self@.wf()
    }

    /// The schedule at the beginning of the file at `index`, if there is one.
    fn at(op: CopyOp, platform: Platform, index: usize) -> (schedule: Schedule)
        requires
            index <= op.files@.len(),
        ensures
            schedule@ == ScheduleView::at(op@, platform, index as int),
    {
        let phase = if index >= op.files.len() {
            Phase::Finished
        } else if op.force {
            Phase::Inspecting
        } else {
            Phase::Checking
        };
        Schedule { op, platform, index, phase }
    }

    /// Whether there are no more files.
    pub fn is_finished(&self) -> (finished: bool)
        ensures
            finished == (self@.phase is Finished),
    {
        match &self.phase {
            Phase::Finished => true,
            _ => false,
        }
    }

    /// The call to make next, or none when there are no more files.
    pub fn request(&self) -> (request: Option<Request<PathBuf>>)
        ensures
            schedule_request_view(request) == self@.wants(),
    {
        proof {
            use_type_invariant(self);
        }
        if self.is_finished() {
            return None;
        }
        let (from, to) = &self.op.files[self.index];
        match &self.phase {
            Phase::Checking => Some(Request::Check { path: to.clone() }),
            Phase::Inspecting => Some(Request::Inspect { path: from.clone() }),
            Phase::MakingParent { parent, .. } => Some(
                Request::CreateDirAll { path: parent.clone() },
            ),
            Phase::HandingOver => Some(Request::HandOver { from: from.clone(), to: to.clone() }),
            Phase::ReadingLink => Some(Request::ReadLink { path: from.clone() }),
            Phase::Linking { target } => Some(
                Request::MakeLink { target: target.clone(), path: to.clone() },
            ),
            Phase::Copying => Some(Request::CopyFile { from: from.clone(), to: to.clone() }),
            Phase::Finished => None,
        }
    }

    /// Whether an answer is one that the call under way can give.
    pub fn accepts<E>(&self, reply: &Reply<PathBuf, CPath, E>) -> (accepted: bool)
        ensures
            accepted == self@.takes(reply@),
    {
        match (&self.phase, reply) {
            (Phase::Checking, Reply::Unit(_)) => true,
            (Phase::Inspecting, Reply::Kind(_)) => true,
            (Phase::MakingParent { .. }, Reply::Unit(_)) => true,
            (Phase::HandingOver, Reply::HandedOver(_)) => true,
            (Phase::ReadingLink, Reply::Link(_)) => true,
            (Phase::Linking { .. }, Reply::Unit(_)) => true,
            (Phase::Copying, Reply::Unit(_)) => true,
            _ => false,
        }
    }

    /// Goes on with what the call under way answered. Where the parent of the path of the
    /// copy comes up, it is one that the path lies in.
    pub fn advance<E>(self, reply: Reply<PathBuf, CPath, E>) -> (result: Result<
        Schedule,
        CopyError<E>,
    >)
        requires
            self@.takes(reply@),
        ensures
            schedule_result_view(result) == self@.after(reply@),
            reply@ matches Reply::Kind(Ok(_)) ==> lies_in_parent(self@.to()),
    {
        proof {
            use_type_invariant(&self);
        }
        let Schedule { op, platform, index, phase } = self;
        let count: usize = op.files.len();
        assert(index < count);
        let (from, to) = &op.files[index];
        let phase = match (phase, reply) {
            (Phase::Checking, Reply::Unit(Ok(_))) => {
                return Err(Error::AlreadyExists { file: to.clone() });
            },
            (Phase::Checking, Reply::Unit(Err(f))) => {
                if f.kind != FailureKind::NotFound {
                    return Err(named_error(f.error, Attempt::ReadMetadata, to));
                }
                Phase::Inspecting
            },
            (Phase::Inspecting, Reply::Kind(Ok(kind))) => inspected(platform, kind, parent(to)),
            (Phase::Inspecting, Reply::Kind(Err(f))) => {
                return Err(named_error(f.error, Attempt::ReadMetadata, from));
            },
            (Phase::MakingParent { kind, .. }, Reply::Unit(Ok(_))) => transfer(platform, kind),
            (Phase::MakingParent { parent, .. }, Reply::Unit(Err(f))) => {
                return Err(named_error(f.error, Attempt::CreateParent, &parent));
            },
            (Phase::HandingOver, Reply::HandedOver(Ok(_))) => {
                return Ok(Schedule::at(op, platform, index + 1));
            },
            (Phase::HandingOver, Reply::HandedOver(Err(error))) => {
                return Err(error);
            },
            (Phase::ReadingLink, Reply::Link(Ok(target))) => Phase::Linking { target },
            (Phase::ReadingLink, Reply::Link(Err(f))) => {
                return Err(named_error(f.error, Attempt::ReadSymlink, from));
            },
            (Phase::Linking { .. }, Reply::Unit(Ok(_))) => {
                return Ok(Schedule::at(op, platform, index + 1));
            },
            (Phase::Linking { .. }, Reply::Unit(Err(f))) => {
                return Err(named_error(f.error, Attempt::CreateSymlink, to));
            },
            (Phase::Copying, Reply::Unit(Ok(_))) => {
                return Ok(Schedule::at(op, platform, index + 1));
            },
            (Phase::Copying, Reply::Unit(Err(f))) => {
                return Err(named_error(f.error, Attempt::CopyFile, from));
            },
            _ => unreached(),
        };
        Ok(Schedule { op, platform, index, phase })
    }
}

} // verus!
