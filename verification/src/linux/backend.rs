//! The worker that directories are handed to, started when the first one is.

use crate::c_path::CPath;
use crate::error::{outcome_view, CopyError, Error, ErrorView};
use crate::linux::node::TreeNode;
use crate::linux::pool::{join_outcome, joined_view, Joined};
use crate::os_path::{os_bytes, path_bytes};
use std::path::PathBuf;
use vstd::prelude::*;

verus! {

/// The worker: whether its thread was started.
#[derive(Debug, Clone, Copy, PartialEq, Eq, Structural)]
pub struct Impl {
    pub started: bool,
}

/// What is to be done with a directory that was handed over.
#[derive(Debug, PartialEq, Eq)]
pub struct Dispatch<E> {
    /// The worker's thread is to be started first.
    pub start: bool,
    /// The node to queue, unless the directory cannot be copied.
    pub node: Result<TreeNode<CPath>, CopyError<E>>,
}

/// The node for a directory that was handed over, or the error for the first of its
/// two paths that no system call can take.
pub open spec fn root_node<E>(from: Seq<u8>, to: Seq<u8>) -> Result<
    TreeNode<Seq<u8>>,
    ErrorView<E>,
> {
    if from.contains(0u8) {
        Err(Error::BadPath { path: from })
    } else if to.contains(0u8) {
        Err(Error::BadPath { path: to })
    } else {
        Ok(TreeNode { from, to, root_to_inode: None })
    }
}

/// Nodes by their views, and errors by theirs.
pub open spec fn node_result_view<E>(result: Result<TreeNode<CPath>, CopyError<E>>) -> Result<
    TreeNode<Seq<u8>>,
    ErrorView<E>,
> {
    match result {
        Ok(node) => Ok(node@),
        Err(error) => Err(error@),
    }
}

/// The path as a system call takes it, unless it holds a zero byte.
pub fn path_buf_to_cstring<E>(path: PathBuf) -> (result: Result<CPath, CopyError<E>>)
    ensures
        result is Err <==> os_bytes(path).contains(0u8),
        match result {
            Ok(c_path) => c_path@ == os_bytes(path),
            Err(error) => error@ == (ErrorView::<E>::BadPath { path: os_bytes(path) }),
        },
{
    match CPath::new(path_bytes(&path)) {
        Some(c_path) => Ok(c_path),
        None => Err(Error::BadPath { path }),
    }
}

/// A worker whose thread was not started yet.
pub fn copy_impl() -> (worker: Impl)
    ensures
        !worker.started,
{
    Impl { started: false }
}

impl Impl {
    /// Hands over a directory. The thread is started with the first one, even if
    /// that cannot be copied.
    pub fn run<E>(&mut self, from: PathBuf, to: PathBuf) -> (dispatch: Dispatch<E>)
        ensures
            final(self).started,
            dispatch.start == !old(self).started,
            node_result_view(dispatch.node) == root_node::<E>(os_bytes(from), os_bytes(to)),
    {
        let start = !self.started;
        self.started = true;
        let from = match path_buf_to_cstring(from) {
            Ok(from) => from,
            Err(error) => return Dispatch { start, node: Err(error) },
        };
        let to = match path_buf_to_cstring(to) {
            Ok(to) => to,
            Err(error) => return Dispatch { start, node: Err(error) },
        };
        Dispatch { start, node: Ok(TreeNode { from, to, root_to_inode: None }) }
    }

    /// The outcome of handing over a directory that the queue did or did not take.
    pub fn sent<E>(taken: bool) -> (outcome: Result<(), CopyError<E>>)
        ensures
            outcome is Ok <==> taken,
            outcome matches Err(error) ==> error is Internal,
    {
        if taken {
            Ok(())
        } else {
            Err(Error::Internal)
        }
    }

    /// Whether there is a thread to wait for, once the queue is closed.
    pub fn must_join(&self) -> (join: bool)
        ensures
            join == self.started,
    {
        self.started
    }

    /// The outcome of all the work: that of the thread, if one was started.
    pub fn finish<E>(self, thread: Option<Joined<Result<(), CopyError<E>>>>) -> (outcome: Result<
        (),
        CopyError<E>,
    >)
        requires
            thread is Some <==> self.started,
        ensures
            outcome_view(outcome) == match thread {
                Some(joined) => joined_view(joined),
                None => Ok(()),
            },
    {
        match thread {
            Some(joined) => join_outcome(joined),
            None => Ok(()),
        }
    }
}

} // verus!
