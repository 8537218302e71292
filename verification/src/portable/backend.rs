//! The copy of directories that are handed over, each on the spot.

use crate::error::{io_error, io_error_view, outcome_view, Attempt, CopyError, ErrorView, Subject};
use crate::os_path::os_bytes;
use crate::platform::Platform;
use crate::portable::dir::{copy_dir, DirCopy};
use std::path::PathBuf;
use vstd::prelude::*;

verus! {

/// Copies directories where they are handed over. There is nothing to keep.
#[derive(Debug, Clone, Copy, PartialEq, Eq, Structural)]
pub struct Impl {
    pub platform: Platform,
}

/// What directories are handed over to.
pub fn copy_impl(platform: Platform) -> (copier: Impl)
    ensures
        copier.platform == platform,
{
    Impl { platform }
}

impl Impl {
    /// Begins the copy of a directory that was handed over.
    pub fn run(&self, from: PathBuf, to: PathBuf) -> (copy: DirCopy<PathBuf>)
        ensures
            copy@ == DirCopy::<Seq<u8>>::begin(self.platform, os_bytes(from), os_bytes(to), None),
    {
        copy_dir(self.platform, from, to, None)
    }

    /// The outcome of handing over the directory at `from`, whose copy ended like this.
    pub fn copied<E>(from: PathBuf, result: Result<(), E>) -> (outcome: Result<(), CopyError<E>>)
        ensures
            outcome_view(outcome) == match result {
                Ok(_) => Ok::<(), ErrorView<E>>(()),
                Err(error) => Err(
                    io_error_view(error, Attempt::CopyDirectory, Subject::Named(os_bytes(from))),
                ),
            },
    {
        match result {
            Ok(_) => Ok(()),
            Err(error) => Err(io_error(error, Attempt::CopyDirectory, Subject::Named(from))),
        }
    }

    /// The outcome of all the work: there is nothing to wait for.
    pub fn finish<E>(self) -> (outcome: Result<(), CopyError<E>>)
        ensures
            outcome is Ok,
    {
        Ok(())
    }
}

} // verus!
