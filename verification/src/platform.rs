//! The platforms whose rules for copying differ.

use vstd::prelude::*;

verus! {

/// A platform that files are copied on.
#[derive(Debug, Clone, Copy, PartialEq, Eq, Structural)]
pub enum Platform {
    /// Linux, where directories are copied by calls relative to open directories.
    Linux,
    /// Any other Unix.
    Unix,
    /// A platform on which neither inodes nor symbolic links are looked at.
    Other,
}

impl Platform {
    /// Whether symbolic links are copied as links.
    pub open spec fn copies_links(self) -> bool {
        self != Platform::Other
    }

    /// Whether symbolic links are copied as links.
    pub fn has_links(&self) -> (links: bool)
        ensures
            links == self.copies_links(),
    {
        match self {
            Platform::Linux => true,
            Platform::Unix => true,
            Platform::Other => false,
        }
    }
}

} // verus!
