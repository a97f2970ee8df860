//! What the analysis reads of one commit.

use vstd::prelude::*;

verus! {

/// Name under which commits without an author name are counted.
pub const UNKNOWN_AUTHOR: &'static str = ">UNKNOWN<";

/// Size of the difference between a commit and its first parent.
#[derive(Clone, Copy, Debug)]
pub struct CommitDiff {
    pub files_changed: usize,
    pub lines_inserted: usize,
    pub lines_deleted: usize,
}

/// One commit of the history, as the commit source hands it over.
#[derive(Debug)]
pub struct Commit {
    /// Display name of the author, if the commit carries one.
    pub author_name: Option<String>,
    /// Author time in seconds since the epoch, UTC.
    pub timestamp: u64,
    /// Difference to the first parent; `None` for a root commit, or where no
    /// difference was computed.
    pub parent_diff: Option<CommitDiff>,
}

/// The name under which a commit is counted: its author's name, or the
/// sentinel for a commit without one.
pub open spec fn author_key(commit: Commit) -> Seq<char> {
    match commit.author_name {
        Some(name) => name@,
        None => UNKNOWN_AUTHOR@,
    }
}

impl Commit {
    /// The name under which this commit is counted among the contributors.
    pub fn author(&self) -> (name: String)
        ensures
            name@ == author_key(*self),
    {
        match &self.author_name {
            Some(name) => name.clone(),
            None => UNKNOWN_AUTHOR.to_owned(),
        }
    }
}

} // verus!
