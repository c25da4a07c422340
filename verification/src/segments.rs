//! What a prompt segment shows of a git repository.

use vstd::prelude::*;

verus! {

/// An operation that a repository is in the middle of.
#[derive(Debug, Clone, Copy, PartialEq, Eq, Structural)]
pub enum OpState {
    Rebasing,
    Merging,
    CherryPick,
    Bisect,
}

/// The status of a working tree.
#[derive(Debug, Clone, PartialEq, Eq)]
pub struct RepoStatus {
    pub repo_name: String,
    pub branch: String,
    pub detached: bool,
    pub state: Option<OpState>,
    pub staged: u32,
    pub modified: u32,
    pub untracked: u32,
    pub conflicted: u32,
    pub ahead: u32,
    pub behind: u32,
    pub stashed: u32,
}

/// The value of a [`RepoStatus`].
pub struct RepoStatusView {
    pub repo_name: Seq<char>,
    pub branch: Seq<char>,
    pub detached: bool,
    pub state: Option<OpState>,
    pub staged: u32,
    pub modified: u32,
    pub untracked: u32,
    pub conflicted: u32,
    pub ahead: u32,
    pub behind: u32,
    pub stashed: u32,
}

impl View for RepoStatus {
    type V = RepoStatusView;

    open spec fn view(&self) -> RepoStatusView {
        RepoStatusView {
            repo_name: self.repo_name@,
            branch: self.branch@,
            detached: self.detached,
            state: self.state,
            staged: self.staged,
            modified: self.modified,
            untracked: self.untracked,
            conflicted: self.conflicted,
            ahead: self.ahead,
            behind: self.behind,
            stashed: self.stashed,
        }
    }
}

impl RepoStatus {
    /// A copy.
    pub fn copied(&self) -> (r: RepoStatus)
        ensures
            r@ == self@,
    {
        RepoStatus {
            repo_name: self.repo_name.as_str().to_owned(),
            branch: self.branch.as_str().to_owned(),
            detached: self.detached,
            state: self.state,
            staged: self.staged,
            modified: self.modified,
            untracked: self.untracked,
            conflicted: self.conflicted,
            ahead: self.ahead,
            behind: self.behind,
            stashed: self.stashed,
        }
    }
}

} // verus!
