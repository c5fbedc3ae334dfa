//! A detected cache directory, and the order in which detected directories
//! are listed: largest first, equal sizes in the order of discovery.

use vstd::prelude::*;
use crate::path::clone_path;

verus! {

/// One detected cache directory.
#[derive(Debug, PartialEq, Eq)]
pub struct ProjectInfo {
    /// The directory that holds the cache directory.
    pub project_path: Vec<String>,
    /// The cache directory itself: what a deletion removes.
    pub node_modules_path: Vec<String>,
    /// When the cache directory was last modified, in seconds since the epoch.
    pub last_modified: u64,
    /// The size of the regular files below the cache directory.
    pub size_bytes: u64,
    /// Whether the operator has marked the directory for deletion.
    pub selected: bool,
}

/// The mathematical value of a [`ProjectInfo`].
pub struct ProjectInfoView {
    pub project_path: Seq<Seq<char>>,
    pub node_modules_path: Seq<Seq<char>>,
    pub last_modified: u64,
    pub size_bytes: u64,
    pub selected: bool,
}

impl ProjectInfoView {
    /// The same directory with the given selection mark.
    pub open spec fn marked(self, selected: bool) -> ProjectInfoView {
        ProjectInfoView { selected, ..self }
    }
}

impl View for ProjectInfo {
    type V = ProjectInfoView;

    open spec fn view(&self) -> ProjectInfoView {
        ProjectInfoView {
            project_path: self.project_path.deep_view(),
            node_modules_path: self.node_modules_path.deep_view(),
            last_modified: self.last_modified,
            size_bytes: self.size_bytes,
            selected: self.selected,
        }
    }
}

impl DeepView for ProjectInfo {
    type V = ProjectInfoView;

    open spec fn deep_view(&self) -> ProjectInfoView {
        self@
    }
}

/// Whole days between `modified` and `now`, both in seconds; zero when
/// `modified` lies in the future.
pub open spec fn age_in_days(now: u64, modified: u64) -> u64 {
    if now >= modified {
        ((now - modified) / 86400) as u64
    } else {
        0
    }
}

impl Clone for ProjectInfo {
    fn clone(&self) -> (copy: Self)
        ensures
            copy@ == self@,
    {
        ProjectInfo {
            project_path: clone_path(&self.project_path),
            node_modules_path: clone_path(&self.node_modules_path),
            last_modified: self.last_modified,
            size_bytes: self.size_bytes,
            selected: self.selected,
        }
    }
}

impl ProjectInfo {
    /// The age of the cache directory at the time `now`, in whole days.
    pub fn days_old(&self, now: u64) -> (days: u64)
        ensures
            days == age_in_days(now, self.last_modified),
    {
        if now >= self.last_modified {
            (now - self.last_modified) / 86400
        } else {
            0
        }
    }
}

} // verus!
