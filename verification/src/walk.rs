//! What a directory walk has seen: one record for each entry, in the order
//! in which the walk came upon them.

use vstd::prelude::*;
use crate::path::clone_path;
use crate::path::is_pruned_name;
use crate::path::is_skipped;
use crate::path::NameRules;

verus! {

/// What kind of entry a path names. A symbolic link is a link, whatever it
/// points to.
#[derive(Clone, Copy, Debug, PartialEq, Eq, Structural)]
pub enum EntryKind {
    File,
    Directory,
    Symlink,
    Other,
}

/// One entry of a directory walk.
#[derive(Debug, PartialEq, Eq)]
pub struct WalkEntry {
    /// The entry's path, component by component, the root's own components
    /// included.
    pub path: Vec<String>,
    /// How many levels below the root of the walk the entry lies; the root
    /// itself has depth zero.
    pub depth: usize,
    pub kind: EntryKind,
    /// The length of the entry in bytes.
    pub size: u64,
    /// When the entry was last modified, in seconds since the epoch; `None`
    /// where that could not be read.
    pub modified: Option<u64>,
}

/// The mathematical value of a [`WalkEntry`].
pub struct WalkEntryView {
    pub path: Seq<Seq<char>>,
    pub depth: nat,
    pub kind: EntryKind,
    pub size: u64,
    pub modified: Option<u64>,
}

impl View for WalkEntry {
    type V = WalkEntryView;

    open spec fn view(&self) -> WalkEntryView {
        WalkEntryView {
            path: self.path.deep_view(),
            depth: self.depth as nat,
            kind: self.kind,
            size: self.size,
            modified: self.modified,
        }
    }
}

impl DeepView for WalkEntry {
    type V = WalkEntryView;

    open spec fn deep_view(&self) -> WalkEntryView {
        self@
    }
}

impl Clone for WalkEntry {
    fn clone(&self) -> (copy: Self)
        ensures
            copy@ == self@,
    {
        WalkEntry {
            path: clone_path(&self.path),
            depth: self.depth,
            kind: self.kind,
            size: self.size,
            modified: self.modified,
        }
    }
}

impl WalkEntryView {
    /// The position in the path of the root's own name: the components from
    /// there on are names that the walk has met.
    pub open spec fn walk_start(self) -> int {
        if self.depth < self.path.len() {
            self.path.len() - 1 - self.depth
        } else {
            0
        }
    }

    /// A walk that prunes comes to this entry: neither the entry nor a
    /// directory between the root and the entry, the root included, has a
    /// name that is pruned.
    pub open spec fn is_reached(self) -> bool {
        forall|i: int|
            self.walk_start() <= i < self.path.len() ==> !is_pruned_name(#[trigger] self.path[i])
    }

    /// A walk that leaves out what it may skip does not come to this entry:
    /// the entry, or a directory between the root and the entry, is
    /// skipped.
    pub open spec fn is_cut_off(self) -> bool {
        exists|m: int|
            self.walk_start() <= m < self.path.len() && is_skipped(#[trigger] self.path.take(m + 1))
    }

    /// The entry's own name; empty for an entry without a path.
    pub open spec fn name(self) -> Seq<char> {
        if self.path.len() > 0 {
            self.path.last()
        } else {
            Seq::empty()
        }
    }
}

pub open spec fn not_cut_off() -> spec_fn(WalkEntryView) -> bool {
    |e: WalkEntryView| !e.is_cut_off()
}

/// The entries are those of one walk: the root's name stands at the same
/// position in every path.
pub open spec fn is_one_walk(entries: Seq<WalkEntryView>) -> bool {
    forall|i: int, j: int|
        0 <= i < entries.len() && 0 <= j < entries.len() ==> (#[trigger] entries[i]).walk_start()
            == (#[trigger] entries[j]).walk_start()
}

impl WalkEntry {
    /// Whether a walk that prunes comes to this entry.
    pub fn is_reached(&self, rules: &NameRules) -> (reached: bool)
        ensures
            reached == self@.is_reached(),
    {
        let len = self.path.len();
        let mut i: usize = if self.depth < len {
            len - 1 - self.depth
        } else {
            0
        };
        while i < len
            invariant
                len == self.path.len(),
                self@.walk_start() <= i,
                forall|j: int| self@.walk_start() <= j < i ==> !is_pruned_name(self@.path[j]),
            decreases len - i,
        {
            if rules.prunes(&self.path[i]) {
                assert(is_pruned_name(self@.path[i as int]));
                return false;
            }
            i += 1;
        }
        true
    }
}

} // verus!
