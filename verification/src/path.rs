//! Paths as sequences of component names.
//!
//! A path is held as the list of its components, outermost first; the last
//! component is the entry's own name. The model of a path is the sequence of
//! its components, each a sequence of characters.

use vstd::prelude::*;

verus! {

/// The name that marks a dependency cache directory.
pub open spec fn cache_name() -> Seq<char> {
    "node_modules"@
}

/// A name is hidden when it starts with a dot.
pub open spec fn is_hidden_name(name: Seq<char>) -> bool {
    name.len() > 0 && name[0] == '.'
}

/// The names of the system directories that hold no projects.
pub open spec fn is_system_name(name: Seq<char>) -> bool {
    name == "Library"@ || name == "System"@
}

/// A walk neither yields nor descends into an entry with such a name.
pub open spec fn is_pruned_name(name: Seq<char>) -> bool {
    is_hidden_name(name) || is_system_name(name)
}

/// `dir` is a proper ancestor of `path`: `path` continues `dir` by at least
/// one component.
pub open spec fn is_strictly_under(path: Seq<Seq<char>>, dir: Seq<Seq<char>>) -> bool {
    dir.len() < path.len() && path.take(dir.len() as int) == dir
}

/// Some proper ancestor of `path` is a cache directory by its name.
pub open spec fn has_cache_ancestor(path: Seq<Seq<char>>) -> bool {
    exists|i: int| 0 <= i < path.len() - 1 && #[trigger] path[i] == cache_name()
}

/// A walk need not go into the directory at `path`: its name is pruned, and
/// it does not lie inside a cache directory, where every file counts.
pub open spec fn is_skipped(path: Seq<Seq<char>>) -> bool {
    path.len() > 0 && is_pruned_name(path.last()) && !has_cache_ancestor(path)
}

/// The names that the rules of a walk speak of, built once for a whole walk.
pub struct NameRules {
    cache: String,
    library: String,
    system: String,
}

impl NameRules {
    /// The name by which these rules know a cache directory.
    pub closed spec fn cache_directory(&self) -> Seq<char> {
        self.cache@
    }

    /// The names by which these rules know the system directories.
    pub closed spec fn system_directories(&self) -> Seq<Seq<char>> {
        seq![self.library@, self.system@]
    }

    /// The three names are the ones the rules name.
    #[verifier::type_invariant]
    closed spec fn well_formed(&self) -> bool {
        &&& self.cache@ == cache_name()
        &&& self.library@ == "Library"@
        &&& self.system@ == "System"@
    }

    /// The rules, holding the name of a cache directory and the names of
    /// the two system directories.
    pub fn new() -> (rules: Self)
        ensures
            rules.cache_directory() == cache_name(),
            rules.system_directories() == seq!["Library"@, "System"@],
    {
        NameRules {
            cache: "node_modules".to_owned(),
            library: "Library".to_owned(),
            system: "System".to_owned(),
        }
    }

    /// Whether a walk skips an entry of this name.
    pub fn prunes(&self, name: &String) -> (pruned: bool)
        ensures
            pruned == is_pruned_name(name@),
    {
        proof {
            use_type_invariant(self);
        }
        if !name.as_str().is_empty() && name.as_str().get_char(0) == '.' {
            true
        } else {
            *name == self.library || *name == self.system
        }
    }

    /// Whether this is the name of a cache directory.
    pub fn names_cache(&self, name: &String) -> (named: bool)
        ensures
            named == (name@ == cache_name()),
    {
        proof {
            use_type_invariant(self);
        }
        *name == self.cache
    }

    /// Whether a proper ancestor of `path` bears the name of a cache
    /// directory.
    pub fn finds_cache_ancestor(&self, path: &Vec<String>) -> (found: bool)
        ensures
            found == has_cache_ancestor(path.deep_view()),
    {
        if path.len() == 0 {
            return false;
        }
        let last = path.len() - 1;
        let mut i: usize = 0;
        while i < last
            invariant
                last == path.len() - 1,
                i <= last,
                forall|j: int| 0 <= j < i ==> path.deep_view()[j] != cache_name(),
            decreases last - i,
        {
            if self.names_cache(&path[i]) {
                assert(path.deep_view()[i as int] == cache_name());
                return true;
            }
            i += 1;
        }
        false
    }

    /// Whether a walk may leave out the entry at `path` and all below it.
    pub fn skips(&self, path: &Vec<String>) -> (skipped: bool)
        ensures
            skipped == is_skipped(path.deep_view()),
    {
        if path.len() == 0 {
            return false;
        }
        self.prunes(&path[path.len() - 1]) && !self.finds_cache_ancestor(path)
    }
}

/// Whether the two paths have the same components.
pub fn same_path(a: &Vec<String>, b: &Vec<String>) -> (same: bool)
    ensures
        same == (a.deep_view() == b.deep_view()),
{
    if a.len() != b.len() {
        assert(a.deep_view().len() != b.deep_view().len());
        return false;
    }
    let mut i: usize = 0;
    while i < a.len()
        invariant
            a.len() == b.len(),
            i <= a.len(),
            forall|j: int| 0 <= j < i ==> a[j]@ == b[j]@,
        decreases a.len() - i,
    {
        if a[i] != b[i] {
            assert(a.deep_view()[i as int] != b.deep_view()[i as int]);
            return false;
        }
        i += 1;
    }
    assert(a.deep_view() =~= b.deep_view());
    true
}

/// Whether `dir` is a proper ancestor of `path`.
pub fn lies_strictly_under(path: &Vec<String>, dir: &Vec<String>) -> (under: bool)
    ensures
        under == is_strictly_under(path.deep_view(), dir.deep_view()),
{
    if dir.len() >= path.len() {
        return false;
    }
    let mut i: usize = 0;
    while i < dir.len()
        invariant
            dir.len() < path.len(),
            i <= dir.len(),
            forall|j: int| 0 <= j < i ==> path[j]@ == dir[j]@,
        decreases dir.len() - i,
    {
        if path[i] != dir[i] {
            assert(path.deep_view().take(dir.len() as int)[i as int] != dir.deep_view()[i as int]);
            return false;
        }
        i += 1;
    }
    assert(path.deep_view().take(dir.len() as int) =~= dir.deep_view());
    true
}

/// A copy of a path.
pub fn clone_path(path: &Vec<String>) -> (copy: Vec<String>)
    ensures
        copy.deep_view() == path.deep_view(),
{
    let mut copy: Vec<String> = Vec::new();
    let mut i: usize = 0;
    while i < path.len()
        invariant
            i <= path.len(),
            copy.len() == i,
            forall|j: int| 0 <= j < i ==> copy[j]@ == path[j]@,
        decreases path.len() - i,
    {
        copy.push(path[i].clone());
        i += 1;
    }
    copy
}

} // verus!
