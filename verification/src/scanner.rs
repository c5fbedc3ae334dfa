//! The scan: which entries of a walk are cache directories worth reporting,
//! how large each is, and in which order they are reported.

use vstd::prelude::*;
use crate::laws::scan_result_is_sound;
use crate::path::cache_name;
use crate::path::clone_path;
use crate::path::has_cache_ancestor;
use crate::path::is_strictly_under;
use crate::path::lies_strictly_under;
use crate::path::NameRules;
use crate::project::age_in_days;
use crate::project::ProjectInfo;
use crate::project::ProjectInfoView;
use crate::ranking::insert_sorted;
use crate::ranking::is_sorted_by_size;
use crate::ranking::lemma_sort_is_sorted;
use crate::ranking::lemma_sort_members;
use crate::ranking::sort_by_size;
use crate::selection::none_marked;
use crate::seq_facts::lemma_filter_members;
use crate::walk::EntryKind;
use crate::walk::WalkEntry;
use crate::walk::WalkEntryView;

verus! {

/// Of the entries that a walk comes to, every tenth is reported as progress.
pub const PROGRESS_INTERVAL: usize = 10;

/// The entry is a cache directory to report: the walk comes to it, it is a
/// directory with the name of a cache directory, no ancestor bears that name,
/// its modification time is known, and it is at least `threshold` days old.
pub open spec fn is_detected(e: WalkEntryView, threshold: u32, now: u64) -> bool {
    &&& e.path.len() > 0
    &&& e.is_reached()
    &&& !has_cache_ancestor(e.path)
    &&& e.path.last() == cache_name()
    &&& e.kind == EntryKind::Directory
    &&& e.modified matches Some(modified) && age_in_days(now, modified) >= threshold
}

/// The entry is a regular file somewhere below `dir`.
pub open spec fn is_file_under(e: WalkEntryView, dir: Seq<Seq<char>>) -> bool {
    e.kind == EntryKind::File && is_strictly_under(e.path, dir)
}

/// The sum of the sizes of the regular files below `dir`.
pub open spec fn files_total(entries: Seq<WalkEntryView>, dir: Seq<Seq<char>>) -> nat
    decreases entries.len(),
{
    if entries.len() == 0 {
        0
    } else {
        let rest = files_total(entries.drop_last(), dir);
        if is_file_under(entries.last(), dir) {
            rest + entries.last().size as nat
        } else {
            rest
        }
    }
}

/// The size of a directory: the sum of the sizes of the regular files below
/// it, or the largest number that fits where the sum does not.
pub open spec fn dir_size(entries: Seq<WalkEntryView>, dir: Seq<Seq<char>>) -> u64 {
    if files_total(entries, dir) <= u64::MAX {
        files_total(entries, dir) as u64
    } else {
        u64::MAX
    }
}

/// What is reported of a detected entry.
pub open spec fn project_of(entries: Seq<WalkEntryView>, e: WalkEntryView) -> ProjectInfoView {
    ProjectInfoView {
        project_path: e.path.drop_last(),
        node_modules_path: e.path,
        last_modified: e.modified.unwrap(),
        size_bytes: dir_size(entries, e.path),
        selected: false,
    }
}

pub open spec fn detected_by(threshold: u32, now: u64) -> spec_fn(WalkEntryView) -> bool {
    |e: WalkEntryView| is_detected(e, threshold, now)
}

pub open spec fn described_in(entries: Seq<WalkEntryView>) -> spec_fn(WalkEntryView) ->
    ProjectInfoView {
    |e: WalkEntryView| project_of(entries, e)
}

/// The cache directories among `part`, in the order of the walk, each with
/// its size in the whole walk `entries`.
pub open spec fn discovered_among(
    entries: Seq<WalkEntryView>,
    part: Seq<WalkEntryView>,
    threshold: u32,
    now: u64,
) -> Seq<ProjectInfoView> {
    part.filter(detected_by(threshold, now)).map_values(described_in(entries))
}

/// The cache directories of a walk, in the order of the walk.
pub open spec fn discovered(entries: Seq<WalkEntryView>, threshold: u32, now: u64) -> Seq<
    ProjectInfoView,
> {
    discovered_among(entries, entries, threshold, now)
}

/// The result of a scan: the cache directories of the walk, largest first,
/// equal sizes in the order of the walk.
pub open spec fn scan_result(entries: Seq<WalkEntryView>, threshold: u32, now: u64) -> Seq<
    ProjectInfoView,
> {
    sort_by_size(discovered(entries, threshold, now))
}

/// No directory of the list lies inside another one of the list.
pub open spec fn none_inside_another(s: Seq<ProjectInfoView>) -> bool {
    forall|i: int, j: int|
        0 <= i < s.len() && 0 <= j < s.len() ==> !is_strictly_under(
            (#[trigger] s[j]).node_modules_path,
            (#[trigger] s[i]).node_modules_path,
        )
}

/// Every directory of the list has as its size the size of the regular
/// files that the walk saw below it.
pub open spec fn sized_by_files(entries: Seq<WalkEntryView>, s: Seq<ProjectInfoView>) -> bool {
    forall|i: int|
        0 <= i < s.len() ==> (#[trigger] s[i]).size_bytes == dir_size(
            entries,
            s[i].node_modules_path,
        )
}

pub open spec fn reached() -> spec_fn(WalkEntryView) -> bool {
    |e: WalkEntryView| e.is_reached()
}

/// The names that a scan reports as progress: of the entries that the walk
/// comes to, the name of every tenth.
pub open spec fn progress_names(entries: Seq<WalkEntryView>) -> Seq<Seq<char>> {
    let visited = entries.filter(reached());
    Seq::new(
        visited.len() / (PROGRESS_INTERVAL as nat),
        |k: int| visited[PROGRESS_INTERVAL * k + PROGRESS_INTERVAL - 1].name(),
    )
}

/// One more entry adds its cache directory, if it is one, at the end.
pub proof fn lemma_discovered_among_push(
    entries: Seq<WalkEntryView>,
    part: Seq<WalkEntryView>,
    e: WalkEntryView,
    threshold: u32,
    now: u64,
)
    ensures
        discovered_among(entries, part.push(e), threshold, now) == if is_detected(
            e,
            threshold,
            now,
        ) {
            discovered_among(entries, part, threshold, now).push(project_of(entries, e))
        } else {
            discovered_among(entries, part, threshold, now)
        },
{
    part.lemma_filter_push(e, detected_by(threshold, now));
}

/// One more entry adds its name to the progress where it is the tenth that
/// the walk comes to since the last name.
pub proof fn lemma_progress_names_push(seen: Seq<WalkEntryView>, e: WalkEntryView)
    ensures
        progress_names(seen.push(e)) == if e.is_reached() && (seen.filter(reached()).len() + 1)
            % (PROGRESS_INTERVAL as nat) == 0 {
            progress_names(seen).push(e.name())
        } else {
            progress_names(seen)
        },
{
    seen.lemma_filter_push(e, reached());
    let before = seen.filter(reached());
    let after = seen.push(e).filter(reached());
    if e.is_reached() {
        // The names that were reported stay where they are.
        assert forall|k: int| 0 <= k < before.len() / 10 implies #[trigger] after[10 * k + 9]
            == before[10 * k + 9] by {}
    }
}

/// Entries that are no regular files below `dir` can be left out of the
/// walk without changing the size of `dir`.
pub proof fn lemma_files_total_of_kept(
    entries: Seq<WalkEntryView>,
    keep: spec_fn(WalkEntryView) -> bool,
    dir: Seq<Seq<char>>,
)
    requires
        forall|i: int|
            0 <= i < entries.len() && is_file_under(#[trigger] entries[i], dir) ==> keep(
                entries[i],
            ),
    ensures
        files_total(entries.filter(keep), dir) == files_total(entries, dir),
    decreases entries.len(),
{
    reveal(Seq::filter);
    if entries.len() > 0 {
        let rest = entries.drop_last();
        assert forall|i: int| 0 <= i < rest.len() && is_file_under(
            #[trigger] rest[i],
            dir,
        ) implies keep(rest[i]) by {
            assert(rest[i] == entries[i]);
        }
        lemma_files_total_of_kept(rest, keep, dir);
        if keep(entries.last()) {
            assert(rest.filter(keep).push(entries.last()).drop_last() == rest.filter(keep));
        }
    }
}

/// A directory is discovered exactly when it is what is reported of a
/// detected entry of the walk.
pub proof fn lemma_discovered_members(
    entries: Seq<WalkEntryView>,
    threshold: u32,
    now: u64,
    p: ProjectInfoView,
)
    ensures
        discovered(entries, threshold, now).contains(p) <==> exists|k: int|
            0 <= k < entries.len() && is_detected(#[trigger] entries[k], threshold, now) && p
                == project_of(entries, entries[k]),
{
    let detected = entries.filter(detected_by(threshold, now));
    let found = discovered(entries, threshold, now);
    if found.contains(p) {
        let i = choose|i: int| 0 <= i < found.len() && found[i] == p;
        lemma_filter_members(entries, detected_by(threshold, now), detected[i]);
        let k = choose|k: int| 0 <= k < entries.len() && entries[k] == detected[i];
        assert(is_detected(entries[k], threshold, now) && p == project_of(entries, entries[k]));
    }
    if exists|k: int|
        0 <= k < entries.len() && is_detected(#[trigger] entries[k], threshold, now) && p
            == project_of(entries, entries[k]) {
        let k = choose|k: int|
            0 <= k < entries.len() && is_detected(#[trigger] entries[k], threshold, now) && p
                == project_of(entries, entries[k]);
        lemma_filter_members(entries, detected_by(threshold, now), entries[k]);
        let i = choose|i: int| 0 <= i < detected.len() && detected[i] == entries[k];
        assert(found[i] == p);
    }
}

/// Every directory of a scan result is one that the walk discovered, and
/// every discovered directory is in the result.
pub proof fn lemma_scan_result_members(
    entries: Seq<WalkEntryView>,
    threshold: u32,
    now: u64,
    p: ProjectInfoView,
)
    ensures
        scan_result(entries, threshold, now).contains(p) <==> discovered(
            entries,
            threshold,
            now,
        ).contains(p),
{
    lemma_sort_members(discovered(entries, threshold, now), p);
}

/// A scan result is sorted by size and bears no marks.
pub proof fn lemma_scan_result_is_fresh(entries: Seq<WalkEntryView>, threshold: u32, now: u64)
    ensures
        is_sorted_by_size(scan_result(entries, threshold, now)),
        none_marked(scan_result(entries, threshold, now)),
{
    let found = discovered(entries, threshold, now);
    let result = scan_result(entries, threshold, now);
    lemma_sort_is_sorted(found);
    assert forall|i: int| 0 <= i < result.len() implies !(#[trigger] result[i]).selected by {
        lemma_scan_result_members(entries, threshold, now, result[i]);
        let k = choose|k: int| 0 <= k < found.len() && found[k] == result[i];
        assert(!found[k].selected);
    }
}

/// Finds cache directories that are at least `threshold_days` old.
pub struct Scanner {
    threshold_days: u32,
}

impl Scanner {
    /// The age, in days, below which a directory is left out.
    pub closed spec fn threshold(&self) -> u32 {
        self.threshold_days
    }

    /// A scanner that reports the cache directories of at least this age.
    pub fn new(threshold_days: u32) -> (scanner: Self)
        ensures
            scanner.threshold() == threshold_days,
    {
        Self { threshold_days }
    }

    /// The cache directories of a walk that are old enough at the time `now`,
    /// largest first. None of them lies inside another, and each has the
    /// size of the regular files that the walk saw below it.
    pub fn scan(&self, entries: &Vec<WalkEntry>, now: u64) -> (projects: Vec<ProjectInfo>)
        ensures
            projects.deep_view() == scan_result(entries.deep_view(), self.threshold(), now),
            none_inside_another(projects.deep_view()),
            sized_by_files(entries.deep_view(), projects.deep_view()),
            is_sorted_by_size(projects.deep_view()),
            none_marked(projects.deep_view()),
    {
        let (projects, _) = self.scan_with_progress(entries, now);
        projects
    }

    /// The result of [`Scanner::scan`], and beside it the names to report as
    /// progress, in the order in which the walk came to them.
    pub fn scan_with_progress(&self, entries: &Vec<WalkEntry>, now: u64) -> (found: (
        Vec<ProjectInfo>,
        Vec<String>,
    ))
        ensures
            found.0.deep_view() == scan_result(entries.deep_view(), self.threshold(), now),
            found.1.deep_view() == progress_names(entries.deep_view()),
            none_inside_another(found.0.deep_view()),
            sized_by_files(entries.deep_view(), found.0.deep_view()),
            is_sorted_by_size(found.0.deep_view()),
            none_marked(found.0.deep_view()),
    {
        let rules = NameRules::new();
        let ghost all = entries.deep_view();
        let mut projects: Vec<ProjectInfo> = Vec::new();
        let mut names: Vec<String> = Vec::new();
        let mut processed: usize = 0;
        let mut i: usize = 0;
        proof {
            reveal(Seq::filter);
        }
        while i < entries.len()
            invariant
                all == entries.deep_view(),
                i <= entries.len(),
                processed == all.take(i as int).filter(reached()).len(),
                processed <= i,
                projects.deep_view() == sort_by_size(
                    discovered_among(all, all.take(i as int), self.threshold(), now),
                ),
                names.deep_view() == progress_names(all.take(i as int)),
            decreases entries.len() - i,
        {
            let entry = &entries[i];
            let ghost seen = all.take(i as int);
            proof {
                assert(all.take(i + 1) == seen.push(entry@));
                seen.lemma_filter_push(entry@, reached());
                lemma_discovered_among_push(all, seen, entry@, self.threshold(), now);
                lemma_progress_names_push(seen, entry@);
                // To sort one directory more is to insert it.
                let earlier = discovered_among(all, seen, self.threshold(), now);
                assert(earlier.push(project_of(all, entry@)).drop_last() == earlier);
            }
            if entry.is_reached(&rules) {
                processed += 1;
                if processed % PROGRESS_INTERVAL == 0 {
                    if entry.path.len() > 0 {
                        names.push(entry.path[entry.path.len() - 1].clone());
                    } else {
                        names.push(String::new());
                    }
                }
                if self.detects(&rules, entry, now) {
                    let size = Self::calculate_dir_size(entries, &entry.path);
                    let mut project_path = clone_path(&entry.path);
                    project_path.pop();
                    assert(project_path.deep_view() =~= entry@.path.drop_last());
                    let project = ProjectInfo {
                        project_path,
                        node_modules_path: clone_path(&entry.path),
                        last_modified: entry.modified.unwrap(),
                        size_bytes: size,
                        selected: false,
                    };
                    insert_sorted(&mut projects, project);
                }
            }
            i += 1;
        }
        assert(all.take(i as int) == all);
        proof {
            scan_result_is_sound(all, self.threshold(), now);
        }
        (projects, names)
    }

    /// Whether an entry that the walk comes to is a cache directory to report.
    fn detects(&self, rules: &NameRules, entry: &WalkEntry, now: u64) -> (detected: bool)
        requires
            entry@.is_reached(),
        ensures
            detected == is_detected(entry@, self.threshold(), now),
    {
        if entry.path.len() == 0 {
            return false;
        }
        if rules.finds_cache_ancestor(&entry.path) {
            return false;
        }
        if !rules.names_cache(&entry.path[entry.path.len() - 1]) {
            return false;
        }
        if entry.kind != EntryKind::Directory {
            return false;
        }
        match entry.modified {
            Some(modified) => {
                let days_old: u64 = if now >= modified {
                    (now - modified) / 86400
                } else {
                    0
                };
                days_old >= self.threshold_days as u64
            },
            None => false,
        }
    }

    /// The size of the directory `dir`: the sum of the sizes of the regular
    /// files that the walk saw below it, or the largest number that fits
    /// where the sum does not.
    pub fn calculate_dir_size(entries: &Vec<WalkEntry>, dir: &Vec<String>) -> (size: u64)
        ensures
            size == dir_size(entries.deep_view(), dir.deep_view()),
    {
        let ghost all = entries.deep_view();
        let mut size: u64 = 0;
        let mut i: usize = 0;
        while i < entries.len()
            invariant
                all == entries.deep_view(),
                i <= entries.len(),
                size == dir_size(all.take(i as int), dir.deep_view()),
            decreases entries.len() - i,
        {
            let entry = &entries[i];
            proof {
                assert(all.take(i + 1).drop_last() == all.take(i as int));
            }
            if entry.kind == EntryKind::File && lies_strictly_under(&entry.path, dir) {
                size = size.saturating_add(entry.size);
            }
            i += 1;
        }
        assert(all.take(i as int) == all);
        size
    }
}

} // verus!
