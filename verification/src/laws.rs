//! What holds of every scan and of every session.

use vstd::prelude::*;
use crate::cleaner::CleanerView;
use crate::path::cache_name;
use crate::path::has_cache_ancestor;
use crate::path::is_pruned_name;
use crate::path::is_skipped;
use crate::path::is_strictly_under;
use crate::project::ProjectInfoView;
use crate::ranking::has_size;
use crate::ranking::have_distinct_paths;
use crate::ranking::is_sorted_by_size;
use crate::ranking::lemma_sort_is_stable;
use crate::ranking::lemma_sort_keeps_paths_distinct;
use crate::scanner::detected_by;
use crate::scanner::dir_size;
use crate::scanner::discovered;
use crate::scanner::is_detected;
use crate::scanner::is_file_under;
use crate::scanner::lemma_discovered_members;
use crate::scanner::lemma_files_total_of_kept;
use crate::scanner::lemma_scan_result_is_fresh;
use crate::scanner::lemma_scan_result_members;
use crate::scanner::none_inside_another;
use crate::scanner::progress_names;
use crate::scanner::project_of;
use crate::scanner::reached;
use crate::scanner::scan_result;
use crate::scanner::sized_by_files;
use crate::selection::among;
use crate::selection::eligible_by;
use crate::selection::gone;
use crate::selection::is_eligible;
use crate::selection::is_gone;
use crate::selection::is_selected_path;
use crate::selection::lemma_total_size_push;
use crate::selection::marked_as_in;
use crate::selection::none_marked;
use crate::selection::not_gone;
use crate::selection::refilter;
use crate::selection::remains;
use crate::selection::selected;
use crate::selection::shown_are_sorted;
use crate::selection::total_size;
use crate::selection::unmarked;
use crate::seq_facts::lemma_filter_agree;
use crate::seq_facts::lemma_filter_keeps_keys_distinct;
use crate::seq_facts::lemma_filter_members;
use crate::seq_facts::lemma_filter_twice;
use crate::walk::is_one_walk;
use crate::walk::not_cut_off;
use crate::walk::WalkEntryView;

verus! {

/// Every directory of a scan result is what is reported of an entry of the
/// walk that is detected.
pub proof fn scan_reports_detected_entries(
    entries: Seq<WalkEntryView>,
    threshold: u32,
    now: u64,
    i: int,
) -> (k: int)
    requires
        0 <= i < scan_result(entries, threshold, now).len(),
    ensures
        0 <= k < entries.len(),
        is_detected(entries[k], threshold, now),
        scan_result(entries, threshold, now)[i] == project_of(entries, entries[k]),
{
    let p = scan_result(entries, threshold, now)[i];
    lemma_scan_result_members(entries, threshold, now, p);
    lemma_discovered_members(entries, threshold, now, p);
    choose|k: int|
        0 <= k < entries.len() && is_detected(#[trigger] entries[k], threshold, now) && p
            == project_of(entries, entries[k])
}

/// Every entry of the walk that is detected is in the scan result.
pub proof fn scan_reports_every_detected_entry(
    entries: Seq<WalkEntryView>,
    threshold: u32,
    now: u64,
    k: int,
)
    requires
        0 <= k < entries.len(),
        is_detected(entries[k], threshold, now),
    ensures
        scan_result(entries, threshold, now).contains(project_of(entries, entries[k])),
{
    let p = project_of(entries, entries[k]);
    lemma_scan_result_members(entries, threshold, now, p);
    lemma_discovered_members(entries, threshold, now, p);
}

/// No cache directory of a scan result lies inside another one of the
/// result.
pub proof fn no_candidate_inside_another(
    entries: Seq<WalkEntryView>,
    threshold: u32,
    now: u64,
    i: int,
    j: int,
)
    requires
        0 <= i < scan_result(entries, threshold, now).len(),
        0 <= j < scan_result(entries, threshold, now).len(),
    ensures
        !is_strictly_under(
            scan_result(entries, threshold, now)[j].node_modules_path,
            scan_result(entries, threshold, now)[i].node_modules_path,
        ),
{
    let result = scan_result(entries, threshold, now);
    let outer = result[i].node_modules_path;
    let inner = result[j].node_modules_path;
    scan_reports_detected_entries(entries, threshold, now, i);
    scan_reports_detected_entries(entries, threshold, now, j);
    if is_strictly_under(inner, outer) {
        // The outer directory is an ancestor with the name of a cache
        // directory, so the inner one is not detected.
        assert(inner[outer.len() - 1] == outer.last());
        assert(has_cache_ancestor(inner));
    }
}

/// Of every scan result: no directory lies inside another, each has the
/// size of the regular files that the walk saw below it, the largest come
/// first, and none is marked.
pub proof fn scan_result_is_sound(entries: Seq<WalkEntryView>, threshold: u32, now: u64)
    ensures
        none_inside_another(scan_result(entries, threshold, now)),
        sized_by_files(entries, scan_result(entries, threshold, now)),
        is_sorted_by_size(scan_result(entries, threshold, now)),
        none_marked(scan_result(entries, threshold, now)),
{
    let result = scan_result(entries, threshold, now);
    assert forall|i: int, j: int| 0 <= i < result.len() && 0 <= j < result.len() implies
        !is_strictly_under(
        (#[trigger] result[j]).node_modules_path,
        (#[trigger] result[i]).node_modules_path,
    ) by {
        no_candidate_inside_another(entries, threshold, now, i, j);
    }
    assert forall|i: int| 0 <= i < result.len() implies (#[trigger] result[i]).size_bytes
        == dir_size(entries, result[i].node_modules_path) by {
        candidate_is_sized_by_its_files(entries, threshold, now, i);
    }
    lemma_scan_result_is_fresh(entries, threshold, now);
}

/// No two entries of the walk have the same path.
pub open spec fn walk_paths_are_distinct(entries: Seq<WalkEntryView>) -> bool {
    forall|i: int, j: int|
        0 <= i < j < entries.len() ==> (#[trigger] entries[i]).path != (#[trigger] entries[j]).path
}

/// Where no two entries of the walk have the same path, no two directories
/// of the scan result have.
pub proof fn candidates_are_unique_by_path(entries: Seq<WalkEntryView>, threshold: u32, now: u64)
    requires
        walk_paths_are_distinct(entries),
    ensures
        have_distinct_paths(scan_result(entries, threshold, now)),
{
    let detected = entries.filter(detected_by(threshold, now));
    let found = discovered(entries, threshold, now);
    lemma_filter_keeps_keys_distinct(
        entries,
        detected_by(threshold, now),
        |e: WalkEntryView| e.path,
    );
    assert forall|i: int, j: int| 0 <= i < j < found.len() implies (
    #[trigger] found[i]).node_modules_path != (#[trigger] found[j]).node_modules_path by {
        assert(found[i].node_modules_path == detected[i].path);
        assert(found[j].node_modules_path == detected[j].path);
    }
    lemma_sort_keeps_paths_distinct(found);
}

/// An entry below a cache directory that the walk comes to is not cut off.
proof fn lemma_files_of_a_cache_are_kept(c: WalkEntryView, x: WalkEntryView)
    requires
        c.path.len() > 0,
        c.is_reached(),
        c.path.last() == cache_name(),
        is_strictly_under(x.path, c.path),
        c.walk_start() == x.walk_start(),
    ensures
        !x.is_cut_off(),
{
    if x.is_cut_off() {
        let m = choose|m: int|
            x.walk_start() <= m < x.path.len() && is_skipped(#[trigger] x.path.take(m + 1));
        if m < c.path.len() {
            // The name that is skipped is one of `c`'s own path, at or below
            // the root, so the walk does not come to `c`.
            assert(is_pruned_name(c.path[m]));
        } else {
            // What is skipped lies inside `c`, a cache directory.
            assert(has_cache_ancestor(x.path.take(m + 1)));
        }
    }
}

/// A walk may leave out every directory that `NameRules::skips` names, and
/// all below it: the scan finds the same directories, with the same sizes,
/// and reports the same progress.
pub proof fn skipped_entries_can_be_left_out(
    entries: Seq<WalkEntryView>,
    threshold: u32,
    now: u64,
)
    requires
        is_one_walk(entries),
    ensures
        scan_result(entries.filter(not_cut_off()), threshold, now) == scan_result(
            entries,
            threshold,
            now,
        ),
        progress_names(entries.filter(not_cut_off())) == progress_names(entries),
{
    let kept = entries.filter(not_cut_off());
    let detects = detected_by(threshold, now);
    // What is cut off is not reached, so it is neither detected nor counted.
    assert forall|i: int| 0 <= i < entries.len() && (#[trigger] entries[i]).is_reached() implies
        !entries[i].is_cut_off() by {
        let e = entries[i];
        if e.is_cut_off() {
            let m = choose|m: int|
                e.walk_start() <= m < e.path.len() && is_skipped(#[trigger] e.path.take(m + 1));
            assert(is_pruned_name(e.path[m]));
        }
    }
    lemma_filter_twice(entries, not_cut_off(), detects);
    lemma_filter_agree(
        entries,
        |e: WalkEntryView| not_cut_off()(e) && detects(e),
        detects,
    );
    lemma_filter_twice(entries, not_cut_off(), reached());
    lemma_filter_agree(
        entries,
        |e: WalkEntryView| not_cut_off()(e) && reached()(e),
        reached(),
    );
    // Below a detected directory nothing is cut off, so its size is the same.
    let detected = entries.filter(detects);
    assert forall|i: int| 0 <= i < detected.len() implies project_of(kept, #[trigger] detected[i])
        == project_of(entries, detected[i]) by {
        let c = detected[i];
        lemma_filter_members(entries, detects, c);
        assert forall|j: int|
            0 <= j < entries.len() && is_file_under(#[trigger] entries[j], c.path) implies
            not_cut_off()(entries[j]) by {
            lemma_files_of_a_cache_are_kept(c, entries[j]);
        }
        lemma_files_total_of_kept(entries, not_cut_off(), c.path);
    }
    assert(discovered(kept, threshold, now) =~= discovered(entries, threshold, now));
}

/// Every directory of a scan result bears the name of a cache directory,
/// lies directly in its project directory, is unmarked, and has as its size
/// the sum of the sizes of the regular files that the walk saw below it
/// (the largest number that fits, where the sum does not).
pub proof fn candidate_is_sized_by_its_files(
    entries: Seq<WalkEntryView>,
    threshold: u32,
    now: u64,
    i: int,
)
    requires
        0 <= i < scan_result(entries, threshold, now).len(),
    ensures
        ({
            let p = scan_result(entries, threshold, now)[i];
            &&& p.size_bytes == dir_size(entries, p.node_modules_path)
            &&& p.node_modules_path.len() > 0
            &&& p.node_modules_path.last() == cache_name()
            &&& p.project_path == p.node_modules_path.drop_last()
            &&& !p.selected
        }),
{
    scan_reports_detected_entries(entries, threshold, now, i);
}

/// A scan result is sorted by size, largest first, and the directories of
/// any one size stand in it in the order in which the walk discovered them.
pub proof fn scan_result_is_stably_sorted(
    entries: Seq<WalkEntryView>,
    threshold: u32,
    now: u64,
    size: u64,
)
    ensures
        is_sorted_by_size(scan_result(entries, threshold, now)),
        scan_result(entries, threshold, now).filter(has_size(size)) == discovered(
            entries,
            threshold,
            now,
        ).filter(has_size(size)),
{
    lemma_scan_result_is_fresh(entries, threshold, now);
    lemma_sort_is_stable(discovered(entries, threshold, now), size);
}

/// In every session whose lists fit together, the shown directories are
/// sorted by size, largest first, and those of any one size stand in the
/// order in which the scan result holds them.
pub proof fn shown_directories_are_sorted(s: CleanerView, size: u64)
    requires
        s.well_formed(),
    ensures
        is_sorted_by_size(s.projects),
        unmarked(s.projects).filter(has_size(size)) == s.all_projects.filter(
            has_size(size),
        ).filter(among(unmarked(s.projects))),
{
    let bare = unmarked(s.projects);
    let all = s.all_projects;
    shown_are_sorted(s.projects, all);
    lemma_filter_twice(all, among(bare), has_size(size));
    lemma_filter_twice(all, has_size(size), among(bare));
    lemma_filter_agree(
        all,
        |p: ProjectInfoView| among(bare)(p) && has_size(size)(p),
        |p: ProjectInfoView| has_size(size)(p) && among(bare)(p),
    );
}

/// Whether a path is marked among the shown directories does not change
/// when the shown directories are determined anew, as long as a directory
/// of that path is still shown.
proof fn lemma_marks_kept(
    all: Seq<ProjectInfoView>,
    visible: Seq<ProjectInfoView>,
    threshold: u32,
    enabled: bool,
    now: u64,
    i: int,
)
    requires
        0 <= i < all.filter(eligible_by(threshold, enabled, now)).len(),
    ensures
        ({
            let kept = all.filter(eligible_by(threshold, enabled, now));
            is_selected_path(
                refilter(all, visible, threshold, enabled, now),
                kept[i].node_modules_path,
            ) == is_selected_path(visible, kept[i].node_modules_path)
        }),
{
    let kept = all.filter(eligible_by(threshold, enabled, now));
    let shown = refilter(all, visible, threshold, enabled, now);
    let path = kept[i].node_modules_path;
    if is_selected_path(visible, path) {
        assert(shown[i].node_modules_path == path && shown[i].selected);
    }
    if is_selected_path(shown, path) {
        let j = choose|j: int|
            0 <= j < shown.len() && (#[trigger] shown[j]).node_modules_path == path
                && shown[j].selected;
        assert(shown[j] == marked_as_in(visible)(kept[j]));
    }
}

/// To determine the shown directories a second time, with nothing changed
/// in between, changes nothing: not what is shown, not a mark, not the
/// message.
pub proof fn filtering_twice_is_filtering_once(s: CleanerView, now: u64)
    ensures
        s.filtered(now).filtered(now) == s.filtered(now),
{
    let threshold = s.config.threshold_days;
    let enabled = s.threshold_enabled;
    let kept = s.all_projects.filter(eligible_by(threshold, enabled, now));
    let once = refilter(s.all_projects, s.projects, threshold, enabled, now);
    let twice = refilter(s.all_projects, once, threshold, enabled, now);
    assert forall|i: int| 0 <= i < kept.len() implies once[i] == twice[i] by {
        lemma_marks_kept(s.all_projects, s.projects, threshold, enabled, now, i);
    }
    assert(once =~= twice);
}

/// A directory that is shown and marked stays marked when the age filter is
/// switched off and on again, if it passes the filter when that is switched
/// on.
pub proof fn mark_survives_switching_the_filter(
    s: CleanerView,
    c: ProjectInfoView,
    off_at: u64,
    on_at: u64,
)
    requires
        s.well_formed(),
        s.threshold_enabled,
        s.projects.contains(c),
        c.selected,
        is_eligible(c, s.config.threshold_days, true, on_at),
    ensures
        s.threshold_toggled(off_at).threshold_toggled(on_at).projects.contains(c),
{
    let threshold = s.config.threshold_days;
    let all = s.all_projects;
    let bare = unmarked(s.projects);
    let i = choose|i: int| 0 <= i < s.projects.len() && s.projects[i] == c;
    assert(bare[i] == c.marked(false));
    lemma_filter_members(all, among(bare), c.marked(false));
    let k = choose|k: int| 0 <= k < all.len() && all[k] == c.marked(false);
    // With the filter off, every scanned directory is shown.
    let off = s.threshold_toggled(off_at);
    let everything = eligible_by(threshold, false, off_at);
    lemma_filter_members(all, everything, all[k]);
    let kept_off = all.filter(everything);
    let a = choose|a: int| 0 <= a < kept_off.len() && kept_off[a] == all[k];
    assert(off.projects[a] == c);
    // With the filter on again, what passes it is shown.
    let on = off.threshold_toggled(on_at);
    let passing = eligible_by(threshold, true, on_at);
    lemma_filter_members(all, passing, all[k]);
    let kept_on = all.filter(passing);
    let b = choose|b: int| 0 <= b < kept_on.len() && kept_on[b] == all[k];
    assert(on.projects[b] == c);
}

/// After a deletion, a marked directory whose path is not among the
/// deleted ones is still shown and still marked. A marked directory whose
/// path is among them is shown no more, and no directory of its path is left
/// in the scan result.
pub proof fn deletion_keeps_what_failed(
    s: CleanerView,
    deleted: Seq<Seq<Seq<char>>>,
    c: ProjectInfoView,
)
    requires
        s.projects.contains(c),
        c.selected,
    ensures
        !deleted.contains(c.node_modules_path) ==> s.deleted(deleted).projects.contains(c),
        deleted.contains(c.node_modules_path) ==> !s.deleted(deleted).projects.contains(c),
        deleted.contains(c.node_modules_path) ==> forall|k: int|
            0 <= k < s.deleted(deleted).all_projects.len() ==> (#[trigger] s.deleted(
                deleted,
            ).all_projects[k]).node_modules_path != c.node_modules_path,
{
    lemma_filter_members(s.projects, not_gone(deleted), c);
    if deleted.contains(c.node_modules_path) {
        assert(is_selected_path(s.projects, c.node_modules_path));
        let rest = s.deleted(deleted).all_projects;
        assert forall|k: int| 0 <= k < rest.len() implies (#[trigger] rest[k]).node_modules_path
            != c.node_modules_path by {
            lemma_filter_members(s.all_projects, remains(s.projects, deleted), rest[k]);
        }
    }
}

/// A deletion accounts for every marked directory and every byte: the
/// marked directories are the deleted and the failed ones together, and
/// the sizes of what is deleted and of what is left add up to the sizes of
/// what was shown.
pub proof fn deletion_accounts_for_everything(s: CleanerView, deleted: Seq<Seq<Seq<char>>>)
    ensures
        s.projects.filter(gone(deleted)).len() + s.deleted(deleted).projects.filter(
            selected(),
        ).len() == s.projects.filter(selected()).len(),
        s.projects.filter(gone(deleted)).len() + s.deleted(deleted).projects.len()
            == s.projects.len(),
        total_size(s.projects.filter(gone(deleted))) + total_size(s.deleted(deleted).projects)
            == total_size(s.projects),
{
    lemma_gone_and_left(s.projects, deleted);
}

/// What is gone and what is left make up what was shown.
proof fn lemma_gone_and_left(visible: Seq<ProjectInfoView>, deleted: Seq<Seq<Seq<char>>>)
    ensures
        visible.filter(gone(deleted)).len() + visible.filter(not_gone(deleted)).filter(
            selected(),
        ).len() == visible.filter(selected()).len(),
        visible.filter(gone(deleted)).len() + visible.filter(not_gone(deleted)).len()
            == visible.len(),
        total_size(visible.filter(gone(deleted))) + total_size(
            visible.filter(not_gone(deleted)),
        ) == total_size(visible),
    decreases visible.len(),
{
    reveal(Seq::filter);
    if visible.len() > 0 {
        let rest = visible.drop_last();
        let last = visible.last();
        lemma_gone_and_left(rest, deleted);
        if is_gone(last, deleted) {
            lemma_total_size_push(rest.filter(gone(deleted)), last);
        } else {
            rest.filter(not_gone(deleted)).lemma_filter_push(last, selected());
            lemma_total_size_push(rest.filter(not_gone(deleted)), last);
        }
    }
}

} // verus!
