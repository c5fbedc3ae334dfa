//! Which of the scanned directories are shown, which are marked, and what
//! a deletion leaves: the rules of a session, stated on sequences.

use vstd::prelude::*;
use crate::path::clone_path;
use crate::path::same_path;
use crate::project::age_in_days;
use crate::project::ProjectInfo;
use crate::project::ProjectInfoView;
use crate::ranking::is_sorted_by_size;
use crate::seq_facts::lemma_filter_agree;
use crate::seq_facts::lemma_filter_map_commute;
use crate::seq_facts::lemma_filter_members;
use crate::seq_facts::lemma_filter_twice;

verus! {

/// The directory passes the age filter: the filter is off, or the directory
/// is at least `threshold` days old at the time `now`.
pub open spec fn is_eligible(p: ProjectInfoView, threshold: u32, enabled: bool, now: u64) -> bool {
    !enabled || age_in_days(now, p.last_modified) >= threshold
}

pub open spec fn eligible_by(threshold: u32, enabled: bool, now: u64) -> spec_fn(
    ProjectInfoView,
) -> bool {
    |p: ProjectInfoView| is_eligible(p, threshold, enabled, now)
}

/// A directory with this path is shown and marked.
pub open spec fn is_selected_path(visible: Seq<ProjectInfoView>, path: Seq<Seq<char>>) -> bool {
    exists|i: int|
        0 <= i < visible.len() && (#[trigger] visible[i]).node_modules_path == path
            && visible[i].selected
}

/// A directory, marked as its path is marked in `visible`.
pub open spec fn marked_as_in(visible: Seq<ProjectInfoView>) -> spec_fn(ProjectInfoView) ->
    ProjectInfoView {
    |p: ProjectInfoView| p.marked(is_selected_path(visible, p.node_modules_path))
}

/// The directories to show: those of `all` that pass the age filter, each
/// with the mark that its path has in `visible`.
pub open spec fn refilter(
    all: Seq<ProjectInfoView>,
    visible: Seq<ProjectInfoView>,
    threshold: u32,
    enabled: bool,
    now: u64,
) -> Seq<ProjectInfoView> {
    all.filter(eligible_by(threshold, enabled, now)).map_values(marked_as_in(visible))
}

/// The sum of the sizes of the directories.
pub open spec fn total_size(s: Seq<ProjectInfoView>) -> nat
    decreases s.len(),
{
    if s.len() == 0 {
        0
    } else {
        total_size(s.drop_last()) + s.last().size_bytes as nat
    }
}

pub open spec fn selected() -> spec_fn(ProjectInfoView) -> bool {
    |p: ProjectInfoView| p.selected
}

pub open spec fn cache_path() -> spec_fn(ProjectInfoView) -> Seq<Seq<char>> {
    |p: ProjectInfoView| p.node_modules_path
}

/// A directory with its mark turned over where its path is `path`.
pub open spec fn toggled_at(path: Seq<Seq<char>>) -> spec_fn(ProjectInfoView) -> ProjectInfoView {
    |p: ProjectInfoView|
        if p.node_modules_path == path {
            p.marked(!p.selected)
        } else {
            p
        }
}

/// The directory was marked and has been deleted.
pub open spec fn is_gone(p: ProjectInfoView, deleted: Seq<Seq<Seq<char>>>) -> bool {
    p.selected && deleted.contains(p.node_modules_path)
}

pub open spec fn gone(deleted: Seq<Seq<Seq<char>>>) -> spec_fn(ProjectInfoView) -> bool {
    |p: ProjectInfoView| is_gone(p, deleted)
}

pub open spec fn not_gone(deleted: Seq<Seq<Seq<char>>>) -> spec_fn(ProjectInfoView) -> bool {
    |p: ProjectInfoView| !is_gone(p, deleted)
}

/// The directory's path is not that of a shown directory that was marked
/// and has been deleted.
pub open spec fn remains(visible: Seq<ProjectInfoView>, deleted: Seq<Seq<Seq<char>>>) -> spec_fn(
    ProjectInfoView,
) -> bool {
    |p: ProjectInfoView|
        !(deleted.contains(p.node_modules_path) && is_selected_path(visible, p.node_modules_path))
}

pub open spec fn unmark() -> spec_fn(ProjectInfoView) -> ProjectInfoView {
    |p: ProjectInfoView| p.marked(false)
}

/// The directories without their marks.
pub open spec fn unmarked(s: Seq<ProjectInfoView>) -> Seq<ProjectInfoView> {
    s.map_values(unmark())
}

pub open spec fn among(s: Seq<ProjectInfoView>) -> spec_fn(ProjectInfoView) -> bool {
    |p: ProjectInfoView| s.contains(p)
}

/// No directory is marked.
pub open spec fn none_marked(s: Seq<ProjectInfoView>) -> bool {
    forall|i: int| 0 <= i < s.len() ==> !(#[trigger] s[i]).selected
}

/// Directories of one path bear one mark.
pub open spec fn marks_agree(s: Seq<ProjectInfoView>) -> bool {
    forall|i: int, j: int|
        0 <= i < s.len() && 0 <= j < s.len() && (#[trigger] s[i]).node_modules_path == (
        #[trigger] s[j]).node_modules_path ==> s[i].selected == s[j].selected
}

/// `visible` shows directories of `all`, in the order of `all`: without its
/// marks it is `all` with some directories left out.
pub open spec fn is_selection_of(visible: Seq<ProjectInfoView>, all: Seq<ProjectInfoView>) -> bool {
    unmarked(visible) == all.filter(among(unmarked(visible)))
}

/// The two lists of a session fit together: the scanned directories are
/// sorted by size and bear no marks, and the shown ones are some of them, in
/// their order, marked alike where their paths are alike.
pub open spec fn lists_fit(visible: Seq<ProjectInfoView>, all: Seq<ProjectInfoView>) -> bool {
    &&& is_sorted_by_size(all)
    &&& none_marked(all)
    &&& marks_agree(visible)
    &&& is_selection_of(visible, all)
}

/// One more scanned directory is shown at the end, if it passes the filter.
pub proof fn lemma_refilter_push(
    all: Seq<ProjectInfoView>,
    p: ProjectInfoView,
    visible: Seq<ProjectInfoView>,
    threshold: u32,
    enabled: bool,
    now: u64,
)
    ensures
        refilter(all.push(p), visible, threshold, enabled, now) == if is_eligible(
            p,
            threshold,
            enabled,
            now,
        ) {
            refilter(all, visible, threshold, enabled, now).push(
                p.marked(is_selected_path(visible, p.node_modules_path)),
            )
        } else {
            refilter(all, visible, threshold, enabled, now)
        },
{
    all.lemma_filter_push(p, eligible_by(threshold, enabled, now));
}

/// The sum of sizes grows by the size of a directory that is added.
pub proof fn lemma_total_size_push(s: Seq<ProjectInfoView>, p: ProjectInfoView)
    ensures
        total_size(s.push(p)) == total_size(s) + p.size_bytes,
{
    assert(s.push(p).drop_last() == s);
}

/// A sum of sizes is bounded by the number of directories.
pub proof fn lemma_total_size_bound(s: Seq<ProjectInfoView>)
    ensures
        total_size(s) <= s.len() * u64::MAX,
    decreases s.len(),
{
    if s.len() > 0 {
        lemma_total_size_bound(s.drop_last());
        assert((s.len() - 1) * u64::MAX + u64::MAX == s.len() * u64::MAX) by (nonlinear_arith);
    }
}

/// What is kept of a sorted list is sorted.
pub proof fn lemma_filter_keeps_sorted(
    s: Seq<ProjectInfoView>,
    keep: spec_fn(ProjectInfoView) -> bool,
)
    requires
        is_sorted_by_size(s),
    ensures
        is_sorted_by_size(s.filter(keep)),
    decreases s.len(),
{
    reveal(Seq::filter);
    if s.len() > 0 {
        let rest = s.drop_last();
        lemma_filter_keeps_sorted(rest, keep);
        if keep(s.last()) {
            let kept = rest.filter(keep);
            assert forall|i: int| 0 <= i < kept.len() implies (#[trigger] kept[i]).size_bytes
                >= s.last().size_bytes by {
                lemma_filter_members(rest, keep, kept[i]);
                let k = choose|k: int| 0 <= k < rest.len() && rest[k] == kept[i];
                assert(s[k] == kept[i]);
            }
        }
    }
}

/// Two empty lists fit together.
pub proof fn lemma_empty_lists_fit()
    ensures
        lists_fit(Seq::empty(), Seq::empty()),
{
    reveal(Seq::filter);
    let none = Seq::<ProjectInfoView>::empty();
    assert(unmarked(none) =~= none);
}

/// Shown directories that fit a scan result are sorted by size.
pub proof fn shown_are_sorted(visible: Seq<ProjectInfoView>, all: Seq<ProjectInfoView>)
    requires
        lists_fit(visible, all),
    ensures
        is_sorted_by_size(visible),
{
    let bare = unmarked(visible);
    lemma_filter_keeps_sorted(all, among(bare));
    assert forall|i: int, j: int| 0 <= i <= j < visible.len() implies visible[i].size_bytes
        >= visible[j].size_bytes by {
        assert(bare[i].size_bytes == visible[i].size_bytes);
        assert(bare[j].size_bytes == visible[j].size_bytes);
    }
}

/// The directories that are shown after filtering fit the scanned ones,
/// whatever was shown before.
pub proof fn lemma_refilter_fits(
    all: Seq<ProjectInfoView>,
    visible: Seq<ProjectInfoView>,
    threshold: u32,
    enabled: bool,
    now: u64,
)
    requires
        is_sorted_by_size(all),
        none_marked(all),
    ensures
        lists_fit(refilter(all, visible, threshold, enabled, now), all),
{
    let passes = eligible_by(threshold, enabled, now);
    let kept = all.filter(passes);
    let shown = refilter(all, visible, threshold, enabled, now);
    assert forall|i: int| 0 <= i < kept.len() implies !(#[trigger] kept[i]).selected by {
        lemma_filter_members(all, passes, kept[i]);
    }
    assert(unmarked(shown) =~= kept);
    assert forall|i: int| 0 <= i < all.len() implies passes(#[trigger] all[i]) == among(kept)(
        all[i],
    ) by {
        lemma_filter_members(all, passes, all[i]);
    }
    lemma_filter_agree(all, passes, among(kept));
}

/// Turning marks over by path leaves lists that fit.
pub proof fn lemma_toggle_fits(
    visible: Seq<ProjectInfoView>,
    all: Seq<ProjectInfoView>,
    path: Seq<Seq<char>>,
)
    requires
        lists_fit(visible, all),
    ensures
        lists_fit(visible.map_values(toggled_at(path)), all),
{
    assert(unmarked(visible.map_values(toggled_at(path))) =~= unmarked(visible));
}

/// Among shown directories that bear one mark per path, a directory is gone
/// exactly when its path does not remain.
proof fn lemma_gone_by_path(
    visible: Seq<ProjectInfoView>,
    deleted: Seq<Seq<Seq<char>>>,
    i: int,
)
    requires
        marks_agree(visible),
        0 <= i < visible.len(),
    ensures
        not_gone(deleted)(visible[i]) == remains(visible, deleted)(unmark()(visible[i])),
{
    let p = visible[i];
    if is_selected_path(visible, p.node_modules_path) {
        let j = choose|j: int|
            0 <= j < visible.len() && (#[trigger] visible[j]).node_modules_path
                == p.node_modules_path && visible[j].selected;
        assert(visible[j].selected == visible[i].selected);
    }
}

/// A deletion leaves lists that fit.
pub proof fn lemma_delete_fits(
    visible: Seq<ProjectInfoView>,
    all: Seq<ProjectInfoView>,
    deleted: Seq<Seq<Seq<char>>>,
)
    requires
        lists_fit(visible, all),
    ensures
        lists_fit(visible.filter(not_gone(deleted)), all.filter(remains(visible, deleted))),
{
    let stays = remains(visible, deleted);
    let left = visible.filter(not_gone(deleted));
    let rest = all.filter(stays);
    let bare = unmarked(visible);
    let stays_bare = |p: ProjectInfoView| stays(unmark()(p));
    lemma_filter_keeps_sorted(all, stays);
    assert forall|i: int| 0 <= i < rest.len() implies !(#[trigger] rest[i]).selected by {
        lemma_filter_members(all, stays, rest[i]);
    }
    assert forall|i: int, j: int|
        0 <= i < left.len() && 0 <= j < left.len() && (#[trigger] left[i]).node_modules_path == (
        #[trigger] left[j]).node_modules_path implies left[i].selected == left[j].selected by {
        lemma_filter_members(visible, not_gone(deleted), left[i]);
        lemma_filter_members(visible, not_gone(deleted), left[j]);
    }
    // Without its marks, what is left is the bare list with the gone ones
    // taken out.
    assert forall|i: int| 0 <= i < visible.len() implies not_gone(deleted)(#[trigger] visible[i])
        == stays_bare(visible[i]) by {
        lemma_gone_by_path(visible, deleted, i);
    }
    lemma_filter_agree(visible, not_gone(deleted), stays_bare);
    lemma_filter_map_commute(visible, unmark(), stays);
    assert(unmarked(left) == bare.filter(stays));
    // Both sides keep of `all` what is shown and remains.
    lemma_filter_twice(all, among(bare), stays);
    lemma_filter_twice(all, stays, among(unmarked(left)));
    assert forall|i: int| 0 <= i < all.len() implies (among(bare)(#[trigger] all[i]) && stays(
        all[i],
    )) == (stays(all[i]) && among(unmarked(left))(all[i])) by {
        lemma_filter_members(bare, stays, all[i]);
    }
    lemma_filter_agree(
        all,
        |p: ProjectInfoView| among(bare)(p) && stays(p),
        |p: ProjectInfoView| stays(p) && among(unmarked(left))(p),
    );
}

/// Whether a directory with this path is shown and marked.
pub fn is_selected_in(visible: &Vec<ProjectInfo>, path: &Vec<String>) -> (found: bool)
    ensures
        found == is_selected_path(visible.deep_view(), path.deep_view()),
{
    let mut i: usize = 0;
    while i < visible.len()
        invariant
            i <= visible.len(),
            forall|j: int|
                0 <= j < i ==> !((#[trigger] visible.deep_view()[j]).node_modules_path
                    == path.deep_view() && visible.deep_view()[j].selected),
        decreases visible.len() - i,
    {
        if visible[i].selected && same_path(&visible[i].node_modules_path, path) {
            assert(visible.deep_view()[i as int].node_modules_path == path.deep_view());
            return true;
        }
        i += 1;
    }
    false
}

/// Whether the list holds the path.
pub fn contains_path(paths: &Vec<Vec<String>>, path: &Vec<String>) -> (found: bool)
    ensures
        found == paths.deep_view().contains(path.deep_view()),
{
    let mut i: usize = 0;
    while i < paths.len()
        invariant
            i <= paths.len(),
            forall|j: int| 0 <= j < i ==> paths.deep_view()[j] != path.deep_view(),
        decreases paths.len() - i,
    {
        if same_path(&paths[i], path) {
            assert(paths.deep_view()[i as int] == path.deep_view());
            return true;
        }
        i += 1;
    }
    false
}

/// The directories to show: those of `all` that pass the age filter at the
/// time `now`, each marked as its path is marked in `visible`; and beside
/// them the sum of their sizes.
pub fn filter_projects(
    all: &Vec<ProjectInfo>,
    visible: &Vec<ProjectInfo>,
    threshold: u32,
    enabled: bool,
    now: u64,
) -> (shown: (Vec<ProjectInfo>, u128))
    ensures
        shown.0.deep_view() == refilter(
            all.deep_view(),
            visible.deep_view(),
            threshold,
            enabled,
            now,
        ),
        shown.1 == total_size(shown.0.deep_view()),
{
    let ghost scanned = all.deep_view();
    let mut shown: Vec<ProjectInfo> = Vec::new();
    let mut total: u128 = 0;
    let mut i: usize = 0;
    proof {
        reveal(Seq::filter);
    }
    while i < all.len()
        invariant
            scanned == all.deep_view(),
            i <= all.len(),
            shown.len() <= i,
            shown.deep_view() == refilter(
                scanned.take(i as int),
                visible.deep_view(),
                threshold,
                enabled,
                now,
            ),
            total == total_size(shown.deep_view()),
        decreases all.len() - i,
    {
        let project = &all[i];
        proof {
            assert(scanned.take(i + 1) == scanned.take(i as int).push(project@));
            lemma_refilter_push(
                scanned.take(i as int),
                project@,
                visible.deep_view(),
                threshold,
                enabled,
                now,
            );
        }
        if !enabled || project.days_old(now) >= threshold as u64 {
            let mut copy = project.clone();
            copy.selected = is_selected_in(visible, &project.node_modules_path);
            proof {
                lemma_total_size_push(shown.deep_view(), copy@);
                lemma_total_size_bound(shown.deep_view());
                assert(shown.len() * u64::MAX <= usize::MAX * u64::MAX) by (nonlinear_arith)
                    requires
                        shown.len() <= usize::MAX,
                ;
            }
            total = total + copy.size_bytes as u128;
            shown.push(copy);
            assert(shown.deep_view() =~= refilter(
                scanned.take(i + 1),
                visible.deep_view(),
                threshold,
                enabled,
                now,
            ));
        }
        i += 1;
    }
    assert(scanned.take(i as int) == scanned);
    (shown, total)
}

/// The directories of `projects`, with the mark turned over on every one
/// at `path`.
pub fn toggle_at(projects: &Vec<ProjectInfo>, path: &Vec<String>) -> (turned: Vec<ProjectInfo>)
    ensures
        turned.deep_view() == projects.deep_view().map_values(toggled_at(path.deep_view())),
{
    let mut turned: Vec<ProjectInfo> = Vec::new();
    let mut i: usize = 0;
    while i < projects.len()
        invariant
            i <= projects.len(),
            turned.len() == i,
            forall|j: int|
                0 <= j < i ==> turned.deep_view()[j] == toggled_at(path.deep_view())(
                    projects.deep_view()[j],
                ),
        decreases projects.len() - i,
    {
        let ghost earlier = turned.deep_view();
        let mut copy = projects[i].clone();
        if same_path(&copy.node_modules_path, path) {
            copy.selected = !copy.selected;
        }
        turned.push(copy);
        assert forall|j: int| 0 <= j <= i implies turned.deep_view()[j] == toggled_at(
            path.deep_view(),
        )(projects.deep_view()[j]) by {
            if j < i {
                assert(turned.deep_view()[j] == earlier[j]);
            }
        }
        i += 1;
    }
    turned
}

/// What a deletion makes of the directories shown.
pub struct Deletion {
    /// The directories that stay.
    pub left: Vec<ProjectInfo>,
    /// How many marked directories were deleted.
    pub deleted: usize,
    /// How many marked directories could not be deleted.
    pub failed: usize,
    /// The sum of the sizes of the deleted directories.
    pub freed_bytes: u128,
}

/// Takes out of the shown directories the marked ones whose paths are among
/// `deleted`, and counts.
pub fn remove_gone(visible: &Vec<ProjectInfo>, deleted: &Vec<Vec<String>>) -> (outcome: Deletion)
    ensures
        outcome.left.deep_view() == visible.deep_view().filter(not_gone(deleted.deep_view())),
        outcome.deleted == visible.deep_view().filter(gone(deleted.deep_view())).len(),
        outcome.failed == outcome.left.deep_view().filter(selected()).len(),
        outcome.freed_bytes == total_size(visible.deep_view().filter(gone(deleted.deep_view()))),
{
    let ghost shown = visible.deep_view();
    let ghost away = deleted.deep_view();
    let mut left: Vec<ProjectInfo> = Vec::new();
    let mut count: usize = 0;
    let mut failed: usize = 0;
    let mut freed: u128 = 0;
    let mut i: usize = 0;
    proof {
        reveal(Seq::filter);
    }
    while i < visible.len()
        invariant
            shown == visible.deep_view(),
            away == deleted.deep_view(),
            i <= visible.len(),
            count <= i,
            failed <= i,
            left.deep_view() == shown.take(i as int).filter(not_gone(away)),
            count == shown.take(i as int).filter(gone(away)).len(),
            failed == left.deep_view().filter(selected()).len(),
            freed == total_size(shown.take(i as int).filter(gone(away))),
        decreases visible.len() - i,
    {
        let project = &visible[i];
        proof {
            let seen = shown.take(i as int);
            assert(shown.take(i + 1) == seen.push(project@));
            seen.lemma_filter_push(project@, not_gone(away));
            seen.lemma_filter_push(project@, gone(away));
            left.deep_view().lemma_filter_push(project@, selected());
            lemma_total_size_push(seen.filter(gone(away)), project@);
            lemma_total_size_bound(seen.filter(gone(away)));
            assert(count * u64::MAX <= usize::MAX * u64::MAX) by (nonlinear_arith)
                requires
                    count <= usize::MAX,
            ;
        }
        if project.selected && contains_path(deleted, &project.node_modules_path) {
            count += 1;
            freed = freed + project.size_bytes as u128;
        } else {
            if project.selected {
                failed += 1;
            }
            let ghost kept = left.deep_view();
            left.push(project.clone());
            assert(left.deep_view() =~= kept.push(project@));
        }
        i += 1;
    }
    assert(shown.take(i as int) == shown);
    Deletion { left, deleted: count, failed, freed_bytes: freed }
}

/// The scanned directories whose paths are not those of shown directories
/// that were marked and have been deleted.
pub fn keep_remaining(
    all: &Vec<ProjectInfo>,
    visible: &Vec<ProjectInfo>,
    deleted: &Vec<Vec<String>>,
) -> (rest: Vec<ProjectInfo>)
    ensures
        rest.deep_view() == all.deep_view().filter(
            remains(visible.deep_view(), deleted.deep_view()),
        ),
{
    let ghost scanned = all.deep_view();
    let ghost stays = remains(visible.deep_view(), deleted.deep_view());
    let mut rest: Vec<ProjectInfo> = Vec::new();
    let mut i: usize = 0;
    proof {
        reveal(Seq::filter);
    }
    while i < all.len()
        invariant
            scanned == all.deep_view(),
            stays == remains(visible.deep_view(), deleted.deep_view()),
            i <= all.len(),
            rest.deep_view() == scanned.take(i as int).filter(stays),
        decreases all.len() - i,
    {
        let project = &all[i];
        proof {
            assert(scanned.take(i + 1) == scanned.take(i as int).push(project@));
            scanned.take(i as int).lemma_filter_push(project@, stays);
        }
        if !(contains_path(deleted, &project.node_modules_path) && is_selected_in(
            visible,
            &project.node_modules_path,
        )) {
            let ghost kept = rest.deep_view();
            rest.push(project.clone());
            assert(rest.deep_view() =~= kept.push(project@));
        }
        i += 1;
    }
    assert(scanned.take(i as int) == scanned);
    rest
}

/// The paths of the marked directories, in the order in which they are shown.
pub fn marked_paths(visible: &Vec<ProjectInfo>) -> (paths: Vec<Vec<String>>)
    ensures
        paths.deep_view() == visible.deep_view().filter(selected()).map_values(cache_path()),
{
    let ghost shown = visible.deep_view();
    let mut paths: Vec<Vec<String>> = Vec::new();
    let mut i: usize = 0;
    proof {
        reveal(Seq::filter);
    }
    while i < visible.len()
        invariant
            shown == visible.deep_view(),
            i <= visible.len(),
            paths.deep_view() == shown.take(i as int).filter(selected()).map_values(cache_path()),
        decreases visible.len() - i,
    {
        let project = &visible[i];
        proof {
            assert(shown.take(i + 1) == shown.take(i as int).push(project@));
            shown.take(i as int).lemma_filter_push(project@, selected());
        }
        if project.selected {
            let ghost kept = paths.deep_view();
            paths.push(clone_path(&project.node_modules_path));
            assert(paths.deep_view() =~= kept.push(project@.node_modules_path));
        }
        i += 1;
    }
    assert(shown.take(i as int) == shown);
    paths
}

/// How many directories are marked, and the sum of their sizes.
pub fn count_marked(visible: &Vec<ProjectInfo>) -> (marked: (usize, u128))
    ensures
        marked.0 == visible.deep_view().filter(selected()).len(),
        marked.1 == total_size(visible.deep_view().filter(selected())),
{
    let ghost shown = visible.deep_view();
    let mut count: usize = 0;
    let mut total: u128 = 0;
    let mut i: usize = 0;
    proof {
        reveal(Seq::filter);
    }
    while i < visible.len()
        invariant
            shown == visible.deep_view(),
            i <= visible.len(),
            count <= i,
            count == shown.take(i as int).filter(selected()).len(),
            total == total_size(shown.take(i as int).filter(selected())),
        decreases visible.len() - i,
    {
        let project = &visible[i];
        proof {
            let seen = shown.take(i as int);
            assert(shown.take(i + 1) == seen.push(project@));
            seen.lemma_filter_push(project@, selected());
            lemma_total_size_push(seen.filter(selected()), project@);
            lemma_total_size_bound(seen.filter(selected()));
            assert(count * u64::MAX <= usize::MAX * u64::MAX) by (nonlinear_arith)
                requires
                    count <= usize::MAX,
            ;
        }
        if project.selected {
            count += 1;
            total = total + project.size_bytes as u128;
        }
        i += 1;
    }
    assert(shown.take(i as int) == shown);
    (count, total)
}

} // verus!
