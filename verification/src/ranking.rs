//! The order of a scan result: by size, largest first, directories of equal
//! size in the order in which they were discovered.

use vstd::prelude::*;
use crate::project::ProjectInfo;
use crate::project::ProjectInfoView;

verus! {

/// No directory is listed before a larger one.
pub open spec fn is_sorted_by_size(s: Seq<ProjectInfoView>) -> bool {
    forall|i: int, j: int| 0 <= i <= j < s.len() ==> s[i].size_bytes >= s[j].size_bytes
}

/// The directories of one size.
pub open spec fn has_size(size: u64) -> spec_fn(ProjectInfoView) -> bool {
    |p: ProjectInfoView| p.size_bytes == size
}

/// The first position at or after `from` that holds a directory smaller than
/// `size`; the length of `s` when there is none.
pub open spec fn first_smaller(s: Seq<ProjectInfoView>, size: u64, from: int) -> int
    decreases s.len() - from,
{
    if from < 0 || from >= s.len() {
        s.len() as int
    } else if s[from].size_bytes < size {
        from
    } else {
        first_smaller(s, size, from + 1)
    }
}

/// `p` placed behind every directory that is at least as large.
pub open spec fn insert_by_size(s: Seq<ProjectInfoView>, p: ProjectInfoView) -> Seq<
    ProjectInfoView,
> {
    s.insert(first_smaller(s, p.size_bytes, 0), p)
}

/// The directories of `s`, largest first, equal sizes in the order of `s`.
pub open spec fn sort_by_size(s: Seq<ProjectInfoView>) -> Seq<ProjectInfoView>
    decreases s.len(),
{
    if s.len() == 0 {
        Seq::empty()
    } else {
        insert_by_size(sort_by_size(s.drop_last()), s.last())
    }
}

/// Where `first_smaller` points: all before it are at least as large, and it
/// is the end or a smaller directory.
pub proof fn lemma_first_smaller(s: Seq<ProjectInfoView>, size: u64, from: int)
    requires
        0 <= from <= s.len(),
    ensures
        from <= first_smaller(s, size, from) <= s.len(),
        forall|k: int| from <= k < first_smaller(s, size, from) ==> s[k].size_bytes >= size,
        first_smaller(s, size, from) < s.len() ==> s[first_smaller(s, size, from)].size_bytes
            < size,
    decreases s.len() - from,
{
    if from < s.len() && s[from].size_bytes >= size {
        lemma_first_smaller(s, size, from + 1);
    }
}

/// Inserting into a sorted list leaves it sorted.
pub proof fn lemma_insert_keeps_sorted(s: Seq<ProjectInfoView>, p: ProjectInfoView)
    requires
        is_sorted_by_size(s),
    ensures
        is_sorted_by_size(insert_by_size(s, p)),
        insert_by_size(s, p).len() == s.len() + 1,
{
    lemma_first_smaller(s, p.size_bytes, 0);
}

/// A sorted list is sorted.
pub proof fn lemma_sort_is_sorted(s: Seq<ProjectInfoView>)
    ensures
        is_sorted_by_size(sort_by_size(s)),
        sort_by_size(s).len() == s.len(),
    decreases s.len(),
{
    if s.len() > 0 {
        lemma_sort_is_sorted(s.drop_last());
        lemma_insert_keeps_sorted(sort_by_size(s.drop_last()), s.last());
    }
}

/// Among the directories of any one size, inserting `p` into a sorted list
/// is appending it.
pub proof fn lemma_insert_is_stable(s: Seq<ProjectInfoView>, p: ProjectInfoView, size: u64)
    requires
        is_sorted_by_size(s),
    ensures
        insert_by_size(s, p).filter(has_size(size)) == s.push(p).filter(has_size(size)),
{
    lemma_first_smaller(s, p.size_bytes, 0);
    let at = first_smaller(s, p.size_bytes, 0);
    let pred = has_size(size);
    let head = s.take(at);
    let tail = s.skip(at);
    assert(s == head + tail);
    Seq::filter_distributes_over_add(head, tail, pred);
    Seq::filter_distributes_over_add(head.push(p), tail, pred);
    head.lemma_filter_push(p, pred);
    s.lemma_filter_push(p, pred);
    if pred(p) {
        // Behind `p` stand smaller directories only.
        assert(tail.all(|x: ProjectInfoView| !pred(x)));
        tail.lemma_all_neg_filter_empty(pred);
    }
}

/// Sorting is stable: the directories of any one size stand in the sorted
/// list as they stand in the list that was sorted.
pub proof fn lemma_sort_is_stable(s: Seq<ProjectInfoView>, size: u64)
    ensures
        sort_by_size(s).filter(has_size(size)) == s.filter(has_size(size)),
    decreases s.len(),
{
    reveal(Seq::filter);
    if s.len() > 0 {
        let rest = s.drop_last();
        lemma_sort_is_stable(rest, size);
        lemma_sort_is_sorted(rest);
        lemma_insert_is_stable(sort_by_size(rest), s.last(), size);
        sort_by_size(rest).lemma_filter_push(s.last(), has_size(size));
        rest.lemma_filter_push(s.last(), has_size(size));
    }
}

/// Sorting neither adds nor drops a directory.
pub proof fn lemma_sort_is_permutation(s: Seq<ProjectInfoView>)
    ensures
        sort_by_size(s).to_multiset() == s.to_multiset(),
    decreases s.len(),
{
    broadcast use vstd::seq_lib::group_to_multiset_ensures;

    if s.len() > 0 {
        let rest = s.drop_last();
        let t = sort_by_size(rest);
        lemma_sort_is_permutation(rest);
        lemma_first_smaller(t, s.last().size_bytes, 0);
        assert(rest.push(s.last()) == s);
    }
}

/// A sorted list holds the directories of the list that was sorted.
pub proof fn lemma_sort_members(s: Seq<ProjectInfoView>, p: ProjectInfoView)
    ensures
        sort_by_size(s).contains(p) <==> s.contains(p),
{
    lemma_sort_is_permutation(s);
    s.to_multiset_ensures();
    sort_by_size(s).to_multiset_ensures();
    assert(sort_by_size(s).contains(p) <==> sort_by_size(s).to_multiset().count(p) > 0);
}

/// No two directories of the list have the same path.
pub open spec fn have_distinct_paths(s: Seq<ProjectInfoView>) -> bool {
    forall|i: int, j: int|
        0 <= i < j < s.len() ==> (#[trigger] s[i]).node_modules_path != (
        #[trigger] s[j]).node_modules_path
}

/// Sorting directories of distinct paths leaves their paths distinct.
pub proof fn lemma_sort_keeps_paths_distinct(s: Seq<ProjectInfoView>)
    requires
        have_distinct_paths(s),
    ensures
        have_distinct_paths(sort_by_size(s)),
    decreases s.len(),
{
    if s.len() > 0 {
        let rest = s.drop_last();
        let last = s.last();
        let t = sort_by_size(rest);
        assert(have_distinct_paths(rest));
        lemma_sort_keeps_paths_distinct(rest);
        lemma_first_smaller(t, last.size_bytes, 0);
        // The directory that is inserted has a path of its own.
        assert forall|i: int| 0 <= i < t.len() implies (#[trigger] t[i]).node_modules_path
            != last.node_modules_path by {
            lemma_sort_members(rest, t[i]);
        }
    }
}

/// Puts `item` behind every directory of `projects` that is at least as large.
pub fn insert_sorted(projects: &mut Vec<ProjectInfo>, item: ProjectInfo)
    ensures
        final(projects).deep_view() == insert_by_size(old(projects).deep_view(), item@),
{
    let ghost before = projects.deep_view();
    let mut at: usize = 0;
    while at < projects.len() && projects[at].size_bytes >= item.size_bytes
        invariant
            at <= projects.len(),
            projects.deep_view() == before,
            first_smaller(before, item.size_bytes, 0) == first_smaller(
                before,
                item.size_bytes,
                at as int,
            ),
        decreases projects.len() - at,
    {
        at += 1;
    }
    projects.insert(at, item);
}

} // verus!
