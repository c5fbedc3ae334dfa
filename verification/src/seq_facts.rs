//! Facts about filtered and mapped sequences that the proofs of this crate
//! share.

use vstd::prelude::*;

verus! {

/// Two tests that agree on every element of `s` keep the same elements.
pub proof fn lemma_filter_agree<A>(s: Seq<A>, p: spec_fn(A) -> bool, q: spec_fn(A) -> bool)
    requires
        forall|i: int| 0 <= i < s.len() ==> p(#[trigger] s[i]) == q(s[i]),
    ensures
        s.filter(p) == s.filter(q),
    decreases s.len(),
{
    reveal(Seq::filter);
    if s.len() > 0 {
        lemma_filter_agree(s.drop_last(), p, q);
    }
}

/// Filtering twice is filtering once by both tests.
pub proof fn lemma_filter_twice<A>(s: Seq<A>, p: spec_fn(A) -> bool, q: spec_fn(A) -> bool)
    ensures
        s.filter(p).filter(q) == s.filter(|x: A| p(x) && q(x)),
    decreases s.len(),
{
    reveal(Seq::filter);
    if s.len() > 0 {
        let rest = s.drop_last();
        lemma_filter_twice(rest, p, q);
        if p(s.last()) {
            rest.filter(p).lemma_filter_push(s.last(), q);
        }
    }
}

/// A test on the images of the elements can be made before or after the
/// elements are mapped.
pub proof fn lemma_filter_map_commute<A, B>(s: Seq<A>, f: spec_fn(A) -> B, q: spec_fn(B) -> bool)
    ensures
        s.filter(|x: A| q(f(x))).map_values(f) == s.map_values(f).filter(q),
    decreases s.len(),
{
    reveal(Seq::filter);
    if s.len() > 0 {
        let rest = s.drop_last();
        lemma_filter_map_commute(rest, f, q);
        assert(s.map_values(f).drop_last() =~= rest.map_values(f));
    }
}

/// What a filter keeps is what the sequence holds and the test accepts.
pub proof fn lemma_filter_members<A>(s: Seq<A>, p: spec_fn(A) -> bool, x: A)
    ensures
        s.filter(p).contains(x) <==> s.contains(x) && p(x),
    decreases s.len(),
{
    reveal(Seq::filter);
    if s.len() > 0 {
        let rest = s.drop_last();
        lemma_filter_members(rest, p, x);
        assert(s == rest.push(s.last()));
    }
}

/// What a filter keeps stands in the order of the sequence: where no two
/// elements of the sequence have the same key, no two that are kept have.
pub proof fn lemma_filter_keeps_keys_distinct<A, K>(
    s: Seq<A>,
    p: spec_fn(A) -> bool,
    key: spec_fn(A) -> K,
)
    requires
        forall|i: int, j: int|
            0 <= i < j < s.len() ==> key(#[trigger] s[i]) != key(#[trigger] s[j]),
    ensures
        forall|i: int, j: int|
            0 <= i < j < s.filter(p).len() ==> key(#[trigger] s.filter(p)[i]) != key(
                #[trigger] s.filter(p)[j],
            ),
    decreases s.len(),
{
    reveal(Seq::filter);
    if s.len() > 0 {
        let rest = s.drop_last();
        assert forall|i: int, j: int| 0 <= i < j < rest.len() implies key(#[trigger] rest[i])
            != key(#[trigger] rest[j]) by {}
        lemma_filter_keeps_keys_distinct(rest, p, key);
        if p(s.last()) {
            // What was kept before lies before the last element.
            let kept = rest.filter(p);
            assert forall|i: int| 0 <= i < kept.len() implies key(#[trigger] kept[i]) != key(
                s.last(),
            ) by {
                lemma_filter_members(rest, p, kept[i]);
            }
        }
    }
}

} // verus!
