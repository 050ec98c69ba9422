//! Facts about the first element of a sequence that satisfies a predicate,
//! and about filtering, used by the lookup and removal operations.

use vstd::prelude::*;

verus! {

/// Index of the first element satisfying `p`, if any.
pub open spec fn first_match<T>(s: Seq<T>, p: spec_fn(T) -> bool) -> Option<int>
    decreases s.len(),
{
    if s.len() == 0 {
        None
    } else if p(s[0]) {
        Some(0)
    } else {
        match first_match(s.drop_first(), p) {
            Some(j) => Some(j + 1),
            None => None,
        }
    }
}

/// An element that satisfies `p`, with none before it, is the first match.
pub proof fn lemma_first_match_at<T>(s: Seq<T>, p: spec_fn(T) -> bool, i: int)
    requires
        0 <= i < s.len(),
        p(s[i]),
        forall|j: int| 0 <= j < i ==> !p(#[trigger] s[j]),
    ensures
        first_match(s, p) == Some(i),
    decreases i,
{
    if i > 0 {
        assert(!p(s[0]));
        let t = s.drop_first();
        assert forall|j: int| 0 <= j < i - 1 implies !p(#[trigger] t[j]) by {
            assert(t[j] == s[j + 1]);
        }
        lemma_first_match_at(t, p, i - 1);
    }
}

/// With no element satisfying `p` there is no first match.
pub proof fn lemma_first_match_none<T>(s: Seq<T>, p: spec_fn(T) -> bool)
    requires
        forall|j: int| 0 <= j < s.len() ==> !p(#[trigger] s[j]),
    ensures
        first_match(s, p) is None,
    decreases s.len(),
{
    if s.len() > 0 {
        let t = s.drop_first();
        assert forall|j: int| 0 <= j < t.len() implies !p(#[trigger] t[j]) by {
            assert(t[j] == s[j + 1]);
        }
        lemma_first_match_none(t, p);
    }
}

/// The first match, when there is one, satisfies `p` and nothing before it does.
pub proof fn lemma_first_match_props<T>(s: Seq<T>, p: spec_fn(T) -> bool)
    ensures
        match first_match(s, p) {
            Some(i) => 0 <= i < s.len() && p(s[i]) && forall|j: int| 0 <= j < i ==> !p(#[trigger] s[j]),
            None => forall|j: int| 0 <= j < s.len() ==> !p(#[trigger] s[j]),
        },
    decreases s.len(),
{
    if s.len() > 0 {
        let t = s.drop_first();
        lemma_first_match_props(t, p);
        if !p(s[0]) {
            match first_match(t, p) {
                Some(k) => {
                    assert forall|j: int| 0 <= j < k + 1 implies !p(#[trigger] s[j]) by {
                        if j > 0 {
                            assert(s[j] == t[j - 1]);
                        }
                    }
                },
                None => {
                    assert forall|j: int| 0 <= j < s.len() implies !p(#[trigger] s[j]) by {
                        if j > 0 {
                            assert(s[j] == t[j - 1]);
                        }
                    }
                },
            }
        }
    }
}

} // verus!

verus! {

/// No earlier element is related to a later one.
pub open spec fn pairwise_apart<T>(s: Seq<T>, rel: spec_fn(T, T) -> bool) -> bool {
    forall|i: int, j: int| 0 <= i < j < s.len() ==> !rel(#[trigger] s[i], #[trigger] s[j])
}

/// Filtering keeps elements apart: it only drops elements and keeps order.
pub proof fn lemma_filter_keeps_apart<T>(s: Seq<T>, p: spec_fn(T) -> bool, rel: spec_fn(T, T) -> bool)
    requires
        pairwise_apart(s, rel),
    ensures
        pairwise_apart(s.filter(p), rel),
    decreases s.len(),
{
    reveal_with_fuel(Seq::filter, 1);
    if s.len() > 0 {
        let rest = s.drop_last();
        assert(pairwise_apart(rest, rel)) by {
            assert forall|i: int, j: int| 0 <= i < j < rest.len() implies !rel(#[trigger] rest[i], #[trigger] rest[j]) by {
                assert(rest[i] == s[i] && rest[j] == s[j]);
            }
        }
        lemma_filter_keeps_apart(rest, p, rel);
        let fr = rest.filter(p);
        if p(s.last()) {
            let f = fr.push(s.last());
            assert forall|i: int, j: int| 0 <= i < j < f.len() implies !rel(#[trigger] f[i], #[trigger] f[j]) by {
                if j == f.len() - 1 {
                    assert(f[i] == fr[i]);
                    assert(fr.contains(fr[i]));
                    rest.lemma_filter_contains_rev(p, fr[i]);
                    let m = choose|m: int| 0 <= m < rest.len() && rest[m] == fr[i];
                    assert(s[m] == rest[m]);
                    assert(!rel(s[m], s[s.len() - 1]));
                } else {
                    assert(f[i] == fr[i] && f[j] == fr[j]);
                }
            }
        }
    }
}

} // verus!
