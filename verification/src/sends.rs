//! Send routing between mixer tracks: the cycle check that a new send must
//! pass, so the mixer's processing order always exists.

use vstd::prelude::*;
use crate::seqs::{first_match, lemma_first_match_at, lemma_first_match_none, lemma_first_match_props};
use crate::text::str_eq;

verus! {

/// One send of a track: where it feeds, and whether it is on.
#[derive(Debug)]
pub struct SendTarget {
    pub target: String,
    pub enabled: bool,
}

/// A track's id and its sends, in order.
#[derive(Debug)]
pub struct TrackSends {
    pub id: String,
    pub sends: Vec<SendTarget>,
}

/// A track by characters: its id and its sends as (target, enabled).
pub open spec fn track_view(t: TrackSends) -> (Seq<char>, Seq<(Seq<char>, bool)>) {
    (t.id@, t.sends@.map_values(|s: SendTarget| (s.target@, s.enabled)))
}

/// The send graph of a project, track by track.
pub open spec fn graph_view(g: Seq<TrackSends>) -> Seq<(Seq<char>, Seq<(Seq<char>, bool)>)> {
    g.map_values(|t: TrackSends| track_view(t))
}

/// The position of the track with id `id` (the first, as a lookup by id
/// finds it).
pub open spec fn track_pos(g: Seq<(Seq<char>, Seq<(Seq<char>, bool)>)>, id: Seq<char>) -> Option<int> {
    first_match(g, |t: (Seq<char>, Seq<(Seq<char>, bool)>)| t.0 == id)
}

/// Some enabled send in `sends` feeds `b`.
pub open spec fn sends_to(sends: Seq<(Seq<char>, bool)>, b: Seq<char>) -> bool {
    exists|j: int| 0 <= j < sends.len() && (#[trigger] sends[j]).1 && sends[j].0 == b
}

/// Track `a` feeds track `b` through an enabled send.
pub open spec fn edge(g: Seq<(Seq<char>, Seq<(Seq<char>, bool)>)>, a: Seq<char>, b: Seq<char>) -> bool {
    match track_pos(g, a) {
        Some(k) => sends_to(g[k].1, b),
        None => false,
    }
}

/// A walk along enabled sends.
pub open spec fn is_path(g: Seq<(Seq<char>, Seq<(Seq<char>, bool)>)>, p: Seq<Seq<char>>) -> bool {
    p.len() >= 1 && forall|i: int| 0 <= i < p.len() - 1 ==> #[trigger] edge(g, p[i], p[i + 1])
}

/// Signal from `a` reaches `b` by following enabled sends (a track reaches
/// itself).
pub open spec fn reaches(g: Seq<(Seq<char>, Seq<(Seq<char>, bool)>)>, a: Seq<char>, b: Seq<char>) -> bool {
    exists|p: Seq<Seq<char>>| #[trigger] is_path(g, p) && p[0] == a && p.last() == b
}

/// Every send target of the graph, track by track.
pub open spec fn targets_of(g: Seq<(Seq<char>, Seq<(Seq<char>, bool)>)>) -> Seq<Seq<char>>
    decreases g.len(),
{
    if g.len() == 0 {
        Seq::empty()
    } else {
        targets_of(g.drop_last()) + g.last().1.map_values(|s: (Seq<char>, bool)| s.0)
    }
}

proof fn lemma_target_listed(g: Seq<(Seq<char>, Seq<(Seq<char>, bool)>)>, k: int, j: int)
    requires
        0 <= k < g.len(),
        0 <= j < g[k].1.len(),
    ensures
        targets_of(g).contains(g[k].1[j].0),
    decreases g.len(),
{
    let last = g.last().1.map_values(|s: (Seq<char>, bool)| s.0);
    if k == g.len() - 1 {
        assert((targets_of(g.drop_last()) + last)[targets_of(g.drop_last()).len() + j] == g[k].1[j].0);
    } else {
        lemma_target_listed(g.drop_last(), k, j);
        let i = choose|i: int| 0 <= i < targets_of(g.drop_last()).len() && targets_of(g.drop_last())[i] == g[k].1[j].0;
        assert((targets_of(g.drop_last()) + last)[i] == g[k].1[j].0);
    }
}

proof fn lemma_reach_step(g: Seq<(Seq<char>, Seq<(Seq<char>, bool)>)>, src: Seq<char>, a: Seq<char>, b: Seq<char>)
    requires
        reaches(g, src, a),
        edge(g, a, b),
    ensures
        reaches(g, src, b),
{
    let p = choose|p: Seq<Seq<char>>| #[trigger] is_path(g, p) && p[0] == src && p.last() == a;
    let q = p.push(b);
    assert forall|i: int| 0 <= i < q.len() - 1 implies #[trigger] edge(g, q[i], q[i + 1]) by {
        if i < p.len() - 1 {
            assert(q[i] == p[i] && q[i + 1] == p[i + 1]);
            assert(edge(g, p[i], p[i + 1]));
        } else {
            assert(q[i] == a && q[i + 1] == b);
        }
    }
    assert(is_path(g, q));
}

/// A set of tracks that holds `src`, not `dst`, and every track an
/// enabled send of its members feeds, leaves `dst` unreachable from `src`.
proof fn lemma_closed_set_blocks(g: Seq<(Seq<char>, Seq<(Seq<char>, bool)>)>, seen: Seq<Seq<char>>, src: Seq<char>, dst: Seq<char>)
    requires
        seen.contains(src),
        !seen.contains(dst),
        forall|v: Seq<char>, w: Seq<char>| seen.contains(v) && #[trigger] edge(g, v, w) ==> seen.contains(w),
    ensures
        !reaches(g, src, dst),
{
    if reaches(g, src, dst) {
        let p = choose|p: Seq<Seq<char>>| #[trigger] is_path(g, p) && p[0] == src && p.last() == dst;
        assert forall|i: int| 0 <= i < p.len() implies seen.contains(#[trigger] p[i]) by {
            lemma_path_stays(g, seen, p, i);
        }
        assert(seen.contains(p[p.len() - 1]));
    }
}

proof fn lemma_path_stays(g: Seq<(Seq<char>, Seq<(Seq<char>, bool)>)>, seen: Seq<Seq<char>>, p: Seq<Seq<char>>, i: int)
    requires
        is_path(g, p),
        seen.contains(p[0]),
        forall|v: Seq<char>, w: Seq<char>| seen.contains(v) && #[trigger] edge(g, v, w) ==> seen.contains(w),
        0 <= i < p.len(),
    ensures
        seen.contains(p[i]),
    decreases i,
{
    if i > 0 {
        lemma_path_stays(g, seen, p, i - 1);
        let j = i - 1;
        assert(edge(g, p[j], p[j + 1]));
    }
}

proof fn lemma_seen_bounded(seen: Seq<Seq<char>>, cand: Seq<Seq<char>>)
    requires
        seen.no_duplicates(),
        forall|i: int| 0 <= i < seen.len() ==> cand.contains(#[trigger] seen[i]),
    ensures
        seen.len() <= cand.len(),
{
    vstd::seq_lib::seq_to_set_is_finite(cand);
    seen.unique_seq_to_set();
    assert(seen.to_set().subset_of(cand.to_set())) by {
        assert forall|x: Seq<char>| seen.to_set().contains(x) implies cand.to_set().contains(x) by {
            let i = choose|i: int| 0 <= i < seen.len() && seen[i] == x;
            assert(cand.contains(seen[i]));
        }
    }
    vstd::set_lib::lemma_len_subset(seen.to_set(), cand.to_set());
    cand.lemma_cardinality_of_set();
}

fn find_track(g: &Vec<TrackSends>, id: &str) -> (r: Option<usize>)
    ensures
        match r {
            Some(k) => k < g@.len() && track_pos(graph_view(g@), id@) == Some(k as int),
            None => track_pos(graph_view(g@), id@) is None,
        },
{
    let ghost gv = graph_view(g@);
    let mut i: usize = 0;
    while i < g.len()
        invariant
            0 <= i <= g@.len(),
            gv == graph_view(g@),
            gv.len() == g@.len(),
            forall|k: int| 0 <= k < i ==> (#[trigger] gv[k]).0 != id@,
        decreases g@.len() - i,
    {
        if str_eq(g[i].id.as_str(), id) {
            proof {
                lemma_first_match_at(gv, |t: (Seq<char>, Seq<(Seq<char>, bool)>)| t.0 == id@, i as int);
            }
            return Some(i);
        }
        i = i + 1;
    }
    proof {
        lemma_first_match_none(gv, |t: (Seq<char>, Seq<(Seq<char>, bool)>)| t.0 == id@);
    }
    None
}

fn seq_has(v: &Vec<String>, x: &str) -> (r: bool)
    ensures
        r == v@.map_values(|s: String| s@).contains(x@),
{
    let ghost vv = v@.map_values(|s: String| s@);
    let mut i: usize = 0;
    while i < v.len()
        invariant
            0 <= i <= v@.len(),
            vv == v@.map_values(|s: String| s@),
            forall|k: int| 0 <= k < i ==> vv[k] != x@,
        decreases v@.len() - i,
    {
        if str_eq(v[i].as_str(), x) {
            assert(vv[i as int] == x@);
            return true;
        }
        i = i + 1;
    }
    false
}

/// Texts by their characters.
pub open spec fn names(v: Seq<String>) -> Seq<Seq<char>> {
    v.map_values(|s: String| s@)
}

/// Whether signal from `src` can reach `dst` through enabled sends; used
/// to refuse a send that would close a cycle.
pub fn send_path_exists(tracks: &Vec<TrackSends>, src: &str, dst: &str) -> (r: bool)
    ensures
        r == reaches(graph_view(tracks@), src@, dst@),
{
    let ghost g = graph_view(tracks@);
    let ghost cand = seq![src@] + targets_of(g);
    let mut stack: Vec<String> = Vec::new();
    stack.push(String::from_str(src));
    let mut seen: Vec<String> = Vec::new();
    proof {
        assert(names(stack@) =~= seq![src@]);
        assert(cand[0] == src@);
        assert(is_path(g, seq![src@]));
        assert(reaches(g, src@, src@));
        assert(names(seen@) =~= Seq::<Seq<char>>::empty());
    }
    while stack.len() > 0
        invariant
            g == graph_view(tracks@),
            cand == seq![src@] + targets_of(g),
            forall|i: int| 0 <= i < names(stack@).len() ==> reaches(g, src@, #[trigger] names(stack@)[i]),
            forall|i: int| 0 <= i < names(stack@).len() ==> cand.contains(#[trigger] names(stack@)[i]),
            names(seen@).no_duplicates(),
            forall|i: int| 0 <= i < names(seen@).len() ==> cand.contains(#[trigger] names(seen@)[i]),
            names(seen@).contains(src@) || names(stack@).contains(src@),
            !names(seen@).contains(dst@),
            forall|v: Seq<char>, w: Seq<char>| names(seen@).contains(v) && #[trigger] edge(g, v, w)
                ==> names(seen@).contains(w) || names(stack@).contains(w),
        decreases cand.len() - names(seen@).len(), names(stack@).len(),
    {
        proof {
            lemma_seen_bounded(names(seen@), cand);
        }
        let ghost stack_before = names(stack@);
        let ghost seen_before = names(seen@);
        let cur = stack.pop().unwrap();
        proof {
            assert(names(stack@) =~= stack_before.drop_last());
            assert(cur@ == stack_before.last());
            assert(reaches(g, src@, stack_before[stack_before.len() - 1]));
            assert(cand.contains(stack_before[stack_before.len() - 1]));
        }
        if str_eq(cur.as_str(), dst) {
            return true;
        }
        if seq_has(&seen, cur.as_str()) {
            proof {
                assert forall|v: Seq<char>, w: Seq<char>| names(seen@).contains(v) && #[trigger] edge(g, v, w)
                    implies names(seen@).contains(w) || names(stack@).contains(w) by {
                    if stack_before.contains(w) && w != cur@ {
                        let i = choose|i: int| 0 <= i < stack_before.len() && stack_before[i] == w;
                        assert(names(stack@)[i] == w);
                    }
                }
                if !names(seen@).contains(src@) {
                    let i = choose|i: int| 0 <= i < stack_before.len() && stack_before[i] == src@;
                    if i < stack_before.len() - 1 {
                        assert(names(stack@)[i] == src@);
                    }
                }
            }
            continue;
        }
        let ghost cur_v = cur@;
        seen.push(cur.clone());
        proof {
            assert(names(seen@) =~= seen_before.push(cur_v));
            assert(names(seen@).no_duplicates()) by {
                assert forall|a: int, b: int| 0 <= a < b < names(seen@).len() implies names(seen@)[a] != names(seen@)[b] by {
                    if b == names(seen@).len() - 1 {
                        assert(seen_before[a] != cur_v);
                    } else {
                        assert(seen_before[a] != seen_before[b]);
                    }
                }
            }
            assert(forall|i: int| 0 <= i < names(seen@).len() ==> cand.contains(#[trigger] names(seen@)[i]));
            lemma_seen_bounded(names(seen@), cand);
        }
        let ghost stack_mid = names(stack@);
        match find_track(tracks, cur.as_str()) {
            Some(k) => {
                let track = &tracks[k];
                let ghost sends = g[k as int].1;
                assert(sends == track.sends@.map_values(|s: SendTarget| (s.target@, s.enabled)));
                let mut j: usize = 0;
                while j < track.sends.len()
                    invariant
                        g == graph_view(tracks@),
                        cand == seq![src@] + targets_of(g),
                        track_pos(g, cur_v) == Some(k as int),
                        k < g.len(),
                        sends == g[k as int].1,
                        sends.len() == track.sends@.len(),
                        sends == track.sends@.map_values(|s: SendTarget| (s.target@, s.enabled)),
                        reaches(g, src@, cur_v),
                        0 <= j <= track.sends@.len(),
                        forall|i: int| 0 <= i < stack_mid.len() ==> names(stack@)[i] == stack_mid[i],
                        names(stack@).len() >= stack_mid.len(),
                        forall|i: int| 0 <= i < names(stack@).len() ==> reaches(g, src@, #[trigger] names(stack@)[i]),
                        forall|i: int| 0 <= i < names(stack@).len() ==> cand.contains(#[trigger] names(stack@)[i]),
                        forall|i: int| 0 <= i < j && (#[trigger] sends[i]).1 ==> names(stack@).contains(sends[i].0),
                    decreases track.sends@.len() - j,
                {
                    if track.sends[j].enabled {
                        let ghost before = names(stack@);
                        let t = track.sends[j].target.clone();
                        stack.push(t);
                        proof {
                            assert(names(stack@) =~= before.push(sends[j as int].0));
                            assert(sends[j as int].1);
                            assert(sends_to(sends, sends[j as int].0));
                            assert(edge(g, cur_v, sends[j as int].0));
                            lemma_reach_step(g, src@, cur_v, sends[j as int].0);
                            lemma_target_listed(g, k as int, j as int);
                            assert(cand =~= seq![src@] + targets_of(g));
                            let ti = choose|ti: int| 0 <= ti < targets_of(g).len() && targets_of(g)[ti] == sends[j as int].0;
                            assert(cand[ti + 1] == sends[j as int].0);
                            assert forall|i: int| 0 <= i < j + 1 && (#[trigger] sends[i]).1 implies names(stack@).contains(sends[i].0) by {
                                if i < j {
                                    let x = choose|x: int| 0 <= x < before.len() && before[x] == sends[i].0;
                                    assert(names(stack@)[x] == sends[i].0);
                                } else {
                                    assert(names(stack@)[before.len() as int] == sends[i].0);
                                }
                            }
                        }
                    }
                    j = j + 1;
                }
                proof {
                    assert forall|w: Seq<char>| #[trigger] edge(g, cur_v, w) implies names(stack@).contains(w) by {
                        assert(sends_to(sends, w));
                        let jj = choose|jj: int| 0 <= jj < sends.len() && (#[trigger] sends[jj]).1 && sends[jj].0 == w;
                        assert(sends[jj].1);
                    }
                }
            },
            None => {
                proof {
                    assert forall|w: Seq<char>| !edge(g, cur_v, w) by {}
                }
            },
        }
        proof {
            assert forall|v: Seq<char>, w: Seq<char>| names(seen@).contains(v) && #[trigger] edge(g, v, w)
                implies names(seen@).contains(w) || names(stack@).contains(w) by {
                if v == cur_v {
                } else {
                    let vi = choose|vi: int| 0 <= vi < names(seen@).len() && names(seen@)[vi] == v;
                    assert(seen_before[vi] == v);
                    assert(seen_before.contains(v));
                    if w == cur_v {
                        assert(names(seen@)[seen_before.len() as int] == w);
                    } else if !seen_before.contains(w) {
                        assert(stack_before.contains(w));
                        let i = choose|i: int| 0 <= i < stack_before.len() && stack_before[i] == w;
                        assert(i < stack_mid.len());
                        assert(stack_mid[i] == stack_before[i]);
                        assert(names(stack@)[i] == w);
                    } else {
                        let i = choose|i: int| 0 <= i < seen_before.len() && seen_before[i] == w;
                        assert(names(seen@)[i] == w);
                    }
                }
            }
            if src@ == cur_v {
                assert(names(seen@)[seen_before.len() as int] == src@);
            } else if seen_before.contains(src@) {
                let i = choose|i: int| 0 <= i < seen_before.len() && seen_before[i] == src@;
                assert(names(seen@)[i] == src@);
            } else {
                let i = choose|i: int| 0 <= i < stack_before.len() && stack_before[i] == src@;
                assert(i < stack_mid.len());
                assert(stack_mid[i] == stack_before[i]);
                assert(names(stack@)[i] == src@);
            }
            if names(seen@).contains(dst@) {
                let i = choose|i: int| 0 <= i < names(seen@).len() && names(seen@)[i] == dst@;
                if i < seen_before.len() {
                    assert(seen_before[i] == dst@);
                }
            }
        }
    }
    proof {
        lemma_closed_set_blocks(g, names(seen@), src@, dst@);
    }
    false
}

/// Why a send is refused, or `None` when it may be added: a track may not
/// feed itself, both tracks must exist, and the target may not already
/// reach the source (that would close a cycle).
pub open spec fn new_send_error(g: Seq<(Seq<char>, Seq<(Seq<char>, bool)>)>, source: Seq<char>, target: Seq<char>) -> Option<Seq<char>> {
    if source == target {
        Some("A track cannot send to itself"@)
    } else if track_pos(g, source) is None {
        Some("Source track not found: "@ + source)
    } else if track_pos(g, target) is None {
        Some("Target track not found: "@ + target)
    } else if reaches(g, target, source) {
        Some("Refusing to create a send cycle"@)
    } else {
        None
    }
}

/// Checks a new send from `source` to `target` before it is added.
pub fn validate_new_send(tracks: &Vec<TrackSends>, source: &str, target: &str) -> (r: Result<(), String>)
    ensures
        match new_send_error(graph_view(tracks@), source@, target@) {
            Some(m) => r matches Err(e) && e@ == m,
            None => r is Ok,
        },
{
    if str_eq(source, target) {
        return Err(String::from_str("A track cannot send to itself"));
    }
    if find_track(tracks, source).is_none() {
        let mut m = String::from_str("Source track not found: ");
        m.append(source);
        return Err(m);
    }
    if find_track(tracks, target).is_none() {
        let mut m = String::from_str("Target track not found: ");
        m.append(target);
        return Err(m);
    }
    if send_path_exists(tracks, target, source) {
        return Err(String::from_str("Refusing to create a send cycle"));
    }
    Ok(())
}

/// Why pointing an existing send of `source` at `target` is refused, or
/// `None`: the same checks as a new send, except that the source is not
/// looked up.
pub open spec fn retarget_error(g: Seq<(Seq<char>, Seq<(Seq<char>, bool)>)>, source: Seq<char>, target: Seq<char>) -> Option<Seq<char>> {
    if source == target {
        Some("A track cannot send to itself"@)
    } else if track_pos(g, target) is None {
        Some("Target track not found: "@ + target)
    } else if reaches(g, target, source) {
        Some("Refusing to create a send cycle"@)
    } else {
        None
    }
}

/// Checks pointing one of `source`'s sends at `target`.
pub fn validate_send_target(tracks: &Vec<TrackSends>, source: &str, target: &str) -> (r: Result<(), String>)
    ensures
        match retarget_error(graph_view(tracks@), source@, target@) {
            Some(m) => r matches Err(e) && e@ == m,
            None => r is Ok,
        },
{
    if str_eq(source, target) {
        return Err(String::from_str("A track cannot send to itself"));
    }
    if find_track(tracks, target).is_none() {
        let mut m = String::from_str("Target track not found: ");
        m.append(target);
        return Err(m);
    }
    if send_path_exists(tracks, target, source) {
        return Err(String::from_str("Refusing to create a send cycle"));
    }
    Ok(())
}

} // verus!
