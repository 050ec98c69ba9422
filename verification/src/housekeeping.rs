//! Small list decisions the commands make: which old session logs to
//! delete, where a reordered insert lands, and which notes a selection
//! names.

use vstd::prelude::*;
use crate::text::{chars_lt, lemma_chars_lt_irreflexive, lemma_chars_lt_total, lemma_chars_lt_transitive, str_lt};
use crate::wire::{ends_with, starts_with};

verus! {

/// How many session logs are kept, counting the one about to be written.
pub const KEEP_SESSIONS: usize = 5;

/// Texts by their characters.
pub open spec fn texts(s: Seq<String>) -> Seq<Seq<char>> {
    s.map_values(|x: String| x@)
}

/// Texts in ascending order (equal texts side by side).
pub open spec fn texts_sorted(s: Seq<Seq<char>>) -> bool {
    forall|i: int, j: int| 0 <= i < j < s.len() ==> !chars_lt(#[trigger] s[j], #[trigger] s[i])
}

/// Sorts texts in ascending order by code point, as `str`'s order does.
pub fn sort_texts(items: Vec<String>) -> (out: Vec<String>)
    ensures
        texts_sorted(texts(out@)),
        texts(out@).to_multiset() == texts(items@).to_multiset(),
{
    let ghost input = texts(items@);
    let n = items.len();
    let mut rest = items;
    let mut out: Vec<String> = Vec::new();
    let mut i: usize = 0;
    proof {
        assert(texts(out@) =~= Seq::<Seq<char>>::empty());
        assert(input.take(0) =~= Seq::<Seq<char>>::empty());
    }
    while rest.len() > 0
        invariant
            input.len() == n,
            i + rest@.len() == n,
            texts(rest@) == input.skip(i as int),
            texts_sorted(texts(out@)),
            texts(out@).to_multiset() == input.take(i as int).to_multiset(),
        decreases rest@.len(),
    {
        let ghost rest_before = rest@;
        let x = rest.remove(0);
        assert(x@ == input[i as int]) by {
            assert(texts(rest_before)[0] == x@);
        }
        let ghost ov = texts(out@);
        let mut j: usize = 0;
        while j < out.len() && !str_lt(x.as_str(), out[j].as_str())
            invariant
                0 <= j <= out@.len(),
                ov == texts(out@),
                forall|k: int| 0 <= k < j ==> !chars_lt(x@, #[trigger] ov[k]),
            decreases out@.len() - j,
        {
            j = j + 1;
        }
        proof {
            if j < out@.len() {
                assert(chars_lt(x@, ov[j as int]));
            }
            assert forall|k: int| j <= k < ov.len() implies chars_lt(x@, #[trigger] ov[k]) by {
                if k > j {
                    assert(!chars_lt(ov[k], ov[j as int]));
                    lemma_chars_lt_total(ov[k], ov[j as int]);
                    if ov[k] != ov[j as int] {
                        lemma_chars_lt_transitive(x@, ov[j as int], ov[k]);
                    }
                }
            }
        }
        let ghost xv = x@;
        out.insert(j, x);
        proof {
            let after = texts(out@);
            assert(after =~= ov.insert(j as int, xv));
            assert(texts_sorted(after)) by {
                assert forall|a: int, b: int| 0 <= a < b < after.len() implies !chars_lt(#[trigger] after[b], #[trigger] after[a]) by {
                    if a < j && b < j {
                        assert(after[a] == ov[a] && after[b] == ov[b]);
                    } else if a < j && b == j {
                        assert(after[a] == ov[a]);
                        lemma_chars_lt_total(xv, ov[a]);
                    } else if a < j {
                        assert(after[a] == ov[a] && after[b] == ov[b - 1]);
                    } else if a == j {
                        assert(after[b] == ov[b - 1]);
                        lemma_chars_lt_total(xv, ov[b - 1]);
                    } else {
                        assert(after[a] == ov[a - 1] && after[b] == ov[b - 1]);
                    }
                }
            }
            vstd::seq_lib::to_multiset_insert(ov, j as int, xv);
            assert(input.take(i as int + 1) =~= input.take(i as int).push(xv));
            vstd::seq_lib::to_multiset_build(input.take(i as int), xv);
        }
        assert(texts(rest@) =~= texts(rest_before).skip(1));
        assert(texts(rest@) =~= input.skip(i as int + 1));
        i = i + 1;
    }
    assert(input.take(i as int) =~= input);
    out
}

/// A session log's file name: `session-….log`.
pub open spec fn is_session_log(name: Seq<char>) -> bool {
    starts_with(name, "session-"@) && ends_with(name, ".log"@)
}

fn text_starts_with(s: &str, p: &str) -> (r: bool)
    ensures
        r == starts_with(s@, p@),
{
    let n = s.unicode_len();
    let m = p.unicode_len();
    if m > n {
        return false;
    }
    assert(s@.subrange(0, m as int) =~= s@.take(m as int));
    crate::text::str_eq(s.substring_char(0, m), p)
}

fn text_ends_with(s: &str, p: &str) -> (r: bool)
    ensures
        r == ends_with(s@, p@),
{
    let n = s.unicode_len();
    let m = p.unicode_len();
    if m > n {
        return false;
    }
    assert(s@.subrange(n - m, n as int) =~= s@.skip(n - m));
    crate::text::str_eq(s.substring_char(n - m, n), p)
}

/// The session logs to delete before a new session starts: the logs in
/// the folder (by file name), oldest first as their timestamped names sort,
/// all but the newest `KEEP_SESSIONS - 1`.
pub fn sessions_to_prune(file_names: Vec<String>) -> (doomed: Vec<String>)
    ensures
        ({
            let logs = texts(file_names@).filter(|n: Seq<char>| is_session_log(n));
            let keep = (KEEP_SESSIONS - 1) as int;
            &&& texts_sorted(texts(doomed@))
            &&& doomed@.len() == (if logs.len() > keep { logs.len() - keep } else { 0 })
            &&& forall|k: int| 0 <= k < doomed@.len() ==> is_session_log(#[trigger] texts(doomed@)[k])
            &&& exists|order: Seq<Seq<char>>| {
                &&& texts_sorted(order)
                &&& #[trigger] order.to_multiset() == logs.to_multiset()
                &&& texts(doomed@) == order.take(doomed@.len() as int)
            }
        }),
{
    let ghost all = texts(file_names@);
    let n = file_names.len();
    let mut rest = file_names;
    let mut logs: Vec<String> = Vec::new();
    let mut i: usize = 0;
    while rest.len() > 0
        invariant
            all.len() == n,
            i + rest@.len() == n,
            texts(rest@) == all.skip(i as int),
            texts(logs@) == all.take(i as int).filter(|n: Seq<char>| is_session_log(n)),
        decreases rest@.len(),
    {
        let ghost rest_before = rest@;
        let name = rest.remove(0);
        assert(name@ == all[i as int]) by {
            assert(texts(rest_before)[0] == name@);
        }
        proof {
            reveal_with_fuel(Seq::filter, 1);
            assert(all.take(i as int + 1).drop_last() =~= all.take(i as int));
        }
        if text_starts_with(name.as_str(), "session-") && text_ends_with(name.as_str(), ".log") {
            let ghost before = texts(logs@);
            let ghost nv = name@;
            logs.push(name);
            assert(texts(logs@) =~= before.push(nv));
        }
        assert(texts(rest@) =~= texts(rest_before).skip(1));
        i = i + 1;
    }
    assert(all.take(i as int) =~= all);
    let ghost log_views = texts(logs@);
    proof {
        assert forall|k: int| 0 <= k < log_views.len() implies is_session_log(#[trigger] log_views[k]) by {
            all.lemma_filter_pred(|n: Seq<char>| is_session_log(n), k);
        }
    }
    let sorted = sort_texts(logs);
    proof {
        assert forall|k: int| 0 <= k < texts(sorted@).len() implies is_session_log(#[trigger] texts(sorted@)[k]) by {
            let x = texts(sorted@)[k];
            assert(texts(sorted@).contains(x));
            vstd::seq_lib::to_multiset_contains(texts(sorted@), x);
            vstd::seq_lib::to_multiset_contains(log_views, x);
            let m = choose|m: int| 0 <= m < log_views.len() && log_views[m] == x;
            assert(is_session_log(log_views[m]));
        }
        vstd::seq_lib::to_multiset_len(texts(sorted@));
        vstd::seq_lib::to_multiset_len(log_views);
    }
    let keep_existing: usize = KEEP_SESSIONS - 1;
    let ghost order = texts(sorted@);
    let mut doomed: Vec<String> = Vec::new();
    assert(texts(doomed@) =~= order.take(0));
    if sorted.len() > keep_existing {
        let excess = sorted.len() - keep_existing;
        let mut sorted = sorted;
        let ghost sv = texts(sorted@);
        let mut k: usize = 0;
        while k < excess
            invariant
                excess <= sv.len(),
                sv.len() == sorted@.len() + k,
                texts(sorted@) == sv.skip(k as int),
                texts(doomed@) == sv.take(k as int),
                0 <= k <= excess,
            decreases excess - k,
        {
            let ghost sb = sorted@;
            let x = sorted.remove(0);
            let ghost xv = x@;
            assert(xv == sv[k as int]) by {
                assert(texts(sb)[0] == xv);
            }
            let ghost db = texts(doomed@);
            doomed.push(x);
            assert(texts(doomed@) =~= db.push(xv));
            assert(sv.take(k as int + 1) =~= sv.take(k as int).push(sv[k as int]));
            assert(texts(doomed@) =~= sv.take(k as int + 1));
            assert(texts(sorted@) =~= texts(sb).skip(1));
            assert(texts(sorted@) =~= sv.skip(k as int + 1));
            k = k + 1;
        }
    }
    doomed
}

/// Moves the item at `from` to `new_index` (held to the last position);
/// returns where it landed. Nothing moves when the two coincide.
pub fn move_item<T>(items: &mut Vec<T>, from: usize, new_index: usize) -> (to: usize)
    requires
        from < old(items)@.len(),
    ensures
        to == (if new_index < old(items)@.len() - 1 { new_index as int } else { old(items)@.len() - 1 }),
        from == to ==> final(items)@ == old(items)@,
        from != to ==> final(items)@ == old(items)@.remove(from as int).insert(to as int, old(items)@[from as int]),
{
    let last = items.len() - 1;
    let to = if new_index < last { new_index } else { last };
    if from != to {
        let item = items.remove(from);
        items.insert(to, item);
    }
    to
}

/// The notes a selection names: every note for an empty selection,
/// otherwise the listed indices that exist, in the order listed.
pub open spec fn selected_spec(len: nat, indices: Seq<usize>) -> Seq<usize> {
    if indices.len() == 0 {
        Seq::new(len, |i: int| i as usize)
    } else {
        indices.filter(|i: usize| i < len)
    }
}

/// The indices of the notes a selection names.
pub fn selected_indices(len: usize, indices: &[usize]) -> (r: Vec<usize>)
    ensures
        r@ == selected_spec(len as nat, indices@),
{
    let mut r: Vec<usize> = Vec::new();
    if indices.len() == 0 {
        let mut i: usize = 0;
        while i < len
            invariant
                0 <= i <= len,
                r@ == Seq::new(i as nat, |k: int| k as usize),
            decreases len - i,
        {
            r.push(i);
            assert(r@ =~= Seq::new(i as nat + 1, |k: int| k as usize));
            i = i + 1;
        }
        return r;
    }
    let mut j: usize = 0;
    while j < indices.len()
        invariant
            0 <= j <= indices@.len(),
            r@ == indices@.take(j as int).filter(|i: usize| i < len),
        decreases indices@.len() - j,
    {
        proof {
            reveal_with_fuel(Seq::filter, 1);
            assert(indices@.take(j as int + 1).drop_last() =~= indices@.take(j as int));
        }
        if indices[j] < len {
            r.push(indices[j]);
        }
        j = j + 1;
    }
    assert(indices@.take(j as int) =~= indices@);
    r
}

} // verus!
