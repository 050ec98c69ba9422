//! Rules the track list keeps: exclusive solo, reordering with the master
//! held last, and which inserts name a plug-in that is not installed.

use vstd::prelude::*;
use crate::seqs::{first_match, lemma_first_match_at, lemma_first_match_none};
use crate::text::str_eq;
use crate::wire::MissingPluginInfo;

verus! {

/// What the solo rules read of a track.
#[derive(Debug)]
pub struct TrackSolo {
    pub id: String,
    pub is_master: bool,
    pub soloed: bool,
}

/// Tracks with id `id`.
pub open spec fn solo_named(id: Seq<char>) -> spec_fn(TrackSolo) -> bool {
    |t: TrackSolo| t.id@ == id
}

/// Whether the first track with id `id` is soloed (`false` when none is).
pub open spec fn soloed_now(tracks: Seq<TrackSolo>, id: Seq<char>) -> bool {
    match first_match(tracks, solo_named(id)) {
        Some(k) => tracks[k].soloed,
        None => false,
    }
}

fn find_track(tracks: &Vec<TrackSolo>, id: &str) -> (r: Option<usize>)
    ensures
        match r {
            Some(i) => i < tracks@.len() && tracks@[i as int].id@ == id@ && first_match(tracks@, solo_named(id@)) == Some(i as int),
            None => first_match(tracks@, solo_named(id@)) is None,
        },
{
    let mut i: usize = 0;
    while i < tracks.len()
        invariant
            0 <= i <= tracks@.len(),
            forall|j: int| 0 <= j < i ==> (#[trigger] tracks@[j]).id@ != id@,
        decreases tracks@.len() - i,
    {
        if str_eq(tracks[i].id.as_str(), id) {
            proof {
                lemma_first_match_at(tracks@, solo_named(id@), i as int);
            }
            return Some(i);
        }
        i = i + 1;
    }
    proof {
        lemma_first_match_none(tracks@, solo_named(id@));
    }
    None
}

/// Exclusive solo: the track `id` is soloed and every other track that is
/// not the master is unsoloed; when `id` was already soloed it is unsoloed
/// instead. The master keeps its state.
pub fn set_exclusive_solo(tracks: &mut Vec<TrackSolo>, track_id: &str)
    ensures
        final(tracks)@.len() == old(tracks)@.len(),
        forall|i: int|
            0 <= i < old(tracks)@.len() ==> {
                let t = old(tracks)@[i];
                &&& (#[trigger] final(tracks)@[i]).id == t.id
                &&& final(tracks)@[i].is_master == t.is_master
                &&& final(tracks)@[i].soloed == (if t.is_master {
                    t.soloed
                } else if t.id@ == track_id@ {
                    !soloed_now(old(tracks)@, track_id@)
                } else {
                    false
                })
            },
{
    let was_soloed = match find_track(tracks, track_id) {
        Some(k) => tracks[k].soloed,
        None => false,
    };
    let ghost before = tracks@;
    let mut i: usize = 0;
    while i < tracks.len()
        invariant
            0 <= i <= tracks@.len(),
            tracks@.len() == before.len(),
            was_soloed == soloed_now(before, track_id@),
            forall|j: int| i <= j < tracks@.len() ==> tracks@[j] == before[j],
            forall|j: int|
                0 <= j < i ==> {
                    let t = before[j];
                    &&& (#[trigger] tracks@[j]).id == t.id
                    &&& tracks@[j].is_master == t.is_master
                    &&& tracks@[j].soloed == (if t.is_master {
                        t.soloed
                    } else if t.id@ == track_id@ {
                        !was_soloed
                    } else {
                        false
                    })
                },
        decreases tracks@.len() - i,
    {
        if !tracks[i].is_master {
            let soloed = if str_eq(tracks[i].id.as_str(), track_id) {
                !was_soloed
            } else {
                false
            };
            let id = tracks[i].id.clone();
            let is_master = tracks[i].is_master;
            tracks.set(i, TrackSolo { id, is_master, soloed });
        }
        i = i + 1;
    }
}

/// Where a reordered track lands: the index asked for, held below the
/// master tracks at the end.
pub open spec fn reorder_target(len: nat, masters: nat, new_index: nat) -> nat {
    let max_idx: nat = if len >= 1 + masters { (len - 1 - masters) as nat } else { 0 };
    if new_index < max_idx { new_index } else { max_idx }
}

/// Master tracks, as a filter.
pub open spec fn is_master_track() -> spec_fn(TrackSolo) -> bool {
    |t: TrackSolo| t.is_master
}

/// How many tracks are master tracks.
pub open spec fn master_count(tracks: Seq<TrackSolo>) -> nat {
    tracks.filter(is_master_track()).len()
}

/// Moves track `id` to `new_index`, kept below the master, which never
/// moves; an unknown id or the master itself leaves the list unchanged.
pub fn reorder_track(tracks: &mut Vec<TrackSolo>, track_id: &str, new_index: usize)
    ensures
        match first_match(old(tracks)@, solo_named(track_id@)) {
            Some(k) => if old(tracks)@[k].is_master {
                final(tracks)@ == old(tracks)@
            } else {
                final(tracks)@ == old(tracks)@.remove(k).insert(
                    reorder_target(old(tracks)@.len(), master_count(old(tracks)@), new_index as nat) as int,
                    old(tracks)@[k],
                )
            },
            None => final(tracks)@ == old(tracks)@,
        },
{
    let old_idx = match find_track(tracks, track_id) {
        Some(i) => i,
        None => return,
    };
    if tracks[old_idx].is_master {
        return;
    }
    let ghost all = tracks@;
    let mut masters: usize = 0;
    let mut i: usize = 0;
    while i < tracks.len()
        invariant
            0 <= i <= tracks@.len(),
            tracks@ == all,
            masters == all.take(i as int).filter(is_master_track()).len(),
            masters <= i,
        decreases tracks@.len() - i,
    {
        proof {
            reveal_with_fuel(Seq::filter, 1);
            assert(all.take(i as int + 1).drop_last() =~= all.take(i as int));
        }
        if tracks[i].is_master {
            masters = masters + 1;
        }
        i = i + 1;
    }
    assert(all.take(i as int) =~= all);
    proof {
        lemma_filter_len_le_without(all, is_master_track(), old_idx as int);
    }
    let len = tracks.len();
    let max_idx = if len >= 1 + masters { len - 1 - masters } else { 0 };
    let target = if new_index < max_idx { new_index } else { max_idx };
    let t = tracks.remove(old_idx);
    tracks.insert(target, t);
}

proof fn lemma_filter_len_le_without(all: Seq<TrackSolo>, p: spec_fn(TrackSolo) -> bool, k: int)
    requires
        0 <= k < all.len(),
        !p(all[k]),
    ensures
        all.filter(p).len() < all.len(),
    decreases all.len(),
{
    reveal_with_fuel(Seq::filter, 1);
    let last = all.len() - 1;
    all.drop_last().lemma_filter_len(p);
    if k < last {
        lemma_filter_len_le_without(all.drop_last(), p, k);
        assert(all.drop_last()[k] == all[k]);
    }
}

/// Law: a reordered track lands where it was dropped. Moving a track that is
/// not the master to `new_index` puts it exactly at `new_index` when that is
/// at or above the last place before the masters (`len - 1 - masters`), and
/// at that last place otherwise; the other tracks keep their order.
pub proof fn lemma_reordered_track_lands_where_dropped(tracks: Seq<TrackSolo>, k: int, new_index: nat)
    requires
        0 <= k < tracks.len(),
        !tracks[k].is_master,
    ensures
        ({
            let last_place = tracks.len() - 1 - master_count(tracks);
            let after = tracks.remove(k).insert(
                reorder_target(tracks.len(), master_count(tracks), new_index) as int,
                tracks[k],
            );
            &&& 0 <= last_place
            &&& new_index <= last_place ==> after[new_index as int] == tracks[k]
            &&& new_index > last_place ==> after[last_place] == tracks[k]
            &&& after.len() == tracks.len()
            &&& after.remove(if new_index <= last_place { new_index as int } else { last_place }) == tracks.remove(k)
        }),
{
    lemma_filter_len_le_without(tracks, is_master_track(), k);
    let target = reorder_target(tracks.len(), master_count(tracks), new_index) as int;
    let rest = tracks.remove(k);
    let after = rest.insert(target, tracks[k]);
    assert(after.remove(target) =~= rest);
}

/// One insert slot of a track.
#[derive(Debug)]
pub struct InsertRef {
    pub slot_id: String,
    pub plugin_id: String,
}

/// A track's id, name and insert slots, in order.
#[derive(Debug)]
pub struct TrackInserts {
    pub track_id: String,
    pub track_name: String,
    pub inserts: Vec<InsertRef>,
}

/// Whether `id` is among the installed plug-ins.
pub open spec fn installed(available: Seq<String>, id: Seq<char>) -> bool {
    exists|j: int| 0 <= j < available.len() && (#[trigger] available[j])@ == id
}

/// The missing-plug-in rows for one track: its inserts whose plug-in is not
/// installed, with their slot positions, in slot order.
pub open spec fn missing_in_track(t: TrackInserts, available: Seq<String>) -> Seq<(Seq<char>, Seq<char>, Seq<char>, Seq<char>, nat)>
    decreases t.inserts@.len(),
{
    missing_in_slots(t.track_id@, t.track_name@, t.inserts@, available)
}

/// The rows for a run of slots.
pub open spec fn missing_in_slots(
    track_id: Seq<char>,
    track_name: Seq<char>,
    slots: Seq<InsertRef>,
    available: Seq<String>,
) -> Seq<(Seq<char>, Seq<char>, Seq<char>, Seq<char>, nat)>
    decreases slots.len(),
{
    if slots.len() == 0 {
        Seq::empty()
    } else {
        let earlier = missing_in_slots(track_id, track_name, slots.drop_last(), available);
        let s = slots.last();
        if installed(available, s.plugin_id@) {
            earlier
        } else {
            earlier.push((s.plugin_id@, track_id, track_name, s.slot_id@, (slots.len() - 1) as nat))
        }
    }
}

/// The rows for a run of tracks.
pub open spec fn missing_in_tracks(tracks: Seq<TrackInserts>, available: Seq<String>) -> Seq<
    (Seq<char>, Seq<char>, Seq<char>, Seq<char>, nat),
>
    decreases tracks.len(),
{
    if tracks.len() == 0 {
        Seq::empty()
    } else {
        missing_in_tracks(tracks.drop_last(), available) + missing_in_track(tracks.last(), available)
    }
}

/// A missing-plug-in row by its characters.
pub open spec fn missing_view(m: MissingPluginInfo) -> (Seq<char>, Seq<char>, Seq<char>, Seq<char>, nat) {
    (m.plugin_id@, m.track_id@, m.track_name@, m.slot_id@, m.slot_index as nat)
}

fn is_installed(available: &Vec<String>, id: &str) -> (r: bool)
    ensures
        r == installed(available@, id@),
{
    let mut j: usize = 0;
    while j < available.len()
        invariant
            0 <= j <= available@.len(),
            forall|k: int| 0 <= k < j ==> (#[trigger] available@[k])@ != id@,
        decreases available@.len() - j,
    {
        if str_eq(available[j].as_str(), id) {
            return true;
        }
        j = j + 1;
    }
    false
}

/// Every insert, track by track and slot by slot, whose plug-in is not among
/// the installed ones, so the project can say what it needs.
pub fn find_missing_plugins(tracks: &Vec<TrackInserts>, available: &Vec<String>) -> (missing: Vec<MissingPluginInfo>)
    ensures
        missing@.map_values(|m: MissingPluginInfo| missing_view(m)) == missing_in_tracks(tracks@, available@),
{
    let mut missing: Vec<MissingPluginInfo> = Vec::new();
    let mut t: usize = 0;
    while t < tracks.len()
        invariant
            0 <= t <= tracks@.len(),
            missing@.map_values(|m: MissingPluginInfo| missing_view(m)) == missing_in_tracks(tracks@.take(t as int), available@),
        decreases tracks@.len() - t,
    {
        let track = &tracks[t];
        let ghost base = missing@.map_values(|m: MissingPluginInfo| missing_view(m));
        let mut s: usize = 0;
        while s < track.inserts.len()
            invariant
                0 <= s <= track.inserts@.len(),
                missing@.map_values(|m: MissingPluginInfo| missing_view(m)) == base + missing_in_slots(
                    track.track_id@,
                    track.track_name@,
                    track.inserts@.take(s as int),
                    available@,
                ),
            decreases track.inserts@.len() - s,
        {
            let slot = &track.inserts[s];
            proof {
                assert(track.inserts@.take(s as int + 1).drop_last() =~= track.inserts@.take(s as int));
                assert(track.inserts@.take(s as int + 1).last() == track.inserts@[s as int]);
            }
            if !is_installed(available, slot.plugin_id.as_str()) {
                let ghost before = missing@;
                missing.push(MissingPluginInfo {
                    plugin_id: slot.plugin_id.clone(),
                    track_id: track.track_id.clone(),
                    track_name: track.track_name.clone(),
                    slot_id: slot.slot_id.clone(),
                    slot_index: s,
                });
                proof {
                    assert(missing@.map_values(|m: MissingPluginInfo| missing_view(m)) =~= before.map_values(
                        |m: MissingPluginInfo| missing_view(m),
                    ).push(missing_view(missing@.last())));
                }
            }
            s = s + 1;
        }
        proof {
            assert(track.inserts@.take(s as int) =~= track.inserts@);
            assert(tracks@.take(t as int + 1).drop_last() =~= tracks@.take(t as int));
            assert(tracks@.take(t as int + 1).last() == tracks@[t as int]);
        }
        t = t + 1;
    }
    assert(tracks@.take(t as int) =~= tracks@);
    missing
}

} // verus!
