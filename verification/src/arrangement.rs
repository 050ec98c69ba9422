//! Switchable arrangements: several playlists in one project. Everything
//! but the tracks' timelines is shared; an arrangement stores a snapshot of
//! each non-empty track's timeline by track id, and switching captures the
//! live timelines into the active arrangement, then loads the target's.

use vstd::prelude::*;
use crate::seqs::{first_match, lemma_first_match_at, lemma_first_match_none, lemma_first_match_props};
use crate::text::str_eq;

verus! {

/// A track as arrangements see it: its id and its timeline content, `None`
/// when it has neither clips nor automation clips.
#[derive(Debug)]
pub struct LiveTrack<T> {
    pub id: String,
    pub timeline: Option<T>,
}

/// A named arrangement: the timeline of every non-empty track, by track id.
/// A track with no entry has an empty timeline here.
#[derive(Debug)]
pub struct Arrangement<T> {
    pub id: String,
    pub name: String,
    pub timelines: Vec<(String, T)>,
}

/// A project's arrangements and the id of the one being edited.
#[derive(Debug)]
pub struct ArrangementSet<T> {
    pub arrangements: Vec<Arrangement<T>>,
    pub active_arrangement: String,
}

/// A fresh arrangement id: `uuid::Uuid::new_v4()` as text. It is random,
/// so nothing is claimed of it.
#[verifier::external_body]
pub(crate) fn new_id() -> (id: String) {
    uuid::Uuid::new_v4().to_string()
}

// ---------------------------------------------------------------------------
// Specification

/// The timeline a snapshot keeps for `id`: that of the last track with
/// this id that has one.
pub open spec fn live_content<T>(tracks: Seq<LiveTrack<T>>, id: Seq<char>) -> Option<T>
    decreases tracks.len(),
{
    if tracks.len() == 0 {
        None
    } else if tracks.last().id@ == id && tracks.last().timeline is Some {
        tracks.last().timeline
    } else {
        live_content(tracks.drop_last(), id)
    }
}

/// Entries for the track `id`.
pub open spec fn entry_for<T>(id: Seq<char>) -> spec_fn((String, T)) -> bool {
    |e: (String, T)| e.0@ == id
}

/// The timeline stored for track `id`.
pub open spec fn stored<T>(s: Seq<(String, T)>, id: Seq<char>) -> Option<T> {
    match first_match(s, entry_for::<T>(id)) {
        Some(k) => Some(s[k].1),
        None => None,
    }
}

/// No track id is stored twice.
pub open spec fn keys_unique<T>(s: Seq<(String, T)>) -> bool {
    forall|i: int, j: int| 0 <= i < j < s.len() ==> (#[trigger] s[i]).0@ != (#[trigger] s[j]).0@
}

/// `b` is `a`, or a clone of it.
pub open spec fn same_or_clone<T: Clone>(a: Option<T>, b: Option<T>) -> bool {
    match (a, b) {
        (None, None) => true,
        (Some(x), Some(y)) => cloned(x, y),
        _ => false,
    }
}

/// `s` is a snapshot of the live tracks: one entry per track id that has a
/// timeline, holding a clone of it.
pub open spec fn snapshot_of<T: Clone>(s: Seq<(String, T)>, tracks: Seq<LiveTrack<T>>) -> bool {
    &&& keys_unique(s)
    &&& forall|id: Seq<char>| #[trigger] same_or_clone(live_content(tracks, id), stored(s, id))
}

/// The tracks after loading a snapshot: the same tracks in the same order,
/// each holding a clone of its stored timeline, or none.
pub open spec fn loaded_from<T: Clone>(after: Seq<LiveTrack<T>>, before: Seq<LiveTrack<T>>, s: Seq<(String, T)>) -> bool {
    &&& after.len() == before.len()
    &&& forall|i: int|
        0 <= i < after.len() ==> (#[trigger] after[i]).id@ == before[i].id@ && same_or_clone(
            stored(s, before[i].id@),
            after[i].timeline,
        )
}

/// Arrangements with id `id`.
pub open spec fn arr_named<T>(id: Seq<char>) -> spec_fn(Arrangement<T>) -> bool {
    |a: Arrangement<T>| a.id@ == id
}

/// The position of the arrangement `id`.
pub open spec fn arr_index<T>(list: Seq<Arrangement<T>>, id: Seq<char>) -> Option<int> {
    first_match(list, arr_named::<T>(id))
}

/// The arrangements once there is at least one: a project without any
/// gains "Arrangement 1" holding its current timelines; otherwise nothing
/// changes.
pub open spec fn ensured_list<T: Clone>(old_list: Seq<Arrangement<T>>, new_list: Seq<Arrangement<T>>, tracks: Seq<LiveTrack<T>>) -> bool {
    if old_list.len() == 0 {
        &&& new_list.len() == 1
        &&& new_list[0].name@ == "Arrangement 1"@
        &&& snapshot_of(new_list[0].timelines@, tracks)
    } else {
        new_list == old_list
    }
}

/// The active arrangement once there is one: the new first arrangement of
/// a project that had none, the first one when the active id is empty or
/// names no arrangement, and the active one otherwise.
pub open spec fn ensured_active<T>(old_list: Seq<Arrangement<T>>, old_active: Seq<char>, new_list: Seq<Arrangement<T>>) -> Seq<char> {
    if old_list.len() == 0 {
        new_list[0].id@
    } else if old_active.len() == 0 || arr_index(old_list, old_active) is None {
        old_list[0].id@
    } else {
        old_active
    }
}

/// The arrangements after the live timelines are stored into the active
/// one (`new_active`, chosen as `ensure_arrangements` chooses it): that one
/// holds a snapshot of the tracks, every other arrangement is unchanged,
/// and a project that had none gains "Arrangement 1".
pub open spec fn captured_into<T: Clone>(
    old_list: Seq<Arrangement<T>>,
    old_active: Seq<char>,
    new_list: Seq<Arrangement<T>>,
    new_active: Seq<char>,
    tracks: Seq<LiveTrack<T>>,
) -> bool {
    let k = arr_index(new_list, new_active)->0;
    &&& arr_index(new_list, new_active) is Some
    &&& snapshot_of(new_list[k].timelines@, tracks)
    &&& old_list.len() == 0 ==> {
        &&& new_list.len() == 1
        &&& new_list[0].name@ == "Arrangement 1"@
        &&& new_active == new_list[0].id@
    }
    &&& old_list.len() > 0 ==> {
        &&& new_active == ensured_active(old_list, old_active, old_list)
        &&& new_list.len() == old_list.len()
        &&& forall|j: int| 0 <= j < old_list.len() && j != k ==> #[trigger] new_list[j] == old_list[j]
        &&& new_list[k].id == old_list[k].id
        &&& new_list[k].name == old_list[k].name
    }
}

/// Arrangements whose id is not `id`.
pub open spec fn not_named<T>(id: Seq<char>) -> spec_fn(Arrangement<T>) -> bool {
    |a: Arrangement<T>| a.id@ != id
}

// ---------------------------------------------------------------------------
// Snapshots

fn find_entry<T>(s: &Vec<(String, T)>, id: &String) -> (r: Option<usize>)
    ensures
        match r {
            Some(i) => i < s@.len() && s@[i as int].0@ == id@ && first_match(s@, entry_for::<T>(id@)) == Some(i as int),
            None => first_match(s@, entry_for::<T>(id@)) is None,
        },
{
    let mut i: usize = 0;
    while i < s.len()
        invariant
            0 <= i <= s@.len(),
            forall|j: int| 0 <= j < i ==> (#[trigger] s@[j]).0@ != id@,
        decreases s@.len() - i,
    {
        if str_eq(s[i].0.as_str(), id.as_str()) {
            proof {
                lemma_first_match_at(s@, entry_for::<T>(id@), i as int);
            }
            return Some(i);
        }
        i = i + 1;
    }
    proof {
        lemma_first_match_none(s@, entry_for::<T>(id@));
    }
    None
}

proof fn lemma_live_content_step<T>(tracks: Seq<LiveTrack<T>>, i: int, id: Seq<char>)
    requires
        0 <= i < tracks.len(),
    ensures
        live_content(tracks.take(i + 1), id) == (if tracks[i].id@ == id && tracks[i].timeline is Some {
            tracks[i].timeline
        } else {
            live_content(tracks.take(i), id)
        }),
{
    assert(tracks.take(i + 1).drop_last() =~= tracks.take(i));
    assert(tracks.take(i + 1).last() == tracks[i]);
}

/// The snapshot of the live tracks' timelines, keyed by track id; tracks
/// with an empty timeline are left out.
pub fn snapshot_live<T: Clone>(tracks: &Vec<LiveTrack<T>>) -> (s: Vec<(String, T)>)
    ensures
        snapshot_of(s@, tracks@),
{
    let mut s: Vec<(String, T)> = Vec::new();
    let mut i: usize = 0;
    while i < tracks.len()
        invariant
            0 <= i <= tracks@.len(),
            snapshot_of(s@, tracks@.take(i as int)),
        decreases tracks@.len() - i,
    {
        let t = &tracks[i];
        let ghost before = s@;
        proof {
            assert forall|id: Seq<char>| #[trigger] live_content(tracks@.take(i as int + 1), id) == (if tracks@[i as int].id@ == id
                && tracks@[i as int].timeline is Some {
                tracks@[i as int].timeline
            } else {
                live_content(tracks@.take(i as int), id)
            }) by {
                lemma_live_content_step(tracks@, i as int, id);
            }
        }
        match &t.timeline {
            Some(tl) => {
                let copy = tl.clone();
                let found = find_entry(&s, &t.id);
                match found {
                    Some(k) => {
                        let key = t.id.clone();
                        s.set(k, (key, copy));
                        proof {
                            assert(before[k as int].0@ == t.id@);
                            lemma_first_match_props(before, entry_for::<T>(t.id@));
                            assert forall|a: int, b: int| 0 <= a < b < s@.len() implies (#[trigger] s@[a]).0@ != (#[trigger] s@[b]).0@ by {
                                if a == k as int {
                                    assert(before[a].0@ == t.id@);
                                } else if b == k as int {
                                    assert(before[b].0@ == t.id@);
                                }
                            }
                            assert forall|id: Seq<char>| #[trigger] stored(s@, id) == (if id == t.id@ {
                                Some(copy)
                            } else {
                                stored(before, id)
                            }) by {
                                if id == t.id@ {
                                    lemma_first_match_at(s@, entry_for::<T>(id), k as int);
                                } else {
                                    match first_match(before, entry_for::<T>(id)) {
                                        Some(m) => {
                                            lemma_first_match_props(before, entry_for::<T>(id));
                                            assert(m != k as int);
                                            assert forall|j: int| 0 <= j < m implies !entry_for::<T>(id)(#[trigger] s@[j]) by {
                                                if j != k as int {
                                                    assert(s@[j] == before[j]);
                                                }
                                            }
                                            assert(s@[m] == before[m]);
                                            lemma_first_match_at(s@, entry_for::<T>(id), m);
                                        },
                                        None => {
                                            lemma_first_match_props(before, entry_for::<T>(id));
                                            assert forall|j: int| 0 <= j < s@.len() implies !entry_for::<T>(id)(#[trigger] s@[j]) by {
                                                if j != k as int {
                                                    assert(s@[j] == before[j]);
                                                    assert(!entry_for::<T>(id)(before[j]));
                                                }
                                            }
                                            lemma_first_match_none(s@, entry_for::<T>(id));
                                        },
                                    }
                                }
                            }
                            assert forall|id: Seq<char>| #[trigger] same_or_clone(live_content(tracks@.take(i as int + 1), id), stored(s@, id)) by {
                                assert(live_content(tracks@.take(i as int + 1), id) == (if tracks@[i as int].id@ == id
                                    && tracks@[i as int].timeline is Some {
                                    tracks@[i as int].timeline
                                } else {
                                    live_content(tracks@.take(i as int), id)
                                }));
                                assert(stored(s@, id) == (if id == t.id@ {
                                    Some(copy)
                                } else {
                                    stored(before, id)
                                }));
                                assert(same_or_clone(live_content(tracks@.take(i as int), id), stored(before, id)));
                            }
                        }
                    },
                    None => {
                        let key = t.id.clone();
                        s.push((key, copy));
                        proof {
                            lemma_first_match_props(before, entry_for::<T>(t.id@));
                            assert forall|a: int, b: int| 0 <= a < b < s@.len() implies (#[trigger] s@[a]).0@ != (#[trigger] s@[b]).0@ by {
                                if b == before.len() {
                                    assert(s@[a] == before[a]);
                                    assert(!entry_for::<T>(t.id@)(before[a]));
                                } else {
                                    assert(s@[a] == before[a]);
                                    assert(s@[b] == before[b]);
                                }
                            }
                            assert forall|id: Seq<char>| #[trigger] stored(s@, id) == (if id == t.id@ {
                                Some(copy)
                            } else {
                                stored(before, id)
                            }) by {
                                let n = before.len() as int;
                                if id == t.id@ {
                                    assert forall|j: int| 0 <= j < n implies !entry_for::<T>(id)(#[trigger] s@[j]) by {
                                        assert(s@[j] == before[j]);
                                    }
                                    lemma_first_match_at(s@, entry_for::<T>(id), n);
                                } else {
                                    match first_match(before, entry_for::<T>(id)) {
                                        Some(m) => {
                                            lemma_first_match_props(before, entry_for::<T>(id));
                                            assert forall|j: int| 0 <= j < m implies !entry_for::<T>(id)(#[trigger] s@[j]) by {
                                                assert(s@[j] == before[j]);
                                            }
                                            assert(s@[m] == before[m]);
                                            lemma_first_match_at(s@, entry_for::<T>(id), m);
                                        },
                                        None => {
                                            lemma_first_match_props(before, entry_for::<T>(id));
                                            assert forall|j: int| 0 <= j < s@.len() implies !entry_for::<T>(id)(#[trigger] s@[j]) by {
                                                if j < n {
                                                    assert(s@[j] == before[j]);
                                                    assert(!entry_for::<T>(id)(before[j]));
                                                }
                                            }
                                            lemma_first_match_none(s@, entry_for::<T>(id));
                                        },
                                    }
                                }
                            }
                            assert forall|id: Seq<char>| #[trigger] same_or_clone(live_content(tracks@.take(i as int + 1), id), stored(s@, id)) by {
                                assert(live_content(tracks@.take(i as int + 1), id) == (if tracks@[i as int].id@ == id
                                    && tracks@[i as int].timeline is Some {
                                    tracks@[i as int].timeline
                                } else {
                                    live_content(tracks@.take(i as int), id)
                                }));
                                assert(stored(s@, id) == (if id == t.id@ {
                                    Some(copy)
                                } else {
                                    stored(before, id)
                                }));
                                assert(same_or_clone(live_content(tracks@.take(i as int), id), stored(before, id)));
                            }
                        }
                    },
                }
            },
            None => {
                proof {
                    assert forall|id: Seq<char>| #[trigger] same_or_clone(live_content(tracks@.take(i as int + 1), id), stored(s@, id)) by {
                        assert(live_content(tracks@.take(i as int + 1), id) == live_content(tracks@.take(i as int), id));
                        assert(same_or_clone(live_content(tracks@.take(i as int), id), stored(s@, id)));
                    }
                }
            },
        }
        i = i + 1;
    }
    assert(tracks@.take(i as int) =~= tracks@);
    s
}

/// Loads a snapshot onto the live tracks: each track takes a clone of its
/// stored timeline, or is cleared when it has none.
fn load_snapshot<T: Clone>(tracks: &mut Vec<LiveTrack<T>>, s: &Vec<(String, T)>)
    ensures
        loaded_from(final(tracks)@, old(tracks)@, s@),
{
    let ghost before = tracks@;
    let mut i: usize = 0;
    while i < tracks.len()
        invariant
            0 <= i <= tracks@.len(),
            tracks@.len() == before.len(),
            forall|j: int| i <= j < tracks@.len() ==> tracks@[j] == before[j],
            forall|j: int|
                0 <= j < i ==> (#[trigger] tracks@[j]).id@ == before[j].id@ && same_or_clone(
                    stored(s@, before[j].id@),
                    tracks@[j].timeline,
                ),
        decreases tracks@.len() - i,
    {
        proof {
            assert(entry_for::<T>(tracks@[i as int].id@) =~= entry_for::<T>(before[i as int].id@));
        }
        let content = match find_entry(s, &tracks[i].id) {
            Some(k) => Some(s[k].1.clone()),
            None => None,
        };
        let id = tracks[i].id.clone();
        proof {
            match first_match(s@, entry_for::<T>(before[i as int].id@)) {
                Some(k) => {
                    assert(stored(s@, before[i as int].id@) == Some(s@[k].1));
                },
                None => {},
            }
            assert(same_or_clone(stored(s@, before[i as int].id@), content));
        }
        tracks.set(i, LiveTrack { id, timeline: content });
        i = i + 1;
    }
}

// ---------------------------------------------------------------------------
// Operations

fn find_arrangement<T>(list: &Vec<Arrangement<T>>, id: &str) -> (r: Option<usize>)
    ensures
        match r {
            Some(i) => i < list@.len() && list@[i as int].id@ == id@ && arr_index(list@, id@) == Some(i as int),
            None => arr_index(list@, id@) is None,
        },
{
    let mut i: usize = 0;
    while i < list.len()
        invariant
            0 <= i <= list@.len(),
            forall|j: int| 0 <= j < i ==> (#[trigger] list@[j]).id@ != id@,
        decreases list@.len() - i,
    {
        if str_eq(list[i].id.as_str(), id) {
            proof {
                lemma_first_match_at(list@, arr_named::<T>(id@), i as int);
            }
            return Some(i);
        }
        i = i + 1;
    }
    proof {
        lemma_first_match_none(list@, arr_named::<T>(id@));
    }
    None
}

/// Filtering out an id keeps every arrangement with another id.
proof fn lemma_kept_nonempty<T>(all: Seq<Arrangement<T>>, id: Seq<char>, j: int)
    requires
        0 <= j < all.len(),
        all[j].id@ != id,
    ensures
        all.filter(not_named::<T>(id)).len() > 0,
{
    all.filter_lemma(not_named::<T>(id));
    assert(all.filter(not_named::<T>(id)).contains(all[j]));
}

/// Track ids are distinct.
pub open spec fn ids_distinct<T>(tracks: Seq<LiveTrack<T>>) -> bool {
    forall|i: int, j: int| 0 <= i < j < tracks.len() ==> (#[trigger] tracks[i]).id@ != (#[trigger] tracks[j]).id@
}

proof fn lemma_live_content_of_track<T>(tracks: Seq<LiveTrack<T>>, i: int)
    requires
        ids_distinct(tracks),
        0 <= i < tracks.len(),
    ensures
        live_content(tracks, tracks[i].id@) == tracks[i].timeline,
    decreases tracks.len(),
{
    let last = tracks.len() - 1;
    if i < last {
        assert(tracks[last].id@ != tracks[i].id@);
        let shorter = tracks.drop_last();
        assert(shorter[i] == tracks[i]);
        assert forall|a: int, b: int| 0 <= a < b < shorter.len() implies (#[trigger] shorter[a]).id@ != (#[trigger] shorter[b]).id@ by {
            assert(shorter[a] == tracks[a] && shorter[b] == tracks[b]);
        }
        lemma_live_content_of_track(shorter, i);
    } else if tracks[i].timeline is None {
        lemma_live_content_absent(tracks.drop_last(), tracks[i].id@, tracks);
    }
}

proof fn lemma_live_content_absent<T>(prefix: Seq<LiveTrack<T>>, id: Seq<char>, tracks: Seq<LiveTrack<T>>)
    requires
        ids_distinct(tracks),
        tracks.len() > 0,
        prefix == tracks.drop_last(),
        tracks.last().id@ == id,
    ensures
        live_content(prefix, id) is None,
    decreases prefix.len(),
{
    if prefix.len() > 0 {
        assert(prefix.last() == tracks[prefix.len() - 1]);
        assert(tracks[prefix.len() - 1].id@ != tracks[tracks.len() - 1].id@);
        let shorter = tracks.drop_last().drop_last().push(tracks.last());
        assert(shorter.drop_last() =~= prefix.drop_last());
        assert forall|a: int, b: int| 0 <= a < b < shorter.len() implies (#[trigger] shorter[a]).id@ != (#[trigger] shorter[b]).id@ by {
            if b == shorter.len() - 1 {
                assert(shorter[b] == tracks[tracks.len() - 1]);
                assert(shorter[a] == tracks[a]);
            } else {
                assert(shorter[a] == tracks[a] && shorter[b] == tracks[b]);
            }
        }
        lemma_live_content_absent(prefix.drop_last(), id, shorter);
    }
}

/// Law: storing the live timelines and loading them straight back (with
/// distinct track ids) leaves every track with a timeline exactly when it
/// had one, and what it holds is a copy of the copy that was stored.
pub proof fn lemma_store_then_load_keeps_each_track<T: Clone>(
    live: Seq<LiveTrack<T>>,
    stored_snapshot: Seq<(String, T)>,
    reloaded: Seq<LiveTrack<T>>,
    i: int,
)
    requires
        ids_distinct(live),
        snapshot_of(stored_snapshot, live),
        loaded_from(reloaded, live, stored_snapshot),
        0 <= i < live.len(),
    ensures
        reloaded[i].id@ == live[i].id@,
        (reloaded[i].timeline is Some) == (live[i].timeline is Some),
        same_or_clone(live[i].timeline, stored(stored_snapshot, live[i].id@)),
        same_or_clone(stored(stored_snapshot, live[i].id@), reloaded[i].timeline),
{
    lemma_live_content_of_track(live, i);
    assert(same_or_clone(live_content(live, live[i].id@), stored(stored_snapshot, live[i].id@)));
    assert(same_or_clone(stored(stored_snapshot, live[i].id@), reloaded[i].timeline));
}

impl<T: Clone> ArrangementSet<T> {
    /// No arrangements and nothing active, as a project saved before
    /// arrangements existed loads.
    pub fn new() -> (s: ArrangementSet<T>)
        ensures
            s.arrangements@.len() == 0,
            s.active_arrangement@.len() == 0,
    {
        ArrangementSet { arrangements: Vec::new(), active_arrangement: String::new() }
    }

    /// Makes sure there is an arrangement and the active id names one: a
    /// project without any gets "Arrangement 1" holding its current
    /// timelines; a dangling or empty active id falls back to the first.
    pub fn ensure_arrangements(&mut self, tracks: &Vec<LiveTrack<T>>)
        ensures
            ensured_list(old(self).arrangements@, final(self).arrangements@, tracks@),
            final(self).active_arrangement@ == ensured_active(
                old(self).arrangements@,
                old(self).active_arrangement@,
                final(self).arrangements@,
            ),
            arr_index(final(self).arrangements@, final(self).active_arrangement@) is Some,
    {
        if self.arrangements.len() == 0 {
            let id = new_id();
            let timelines = snapshot_live(tracks);
            let active = id.clone();
            self.arrangements.push(Arrangement { id, name: String::from_str("Arrangement 1"), timelines });
            self.active_arrangement = active;
            proof {
                lemma_first_match_at(self.arrangements@, arr_named::<T>(self.active_arrangement@), 0);
            }
        } else {
            let nm = self.active_arrangement.as_str();
            let found = find_arrangement(&self.arrangements, nm);
            assert(arr_named::<T>(nm@) =~= arr_named::<T>(self.active_arrangement@));
            if self.active_arrangement.as_str().unicode_len() == 0 || found.is_none() {
                self.active_arrangement = self.arrangements[0].id.clone();
                proof {
                    lemma_first_match_at(self.arrangements@, arr_named::<T>(self.active_arrangement@), 0);
                }
            }
        }
    }

    /// Stores the live timelines into the active arrangement (after making
    /// sure there is one), so it is current before a switch or a save.
    pub fn capture_active_arrangement(&mut self, tracks: &Vec<LiveTrack<T>>)
        ensures
            captured_into(
                old(self).arrangements@,
                old(self).active_arrangement@,
                final(self).arrangements@,
                final(self).active_arrangement@,
                tracks@,
            ),
    {
        self.ensure_arrangements(tracks);
        let snapshot = snapshot_live(tracks);
        let nm = self.active_arrangement.as_str();
        let found = find_arrangement(&self.arrangements, nm);
        assert(arr_named::<T>(nm@) =~= arr_named::<T>(self.active_arrangement@));
        let k = found.unwrap();
        let mut list: Vec<Arrangement<T>> = Vec::new();
        std::mem::swap(&mut list, &mut self.arrangements);
        let ghost mid = list@;
        let old_entry = list.remove(k);
        let entry = Arrangement { id: old_entry.id, name: old_entry.name, timelines: snapshot };
        list.insert(k, entry);
        proof {
            assert forall|j: int| 0 <= j < list@.len() && j != k as int implies #[trigger] list@[j] == mid[j] by {
                if j < k as int {
                    assert(list@[j] == mid.remove(k as int)[j]);
                } else {
                    assert(list@[j] == mid.remove(k as int)[j - 1]);
                }
            }
            lemma_first_match_props(mid, arr_named::<T>(self.active_arrangement@));
            assert forall|j: int| 0 <= j < k as int implies (#[trigger] list@[j]).id@ != self.active_arrangement@ by {
                assert(list@[j] == mid[j]);
            }
            lemma_first_match_at(list@, arr_named::<T>(self.active_arrangement@), k as int);
        }
        self.arrangements = list;
    }

    /// Loads arrangement `id` onto the live tracks and makes it active;
    /// tracks it stores nothing for are cleared. An unknown id is refused
    /// and the tracks are left as they were.
    pub fn apply_arrangement(&mut self, tracks: &mut Vec<LiveTrack<T>>, id: &str) -> (r: Result<(), String>)
        ensures
            ensured_list(old(self).arrangements@, final(self).arrangements@, old(tracks)@),
            match arr_index(final(self).arrangements@, id@) {
                Some(k) => {
                    &&& r is Ok
                    &&& final(self).active_arrangement@ == id@
                    &&& loaded_from(final(tracks)@, old(tracks)@, final(self).arrangements@[k].timelines@)
                },
                None => {
                    &&& r matches Err(m) && m@ == "Arrangement not found: "@ + id@
                    &&& final(tracks)@ == old(tracks)@
                    &&& final(self).active_arrangement@ == ensured_active(
                        old(self).arrangements@,
                        old(self).active_arrangement@,
                        final(self).arrangements@,
                    )
                },
            },
    {
        self.ensure_arrangements(tracks);
        match find_arrangement(&self.arrangements, id) {
            Some(k) => {
                load_snapshot(tracks, &self.arrangements[k].timelines);
                self.active_arrangement = String::from_str(id);
                Ok(())
            },
            None => {
                let mut m = String::from_str("Arrangement not found: ");
                m.append(id);
                Err(m)
            },
        }
    }

    /// Renames arrangement `id`; an unknown id is refused.
    pub fn rename_arrangement(&mut self, id: &str, name: &str) -> (r: Result<(), String>)
        ensures
            final(self).active_arrangement == old(self).active_arrangement,
            match arr_index(old(self).arrangements@, id@) {
                Some(k) => {
                    &&& r is Ok
                    &&& final(self).arrangements@.len() == old(self).arrangements@.len()
                    &&& final(self).arrangements@[k].name@ == name@
                    &&& final(self).arrangements@[k].id == old(self).arrangements@[k].id
                    &&& final(self).arrangements@[k].timelines == old(self).arrangements@[k].timelines
                    &&& forall|j: int| 0 <= j < old(self).arrangements@.len() && j != k ==> #[trigger] final(self).arrangements@[j] == old(self).arrangements@[j]
                },
                None => (r matches Err(m) && m@ == "Arrangement not found: "@ + id@) && final(self).arrangements@
                    == old(self).arrangements@,
            },
    {
        match find_arrangement(&self.arrangements, id) {
            Some(k) => {
                let mut list: Vec<Arrangement<T>> = Vec::new();
                std::mem::swap(&mut list, &mut self.arrangements);
                let ghost mid = list@;
                let old_entry = list.remove(k);
                let entry = Arrangement { id: old_entry.id, name: String::from_str(name), timelines: old_entry.timelines };
                list.insert(k, entry);
                proof {
                    assert forall|j: int| 0 <= j < list@.len() && j != k as int implies #[trigger] list@[j] == mid[j] by {
                        if j < k as int {
                            assert(list@[j] == mid.remove(k as int)[j]);
                        } else {
                            assert(list@[j] == mid.remove(k as int)[j - 1]);
                        }
                    }
                }
                self.arrangements = list;
                Ok(())
            },
            None => {
                let mut m = String::from_str("Arrangement not found: ");
                m.append(id);
                Err(m)
            },
        }
    }

    /// Stores the live timelines, adds an arrangement named `name` and
    /// switches to it; it starts with a copy of the live timelines when
    /// `copy_current` is set and empty otherwise. Returns its id.
    pub fn create_arrangement(&mut self, tracks: &mut Vec<LiveTrack<T>>, name: &str, copy_current: bool) -> (id: String)
        ensures
            ({
                let list = final(self).arrangements@;
                let n = list.len();
                let fresh = list[n - 1];
                &&& n >= 2
                &&& captured_into(
                    old(self).arrangements@,
                    old(self).active_arrangement@,
                    list.drop_last(),
                    ensured_active(old(self).arrangements@, old(self).active_arrangement@, list.drop_last()),
                    old(tracks)@,
                )
                &&& fresh.id@ == id@
                &&& fresh.name@ == name@
                &&& copy_current ==> snapshot_of(fresh.timelines@, old(tracks)@)
                &&& !copy_current ==> fresh.timelines@.len() == 0
                &&& final(self).active_arrangement@ == id@
                &&& arr_index(list, id@) is Some
                &&& loaded_from(final(tracks)@, old(tracks)@, list[arr_index(list, id@)->0].timelines@)
            }),
    {
        self.capture_active_arrangement(tracks);
        let ghost captured = self.arrangements@;
        let id = new_id();
        let timelines = if copy_current {
            snapshot_live(tracks)
        } else {
            Vec::new()
        };
        self.arrangements.push(Arrangement { id: id.clone(), name: String::from_str(name), timelines });
        assert(self.arrangements@.drop_last() =~= captured);
        let ghost pushed = self.arrangements@;
        proof {
            lemma_first_match_props(pushed, arr_named::<T>(id@));
            if arr_index(pushed, id@) is None {
                assert(arr_named::<T>(id@)(pushed[pushed.len() - 1]));
            }
        }
        let _ = self.apply_arrangement(tracks, id.as_str());
        id
    }

    /// Deletes arrangement `id`, refusing to delete the only one or an
    /// unknown one (after making sure there is an arrangement). Deleting the
    /// active arrangement switches to the first that remains.
    pub fn delete_arrangement(&mut self, tracks: &mut Vec<LiveTrack<T>>, id: &str) -> (r: Result<(), String>)
        requires
            old(self).arrangements@.len() > 1 ==> exists|j: int|
                0 <= j < old(self).arrangements@.len() && (#[trigger] old(self).arrangements@[j]).id@ != id@,
        ensures
            ({
                let before = if old(self).arrangements@.len() == 0 {
                    seq![]
                } else {
                    old(self).arrangements@
                };
                let active = ensured_active(old(self).arrangements@, old(self).active_arrangement@, old(self).arrangements@);
                &&& before.len() <= 1 ==> {
                    &&& r matches Err(m) && m@ == "Cannot delete the only arrangement"@
                    &&& ensured_list(old(self).arrangements@, final(self).arrangements@, old(tracks)@)
                    &&& final(tracks)@ == old(tracks)@
                }
                &&& before.len() > 1 && arr_index(before, id@) is None ==> {
                    &&& r matches Err(m) && m@ == "Arrangement not found: "@ + id@
                    &&& final(self).arrangements@ == before
                    &&& final(self).active_arrangement@ == active
                    &&& final(tracks)@ == old(tracks)@
                }
                &&& before.len() > 1 && arr_index(before, id@) is Some ==> {
                    &&& r is Ok
                    &&& final(self).arrangements@ == before.filter(not_named::<T>(id@))
                    &&& final(self).arrangements@.len() > 0
                    &&& active == id@ ==> {
                        &&& final(self).active_arrangement@ == final(self).arrangements@[0].id@
                        &&& loaded_from(final(tracks)@, old(tracks)@, final(self).arrangements@[0].timelines@)
                    }
                    &&& active != id@ ==> {
                        &&& final(self).active_arrangement@ == active
                        &&& final(tracks)@ == old(tracks)@
                    }
                }
            }),
    {
        self.ensure_arrangements(tracks);
        if self.arrangements.len() <= 1 {
            return Err(String::from_str("Cannot delete the only arrangement"));
        }
        if find_arrangement(&self.arrangements, id).is_none() {
            let mut m = String::from_str("Arrangement not found: ");
            m.append(id);
            return Err(m);
        }
        let was_active = str_eq(self.active_arrangement.as_str(), id);
        let ghost all = self.arrangements@;
        let ghost p = not_named::<T>(id@);
        let mut rest: Vec<Arrangement<T>> = Vec::new();
        std::mem::swap(&mut rest, &mut self.arrangements);
        let mut kept: Vec<Arrangement<T>> = Vec::new();
        let n = rest.len();
        let mut i: usize = 0;
        while rest.len() > 0
            invariant
                all.len() == n,
                i + rest@.len() == n,
                rest@ == all.skip(i as int),
                p == not_named::<T>(id@),
                kept@ == all.take(i as int).filter(p),
            decreases rest@.len(),
        {
            let a = rest.remove(0);
            proof {
                reveal_with_fuel(Seq::filter, 1);
                assert(all.take(i as int + 1).drop_last() =~= all.take(i as int));
                assert(a == all[i as int]);
            }
            if str_eq(a.id.as_str(), id) {
            } else {
                kept.push(a);
            }
            assert(rest@ =~= all.skip(i as int + 1));
            i = i + 1;
        }
        assert(all.take(i as int) =~= all);
        proof {
            let j = choose|j: int| 0 <= j < all.len() && (#[trigger] all[j]).id@ != id@;
            lemma_kept_nonempty(all, id@, j);
        }
        self.arrangements = kept;
        if was_active {
            let first = self.arrangements[0].id.clone();
            proof {
                lemma_first_match_at(self.arrangements@, arr_named::<T>(first@), 0);
            }
            let _ = self.apply_arrangement(tracks, first.as_str());
        }
        Ok(())
    }
}

} // verus!
