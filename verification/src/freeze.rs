//! Track freeze: each track is live, rendering, or frozen onto a rendered
//! clip, and the last render is kept until the chain changes.

use vstd::prelude::*;
use crate::seqs::{first_match, lemma_first_match_at, lemma_first_match_none, lemma_first_match_props};
use crate::text::str_eq;

verus! {

/// Whether a track plays its live chain, is being rendered, or plays its
/// frozen render.
#[derive(Debug, Clone, Copy, PartialEq, Eq, Structural)]
pub enum FreezeState {
    /// Plugins and clips process in real time.
    Live,
    /// A render is running; the live chain still plays.
    Rendering { progress_percent: u8 },
    /// The rendered clip plays; the chain is off.
    Frozen,
}

impl Default for FreezeState {
    fn default() -> (s: FreezeState)
        ensures
            s == FreezeState::Live,
    {
        FreezeState::Live
    }
}

impl FreezeState {
    /// Whether the track plays its frozen render.
    pub fn is_frozen(&self) -> (r: bool)
        ensures
            r == (*self == FreezeState::Frozen),
    {
        match self {
            FreezeState::Frozen => true,
            _ => false,
        }
    }

    /// Whether a render is running.
    pub fn is_rendering(&self) -> (r: bool)
        ensures
            r == (*self is Rendering),
    {
        match self {
            FreezeState::Rendering { .. } => true,
            _ => false,
        }
    }

    /// The render's progress, while rendering.
    pub fn progress(&self) -> (r: Option<u8>)
        ensures
            *self is Rendering ==> r == Some(self->progress_percent),
            !(*self is Rendering) ==> r is None,
    {
        match self {
            FreezeState::Rendering { progress_percent } => Some(*progress_percent),
            _ => None,
        }
    }
}

struct FreezeEntry<R> {
    track_id: String,
    state: FreezeState,
    render: Option<R>,
}

/// Per-track freeze state with the last render of each track, whatever
/// form the render takes.
pub struct FreezeRegistry<R> {
    entries: Vec<FreezeEntry<R>>,
}

spec fn entry_of<R>(entries: Seq<FreezeEntry<R>>, id: Seq<char>) -> Option<int> {
    first_match(entries, |e: FreezeEntry<R>| e.track_id@ == id)
}

impl<R> FreezeRegistry<R> {
    /// The freeze state of a track; a track never seen is `Live`.
    pub closed spec fn state(&self, id: Seq<char>) -> FreezeState {
        match entry_of(self.entries@, id) {
            Some(i) => self.entries@[i].state,
            None => FreezeState::Live,
        }
    }

    /// The render kept for a track, if any.
    pub closed spec fn render(&self, id: Seq<char>) -> Option<R> {
        match entry_of(self.entries@, id) {
            Some(i) => self.entries@[i].render,
            None => None,
        }
    }

    /// An empty registry: every track live, no renders.
    pub fn new() -> (r: FreezeRegistry<R>)
        ensures
            forall|id: Seq<char>| #[trigger] r.state(id) == FreezeState::Live && r.render(id) is None,
    {
        let r = FreezeRegistry { entries: Vec::new() };
        assert forall|id: Seq<char>| #[trigger] r.state(id) == FreezeState::Live && r.render(id) is None by {
            lemma_first_match_none(r.entries@, |e: FreezeEntry<R>| e.track_id@ == id);
        }
        r
    }

    fn find(&self, track_id: &str) -> (r: Option<usize>)
        ensures
            match entry_of(self.entries@, track_id@) {
                Some(i) => 0 <= i < self.entries@.len() && r is Some && r->0 as int == i,
                None => r is None,
            },
    {
        let mut i: usize = 0;
        while i < self.entries.len()
            invariant
                0 <= i <= self.entries@.len(),
                forall|j: int| 0 <= j < i ==> self.entries@[j].track_id@ != track_id@,
            decreases self.entries@.len() - i,
        {
            if str_eq(self.entries[i].track_id.as_str(), track_id) {
                proof {
                    lemma_first_match_at(self.entries@, |e: FreezeEntry<R>| e.track_id@ == track_id@, i as int);
                }
                return Some(i);
            }
            i = i + 1;
        }
        proof {
            lemma_first_match_none(self.entries@, |e: FreezeEntry<R>| e.track_id@ == track_id@);
        }
        None
    }

    /// The freeze state of a track.
    pub fn state_of(&self, track_id: &str) -> (s: FreezeState)
        ensures
            s == self.state(track_id@),
    {
        match self.find(track_id) {
            Some(i) => self.entries[i].state,
            None => FreezeState::Live,
        }
    }

    /// Whether a track is frozen.
    pub fn is_frozen(&self, track_id: &str) -> (r: bool)
        ensures
            r == (self.state(track_id@) == FreezeState::Frozen),
    {
        self.state_of(track_id).is_frozen()
    }

    /// The render kept for a track.
    pub fn render_for(&self, track_id: &str) -> (r: Option<&R>)
        ensures
            match self.render(track_id@) {
                Some(x) => r == Some(&x),
                None => r is None,
            },
    {
        match self.find(track_id) {
            Some(i) => match &self.entries[i].render {
                Some(x) => Some(x),
                None => None,
            },
            None => None,
        }
    }

    /// Replaces the entry of `track_id` (adding it if missing); every other
    /// track keeps its state and render.
    fn put(&mut self, track_id: &str, state: FreezeState, render: Option<R>)
        ensures
            final(self).state(track_id@) == state,
            final(self).render(track_id@) == render,
            forall|id: Seq<char>| id != track_id@ ==> #[trigger] final(self).state(id) == old(self).state(id)
                && final(self).render(id) == old(self).render(id),
    {
        let ghost before = self.entries@;
        match self.find(track_id) {
            Some(i) => {
                let old_entry = self.entries.remove(i);
                self.entries.insert(i, FreezeEntry { track_id: old_entry.track_id, state, render });
                proof {
                    assert(self.entries@ =~= before.update(i as int, self.entries@[i as int]));
                    lemma_first_match_props(before, |e: FreezeEntry<R>| e.track_id@ == track_id@);
                    assert forall|id: Seq<char>| id != track_id@ implies #[trigger] self.state(id) == old(self).state(id)
                        && self.render(id) == old(self).render(id) by {
                        lemma_first_match_props(before, |e: FreezeEntry<R>| e.track_id@ == id);
                        lemma_first_match_props(self.entries@, |e: FreezeEntry<R>| e.track_id@ == id);
                        match entry_of(before, id) {
                            Some(k) => {
                                assert(k != i);
                                lemma_first_match_at(self.entries@, |e: FreezeEntry<R>| e.track_id@ == id, k);
                            },
                            None => {
                                lemma_first_match_none(self.entries@, |e: FreezeEntry<R>| e.track_id@ == id);
                            },
                        }
                    }
                    lemma_first_match_props(before, |e: FreezeEntry<R>| e.track_id@ == track_id@);
                    lemma_first_match_at(self.entries@, |e: FreezeEntry<R>| e.track_id@ == track_id@, i as int);
                }
            },
            None => {
                self.entries.push(FreezeEntry { track_id: String::from_str(track_id), state, render });
                proof {
                    let n = before.len() as int;
                    assert(self.entries@.drop_last() =~= before);
                    assert forall|id: Seq<char>| id != track_id@ implies #[trigger] self.state(id) == old(self).state(id)
                        && self.render(id) == old(self).render(id) by {
                        lemma_first_match_props(before, |e: FreezeEntry<R>| e.track_id@ == id);
                        match entry_of(before, id) {
                            Some(k) => {
                                lemma_first_match_at(self.entries@, |e: FreezeEntry<R>| e.track_id@ == id, k);
                            },
                            None => {
                                lemma_first_match_none(self.entries@, |e: FreezeEntry<R>| e.track_id@ == id);
                            },
                        }
                    }
                    lemma_first_match_props(before, |e: FreezeEntry<R>| e.track_id@ == track_id@);
                    lemma_first_match_at(self.entries@, |e: FreezeEntry<R>| e.track_id@ == track_id@, n);
                }
            },
        }
    }

    fn take_render(&mut self, track_id: &str) -> (r: Option<R>)
        ensures
            r == old(self).render(track_id@),
            final(self).state(track_id@) == old(self).state(track_id@),
            forall|id: Seq<char>| id != track_id@ ==> #[trigger] final(self).state(id) == old(self).state(id)
                && final(self).render(id) == old(self).render(id),
    {
        match self.find(track_id) {
            Some(i) => {
                let e = self.entries.remove(i);
                let st = e.state;
                self.entries.insert(i, FreezeEntry { track_id: e.track_id, state: st, render: None });
                let ghost mid = self.entries@;
                proof {
                    assert(mid =~= old(self).entries@.update(i as int, mid[i as int]));
                    lemma_first_match_props(old(self).entries@, |x: FreezeEntry<R>| x.track_id@ == track_id@);
                    lemma_first_match_at(mid, |x: FreezeEntry<R>| x.track_id@ == track_id@, i as int);
                    assert forall|id: Seq<char>| id != track_id@ implies #[trigger] self.state(id) == old(self).state(id)
                        && self.render(id) == old(self).render(id) by {
                        lemma_first_match_props(old(self).entries@, |x: FreezeEntry<R>| x.track_id@ == id);
                        match entry_of(old(self).entries@, id) {
                            Some(k) => {
                                assert(k != i);
                                lemma_first_match_at(mid, |x: FreezeEntry<R>| x.track_id@ == id, k);
                            },
                            None => {
                                lemma_first_match_none(mid, |x: FreezeEntry<R>| x.track_id@ == id);
                            },
                        }
                    }
                }
                e.render
            },
            None => None,
        }
    }

    /// Starts a freeze: the track is `Rendering` at 0% and any kept render
    /// is dropped.
    pub fn begin_freeze(&mut self, track_id: &str)
        ensures
            final(self).state(track_id@) == (FreezeState::Rendering { progress_percent: 0 }),
            final(self).render(track_id@) is None,
            forall|id: Seq<char>| id != track_id@ ==> #[trigger] final(self).state(id) == old(self).state(id)
                && final(self).render(id) == old(self).render(id),
    {
        self.put(track_id, FreezeState::Rendering { progress_percent: 0 }, None);
    }

    /// Updates render progress, clamped to 100; does nothing unless the
    /// track is rendering.
    pub fn update_progress(&mut self, track_id: &str, percent: u8)
        ensures
            old(self).state(track_id@) is Rendering ==> final(self).state(track_id@) == (FreezeState::Rendering {
                progress_percent: if percent < 100 { percent } else { 100 },
            }),
            !(old(self).state(track_id@) is Rendering) ==> final(self).state(track_id@) == old(self).state(track_id@),
            final(self).render(track_id@) == old(self).render(track_id@),
            forall|id: Seq<char>| id != track_id@ ==> #[trigger] final(self).state(id) == old(self).state(id)
                && final(self).render(id) == old(self).render(id),
    {
        let st = self.state_of(track_id);
        let r = self.take_render(track_id);
        match st {
            FreezeState::Rendering { .. } => {
                let p = if percent < 100 { percent } else { 100 };
                self.put(track_id, FreezeState::Rendering { progress_percent: p }, r);
            },
            _ => {
                self.put(track_id, st, r);
            },
        }
    }

    /// Commits a finished render: the track is `Frozen` and keeps it.
    pub fn commit_render(&mut self, track_id: &str, render: R)
        ensures
            final(self).state(track_id@) == FreezeState::Frozen,
            final(self).render(track_id@) == Some(render),
            forall|id: Seq<char>| id != track_id@ ==> #[trigger] final(self).state(id) == old(self).state(id)
                && final(self).render(id) == old(self).render(id),
    {
        self.put(track_id, FreezeState::Frozen, Some(render));
    }

    /// Back to the live chain; the kept render stays for a quick re-freeze.
    pub fn unfreeze(&mut self, track_id: &str)
        ensures
            final(self).state(track_id@) == FreezeState::Live,
            final(self).render(track_id@) == old(self).render(track_id@),
            forall|id: Seq<char>| id != track_id@ ==> #[trigger] final(self).state(id) == old(self).state(id)
                && final(self).render(id) == old(self).render(id),
    {
        let r = self.take_render(track_id);
        self.put(track_id, FreezeState::Live, r);
    }

    /// Drops the kept render after the chain was edited; a frozen track goes
    /// back to live.
    pub fn invalidate(&mut self, track_id: &str)
        ensures
            final(self).render(track_id@) is None,
            final(self).state(track_id@) == (if old(self).state(track_id@) == FreezeState::Frozen {
                FreezeState::Live
            } else {
                old(self).state(track_id@)
            }),
            forall|id: Seq<char>| id != track_id@ ==> #[trigger] final(self).state(id) == old(self).state(id)
                && final(self).render(id) == old(self).render(id),
    {
        let st = self.state_of(track_id);
        let new_state = match st {
            FreezeState::Frozen => FreezeState::Live,
            other => other,
        };
        self.put(track_id, new_state, None);
    }
}

} // verus!
