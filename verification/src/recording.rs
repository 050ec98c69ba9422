//! The recording session's state machine: arming tracks, starting, feeding
//! each armed track's take, and committing or discarding the takes when
//! recording stops. Samples are carried as they come (`S` is the sample
//! type), never inspected.

use vstd::prelude::*;
use crate::text::str_eq;

verus! {

/// Where a recording pass stands.
#[derive(Debug, Clone, Copy, PartialEq, Eq, Structural)]
pub enum RecordingState {
    Idle,
    Armed,
    Recording,
    Stopped,
}

/// Why recording stopped.
#[derive(Debug, Clone, Copy, PartialEq, Eq, Structural)]
pub enum StopReason {
    RecordButton,
    TransportStop,
    Spacebar,
    Canceled,
}

/// A transport event from the shortcut layer.
#[derive(Debug, Clone, Copy, PartialEq, Eq, Structural)]
pub enum TransportEvent {
    Stop,
    Spacebar,
    Play,
    Seek,
}

impl TransportEvent {
    /// Stop and the space bar end a recording in progress; play and seek
    /// do not.
    pub fn stops_recording(self) -> (r: bool)
        ensures
            r == (self == TransportEvent::Stop || self == TransportEvent::Spacebar),
    {
        match self {
            TransportEvent::Stop | TransportEvent::Spacebar => true,
            _ => false,
        }
    }
}

/// One armed track's take in progress.
#[derive(Debug)]
pub struct RecordingTake<S> {
    pub track_id: String,
    pub samples: Vec<S>,
    pub start_playhead_tick: u64,
}

/// A take committed as a new clip on its track, at the tick where
/// recording began.
#[derive(Debug)]
pub struct CommittedClip<S> {
    pub track_id: String,
    pub playhead_tick: u64,
    pub samples: Vec<S>,
}

/// A take by its track's characters, its samples and its start tick.
pub struct TakeView<S> {
    pub track_id: Seq<char>,
    pub samples: Seq<S>,
    pub start_tick: u64,
}

impl<S> View for RecordingTake<S> {
    type V = TakeView<S>;

    open spec fn view(&self) -> TakeView<S> {
        TakeView { track_id: self.track_id@, samples: self.samples@, start_tick: self.start_playhead_tick }
    }
}

impl<S> View for CommittedClip<S> {
    type V = TakeView<S>;

    open spec fn view(&self) -> TakeView<S> {
        TakeView { track_id: self.track_id@, samples: self.samples@, start_tick: self.playhead_tick }
    }
}

/// The takes of a session by their views.
pub open spec fn take_views<S>(takes: Seq<RecordingTake<S>>) -> Seq<TakeView<S>> {
    takes.map_values(|t: RecordingTake<S>| t@)
}

/// The clips a stop commits from a list of takes: every take that holds
/// samples, in order.
pub open spec fn committed_views<S>(takes: Seq<TakeView<S>>) -> Seq<TakeView<S>> {
    takes.filter(|t: TakeView<S>| t.samples.len() > 0)
}

/// No two takes belong to the same track.
pub open spec fn tracks_unique<S>(takes: Seq<TakeView<S>>) -> bool {
    forall|a: int, b: int| 0 <= a < b < takes.len() ==> (#[trigger] takes[a]).track_id != (#[trigger] takes[b]).track_id
}

/// The index of the take for `track`, if one is armed.
pub open spec fn take_index<S>(takes: Seq<TakeView<S>>, track: Seq<char>) -> Option<int> {
    crate::seqs::first_match(takes, |t: TakeView<S>| t.track_id == track)
}

/// A session: its state, its takes and how many samples the timer and the
/// waveform have counted.
pub struct SessionView<S> {
    pub state: RecordingState,
    pub takes: Seq<TakeView<S>>,
    pub samples_recorded: nat,
}

/// One recording pass.
#[derive(Debug)]
pub struct RecordingSession<S> {
    state: RecordingState,
    takes: Vec<RecordingTake<S>>,
    samples_recorded: usize,
}

impl<S> RecordingSession<S> {
    /// A track is armed at most once.
    #[verifier::type_invariant]
    spec fn one_take_per_track(self) -> bool {
        tracks_unique(take_views(self.takes@))
    }
}

impl<S> View for RecordingSession<S> {
    type V = SessionView<S>;

    closed spec fn view(&self) -> SessionView<S> {
        SessionView { state: self.state, takes: take_views(self.takes@), samples_recorded: self.samples_recorded as nat }
    }
}

/// `takes` with `extra` appended to the samples of the take at `k`.
pub open spec fn feed<S>(takes: Seq<TakeView<S>>, k: int, extra: Seq<S>) -> Seq<TakeView<S>> {
    takes.update(k, TakeView { samples: takes[k].samples + extra, ..takes[k] })
}

fn append_samples<S: Copy>(into: &mut Vec<S>, samples: &[S])
    ensures
        final(into)@ == old(into)@ + samples@,
{
    let mut i: usize = 0;
    while i < samples.len()
        invariant
            0 <= i <= samples@.len(),
            into@ == old(into)@ + samples@.take(i as int),
        decreases samples@.len() - i,
    {
        let x: S = samples[i];
        into.push(x);
        assert(samples@.take(i as int + 1) =~= samples@.take(i as int).push(x));
        i = i + 1;
    }
    assert(samples@.take(samples@.len() as int) =~= samples@);
}

impl<S: Copy> RecordingSession<S> {
    /// A session with nothing armed.
    pub fn new() -> (s: RecordingSession<S>)
        ensures
            s@.state == RecordingState::Idle,
            s@.takes == Seq::<TakeView<S>>::empty(),
            s@.samples_recorded == 0,
    {
        let s = RecordingSession { state: RecordingState::Idle, takes: Vec::new(), samples_recorded: 0 };
        assert(take_views(s.takes@) =~= Seq::<TakeView<S>>::empty());
        s
    }

    /// The session's state.
    pub fn state(&self) -> (r: RecordingState)
        ensures
            r == self@.state,
    {
        self.state
    }

    /// Whether tracks are armed or recording.
    pub fn is_armed(&self) -> (r: bool)
        ensures
            r == (self@.state == RecordingState::Armed || self@.state == RecordingState::Recording),
    {
        self.state == RecordingState::Armed || self.state == RecordingState::Recording
    }

    /// How many samples the timer has counted.
    pub fn samples_recorded(&self) -> (n: usize)
        ensures
            n == self@.samples_recorded,
    {
        self.samples_recorded
    }

    /// The takes in progress.
    pub fn takes(&self) -> (t: &[RecordingTake<S>])
        ensures
            take_views(t@) == self@.takes,
    {
        self.takes.as_slice()
    }

    fn find_take(&self, track_id: &str) -> (r: Option<usize>)
        ensures
            match r {
                Some(i) => i < self.takes@.len() && take_index(self@.takes, track_id@) == Some(i as int),
                None => take_index(self@.takes, track_id@) is None,
            },
    {
        let ghost views = take_views(self.takes@);
        let mut i: usize = 0;
        while i < self.takes.len()
            invariant
                0 <= i <= self.takes@.len(),
                views == take_views(self.takes@),
                views.len() == self.takes@.len(),
                forall|j: int| 0 <= j < i ==> (#[trigger] views[j]).track_id != track_id@,
            decreases self.takes@.len() - i,
        {
            if str_eq(self.takes[i].track_id.as_str(), track_id) {
                proof {
                    crate::seqs::lemma_first_match_at(views, |t: TakeView<S>| t.track_id == track_id@, i as int);
                }
                return Some(i);
            }
            i = i + 1;
        }
        proof {
            crate::seqs::lemma_first_match_none(views, |t: TakeView<S>| t.track_id == track_id@);
        }
        None
    }

    /// Arms a track, its take to start at `playhead_tick`. A track already
    /// armed keeps its take; an idle session becomes armed.
    pub fn arm_track(&mut self, track_id: &str, playhead_tick: u64)
        ensures
            final(self)@.takes == (if take_index(old(self)@.takes, track_id@) is Some {
                old(self)@.takes
            } else {
                old(self)@.takes.push(TakeView { track_id: track_id@, samples: Seq::empty(), start_tick: playhead_tick })
            }),
            final(self)@.state == (if old(self)@.state == RecordingState::Idle {
                RecordingState::Armed
            } else {
                old(self)@.state
            }),
            final(self)@.samples_recorded == old(self)@.samples_recorded,
    {
        proof {
            use_type_invariant(&*self);
        }
        let found = self.find_take(track_id);
        if found.is_none() {
            let ghost before = self.takes@;
            let mut takes: Vec<RecordingTake<S>> = Vec::new();
            std::mem::swap(&mut takes, &mut self.takes);
            let take = RecordingTake { track_id: String::from_str(track_id), samples: Vec::new(), start_playhead_tick: playhead_tick };
            takes.push(take);
            proof {
                crate::seqs::lemma_first_match_props(take_views(before), |t: TakeView<S>| t.track_id == track_id@);
                assert(take_views(takes@) =~= take_views(before).push(take@));
                assert(take@.samples =~= Seq::<S>::empty());
            }
            self.takes = takes;
        }
        if self.state == RecordingState::Idle {
            self.state = RecordingState::Armed;
        }
    }

    /// The armed tracks, in arming order.
    pub fn armed_track_ids(&self) -> (ids: Vec<String>)
        ensures
            ids@.len() == self@.takes.len(),
            forall|k: int| 0 <= k < ids@.len() ==> (#[trigger] ids@[k])@ == self@.takes[k].track_id,
    {
        let mut ids: Vec<String> = Vec::new();
        let mut i: usize = 0;
        while i < self.takes.len()
            invariant
                0 <= i <= self.takes@.len(),
                ids@.len() == i,
                forall|k: int| 0 <= k < i ==> (#[trigger] ids@[k])@ == self.takes@[k].track_id@,
            decreases self.takes@.len() - i,
        {
            ids.push(self.takes[i].track_id.clone());
            i = i + 1;
        }
        ids
    }

    /// Starts recording an armed session; `false`, and nothing changes,
    /// in any other state.
    pub fn start(&mut self) -> (started: bool)
        ensures
            started == (old(self)@.state == RecordingState::Armed),
            final(self)@.state == (if started { RecordingState::Recording } else { old(self)@.state }),
            final(self)@.takes == old(self)@.takes,
            final(self)@.samples_recorded == old(self)@.samples_recorded,
    {
        proof {
            use_type_invariant(&*self);
        }
        if self.state == RecordingState::Armed {
            self.state = RecordingState::Recording;
            true
        } else {
            false
        }
    }

    fn feed_take(&mut self, k: usize, samples: &[S])
        requires
            k < old(self)@.takes.len(),
        ensures
            final(self)@.takes == feed(old(self)@.takes, k as int, samples@),
            final(self)@.state == old(self)@.state,
            final(self)@.samples_recorded == old(self)@.samples_recorded,
    {
        proof {
            use_type_invariant(&*self);
        }
        let ghost before = self.takes@;
        let mut takes: Vec<RecordingTake<S>> = Vec::new();
        std::mem::swap(&mut takes, &mut self.takes);
        let mut take = takes.remove(k);
        append_samples(&mut take.samples, samples);
        takes.insert(k, take);
        proof {
            assert(take_views(takes@) =~= feed(take_views(before), k as int, samples@));
            assert(tracks_unique(take_views(takes@))) by {
                assert forall|a: int, b: int| 0 <= a < b < take_views(takes@).len() implies
                    (#[trigger] take_views(takes@)[a]).track_id != (#[trigger] take_views(takes@)[b]).track_id by {
                    assert(take_views(before)[a].track_id != take_views(before)[b].track_id);
                }
            }
        }
        self.takes = takes;
    }

    /// Feeds a block to the first armed take while recording; the timer
    /// counts it. Outside recording the block is dropped.
    pub fn push_samples(&mut self, samples: &[S])
        requires
            old(self)@.samples_recorded + samples@.len() <= usize::MAX,
        ensures
            old(self)@.state != RecordingState::Recording ==> final(self)@ == old(self)@,
            old(self)@.state == RecordingState::Recording ==> {
                &&& final(self)@.state == old(self)@.state
                &&& final(self)@.samples_recorded == old(self)@.samples_recorded + samples@.len()
                &&& final(self)@.takes == (if old(self)@.takes.len() > 0 {
                    feed(old(self)@.takes, 0, samples@)
                } else {
                    old(self)@.takes
                })
            },
    {
        if self.state != RecordingState::Recording {
            return;
        }
        if self.takes.len() > 0 {
            self.feed_take(0, samples);
        }
        proof {
            use_type_invariant(&*self);
        }
        self.samples_recorded = self.samples_recorded + samples.len();
    }

    /// Feeds a block to one track's take while recording; a track that is
    /// not armed drops it. Only the first armed track advances the timer.
    pub fn push_samples_for(&mut self, track_id: &str, samples: &[S])
        requires
            old(self)@.samples_recorded + samples@.len() <= usize::MAX,
        ensures
            old(self)@.state != RecordingState::Recording ==> final(self)@ == old(self)@,
            old(self)@.state == RecordingState::Recording ==> {
                &&& final(self)@.state == old(self)@.state
                &&& match take_index(old(self)@.takes, track_id@) {
                    Some(k) => {
                        &&& final(self)@.takes == feed(old(self)@.takes, k, samples@)
                        &&& final(self)@.samples_recorded == old(self)@.samples_recorded + (if k == 0 {
                            samples@.len()
                        } else {
                            0
                        })
                    },
                    None => final(self)@ == old(self)@,
                }
            },
    {
        if self.state != RecordingState::Recording {
            return;
        }
        proof {
            use_type_invariant(&*self);
        }
        match self.find_take(track_id) {
            Some(k) => {
                proof {
                    crate::seqs::lemma_first_match_props(self@.takes, |t: TakeView<S>| t.track_id == track_id@);
                }
                self.feed_take(k, samples);
                proof {
                    use_type_invariant(&*self);
                }
                if k == 0 {
                    self.samples_recorded = self.samples_recorded + samples.len();
                }
            },
            None => {},
        }
    }

    /// Stops the pass. Unless it was armed or recording nothing happens and
    /// nothing is committed. Canceling discards every take; any other stop
    /// commits each take that holds samples, in arming order. Either way
    /// the session ends stopped with no takes.
    pub fn stop(&mut self, reason: StopReason) -> (clips: Vec<CommittedClip<S>>)
        ensures
            !(old(self)@.state == RecordingState::Armed || old(self)@.state == RecordingState::Recording) ==> {
                &&& final(self)@ == old(self)@
                &&& clips@.len() == 0
            },
            (old(self)@.state == RecordingState::Armed || old(self)@.state == RecordingState::Recording) ==> {
                &&& final(self)@.state == RecordingState::Stopped
                &&& final(self)@.takes.len() == 0
                &&& final(self)@.samples_recorded == old(self)@.samples_recorded
                &&& clips@.map_values(|c: CommittedClip<S>| c@) == (if reason == StopReason::Canceled {
                    Seq::empty()
                } else {
                    committed_views(old(self)@.takes)
                })
            },
    {
        if !(self.state == RecordingState::Armed || self.state == RecordingState::Recording) {
            let clips: Vec<CommittedClip<S>> = Vec::new();
            assert(clips@.len() == 0);
            return clips;
        }
        let ghost before = take_views(self.takes@);
        let mut takes: Vec<RecordingTake<S>> = Vec::new();
        std::mem::swap(&mut takes, &mut self.takes);
        assert(take_views(self.takes@) =~= Seq::<TakeView<S>>::empty());
        self.state = RecordingState::Stopped;
        let mut clips: Vec<CommittedClip<S>> = Vec::new();
        if reason == StopReason::Canceled {
            assert(clips@.map_values(|c: CommittedClip<S>| c@) =~= Seq::<TakeView<S>>::empty());
            return clips;
        }
        let ghost all = takes@;
        let n = takes.len();
        let mut i: usize = 0;
        while takes.len() > 0
            invariant
                all.len() == n,
                i + takes@.len() == all.len(),
                takes@ == all.skip(i as int),
                before == take_views(all),
                clips@.map_values(|c: CommittedClip<S>| c@) == committed_views(before.take(i as int)),
            decreases takes@.len(),
        {
            let t = takes.remove(0);
            proof {
                assert(before.take(i as int + 1) =~= before.take(i as int).push(t@));
                reveal_with_fuel(Seq::filter, 1);
                assert(before.take(i as int + 1).drop_last() =~= before.take(i as int));
            }
            if t.samples.len() > 0 {
                let ghost tv = t@;
                clips.push(CommittedClip { track_id: t.track_id, playhead_tick: t.start_playhead_tick, samples: t.samples });
                proof {
                    assert(clips@.map_values(|c: CommittedClip<S>| c@) =~= committed_views(before.take(i as int)).push(tv));
                }
            }
            assert(takes@ =~= all.skip(i as int + 1));
            i = i + 1;
        }
        assert(before.take(i as int) =~= before);
        clips
    }
}

/// A stop commits only takes that hold samples, every such take, and
/// never more clips than there were takes.
pub proof fn lemma_stop_commits_nonempty_takes<S>(takes: Seq<TakeView<S>>)
    ensures
        forall|k: int| 0 <= k < committed_views(takes).len() ==> (#[trigger] committed_views(takes)[k]).samples.len() > 0,
        forall|k: int| 0 <= k < takes.len() && takes[k].samples.len() > 0 ==> committed_views(takes).contains(#[trigger] takes[k]),
        committed_views(takes).len() <= takes.len(),
{
    let p = |t: TakeView<S>| t.samples.len() > 0;
    takes.lemma_filter_len(p);
    assert forall|k: int| 0 <= k < committed_views(takes).len() implies (#[trigger] committed_views(takes)[k]).samples.len() > 0 by {
        takes.lemma_filter_pred(p, k);
    }
    assert forall|k: int| 0 <= k < takes.len() && takes[k].samples.len() > 0 implies committed_views(takes).contains(#[trigger] takes[k]) by {
        takes.lemma_filter_contains(p, k);
    }
}

} // verus!
