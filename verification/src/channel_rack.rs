//! Channel rack: the four channel kinds, turning a pattern into arrangement
//! clips, MIDI routing to a channel, and the project-wide write-mode flag.

use vstd::prelude::*;
use crate::automation::AutomationTarget;
use crate::clip::ClipId;
use crate::text::str_eq;
use crate::seqs::{first_match, lemma_first_match_at, lemma_first_match_none, lemma_first_match_props};

verus! {

/// The four kinds of channel the rack holds.
#[derive(Debug)]
pub enum ChannelKind {
    /// Loads a single audio file and triggers it once per step.
    Sampler { sample_path: String },
    /// References an audio clip already on the arrangement.
    AudioClip { clip_id: ClipId },
    /// Targets an automation lane; steps draw points instead of sound.
    AutomationClip { target: AutomationTarget },
    /// Triggering the channel dispatches to every member.
    Layer { member_ids: Vec<String> },
}

impl Clone for AutomationTarget {
    fn clone(&self) -> (r: Self)
        ensures
            r == *self,
    {
        match self {
            AutomationTarget::TrackVolume => AutomationTarget::TrackVolume,
            AutomationTarget::TrackPan => AutomationTarget::TrackPan,
            AutomationTarget::TrackMute => AutomationTarget::TrackMute,
            AutomationTarget::PluginParam { slot_id, param_id } => AutomationTarget::PluginParam {
                slot_id: slot_id.clone(),
                param_id: *param_id,
            },
            AutomationTarget::SendLevel { send_index } => AutomationTarget::SendLevel {
                send_index: *send_index,
            },
        }
    }
}

/// Two channel kinds hold the same data: equal values, with a layer's
/// members compared by their contents.
pub open spec fn same_kind(a: ChannelKind, b: ChannelKind) -> bool {
    match (a, b) {
        (ChannelKind::Layer { member_ids: m1 }, ChannelKind::Layer { member_ids: m2 }) => m1@ == m2@,
        _ => a == b,
    }
}

impl Clone for ChannelKind {
    fn clone(&self) -> (r: Self)
        ensures
            same_kind(r, *self),
    {
        match self {
            ChannelKind::Sampler { sample_path } => ChannelKind::Sampler {
                sample_path: sample_path.clone(),
            },
            ChannelKind::AudioClip { clip_id } => ChannelKind::AudioClip { clip_id: clip_id.clone() },
            ChannelKind::AutomationClip { target } => ChannelKind::AutomationClip {
                target: target.clone(),
            },
            ChannelKind::Layer { member_ids } => {
                let members = member_ids.clone();
                assert(members@ =~= member_ids@);
                ChannelKind::Layer { member_ids: members }
            },
        }
    }
}


/// The file stem `std::path::Path::file_stem` finds in a path, under the
/// path rules of the platform the library is built for.
pub uninterp spec fn path_file_stem(path: Seq<char>) -> Option<Seq<char>>;

/// Calls `Path::file_stem` on a path given as text and converts the stem
/// back to a `String` (a stem taken from a `&str` is always valid UTF-8).
/// Claims only that the result is the named stem of the path's text.
#[verifier::external_body]
fn file_stem(path: &str) -> (r: Option<String>)
    ensures
        match path_file_stem(path@) {
            Some(stem) => r is Some && r->0@ == stem,
            None => r is None,
        },
{
    std::path::Path::new(path).file_stem().and_then(|s| s.to_str()).map(|s| s.to_string())
}

/// The name a new channel gets: a sampler is named after its file, the
/// other kinds after their id.
pub open spec fn default_name_spec(kind: ChannelKind, id: Seq<char>) -> Seq<char> {
    match kind {
        ChannelKind::Sampler { sample_path } => match path_file_stem(sample_path@) {
            Some(stem) => stem,
            None => id,
        },
        ChannelKind::AudioClip { .. } => "Audio "@ + id,
        ChannelKind::AutomationClip { .. } => "Automation "@ + id,
        ChannelKind::Layer { .. } => "Layer "@ + id,
    }
}

fn default_name_for(kind: &ChannelKind, id: &str) -> (name: String)
    ensures
        name@ == default_name_spec(*kind, id@),
{
    match kind {
        ChannelKind::Sampler { sample_path } => match file_stem(sample_path.as_str()) {
            Some(stem) => stem,
            None => String::from_str(id),
        },
        ChannelKind::AudioClip { .. } => {
            let mut s = String::from_str("Audio ");
            s.append(id);
            s
        },
        ChannelKind::AutomationClip { .. } => {
            let mut s = String::from_str("Automation ");
            s.append(id);
            s
        },
        ChannelKind::Layer { .. } => {
            let mut s = String::from_str("Layer ");
            s.append(id);
            s
        },
    }
}

impl ChannelKind {
    /// Samplers, audio clips and layers make sound.
    pub fn is_audio_producing(&self) -> (r: bool)
        ensures
            r == !(*self is AutomationClip),
    {
        match self {
            ChannelKind::Sampler { .. } | ChannelKind::AudioClip { .. } | ChannelKind::Layer { .. } => true,
            ChannelKind::AutomationClip { .. } => false,
        }
    }

    /// Only automation-clip channels draw automation.
    pub fn is_automation(&self) -> (r: bool)
        ensures
            r == (*self is AutomationClip),
    {
        match self {
            ChannelKind::AutomationClip { .. } => true,
            _ => false,
        }
    }
}

/// One row in the channel rack.
#[derive(Debug)]
pub struct Channel {
    pub id: String,
    pub name: String,
    pub kind: ChannelKind,
    pub mixer_track: Option<String>,
    pub midi_note: u8,
    pub color_argb: u32,
    pub muted: bool,
}

/// A fresh channel of a kind: named by `default_name_spec`, on middle C,
/// grey, unmuted and not routed to a mixer track.
pub open spec fn fresh_channel(c: Channel, id: Seq<char>, kind: ChannelKind) -> bool {
    &&& c.id@ == id
    &&& c.name@ == default_name_spec(kind, id)
    &&& same_kind(c.kind, kind)
    &&& c.mixer_track is None
    &&& c.midi_note == 60
    &&& c.color_argb == 0xFF80_8080
    &&& !c.muted
}

impl Channel {
    /// A sampler channel playing the file at `sample_path`.
    pub fn sampler(id: &str, sample_path: &str) -> (c: Channel)
        ensures
            fresh_channel(c, id@, ChannelKind::Sampler { sample_path: c.kind->sample_path }),
            c.kind is Sampler && c.kind->sample_path@ == sample_path@,
    {
        Self::new(id, ChannelKind::Sampler { sample_path: String::from_str(sample_path) })
    }

    /// A channel that triggers an existing audio clip.
    pub fn audio_clip(id: &str, clip_id: ClipId) -> (c: Channel)
        ensures
            fresh_channel(c, id@, ChannelKind::AudioClip { clip_id }),
    {
        Self::new(id, ChannelKind::AudioClip { clip_id })
    }

    /// A channel whose steps draw automation for `target`.
    pub fn automation_clip(id: &str, target: AutomationTarget) -> (c: Channel)
        ensures
            fresh_channel(c, id@, ChannelKind::AutomationClip { target }),
    {
        Self::new(id, ChannelKind::AutomationClip { target })
    }

    /// A layer that dispatches to every member.
    pub fn layer(id: &str, member_ids: Vec<String>) -> (c: Channel)
        ensures
            fresh_channel(c, id@, ChannelKind::Layer { member_ids }),
    {
        Self::new(id, ChannelKind::Layer { member_ids })
    }

    fn new(id: &str, kind: ChannelKind) -> (c: Channel)
        ensures
            fresh_channel(c, id@, kind),
            c.kind == kind,
    {
        let name = default_name_for(&kind, id);
        Channel {
            id: String::from_str(id),
            name,
            kind,
            mixer_track: None,
            midi_note: 60,
            color_argb: 0xFF80_8080,
            muted: false,
        }
    }
}

/// A compiled pattern step: which channel fires at which step.
#[derive(Debug, Clone)]
pub struct PatternStep {
    pub channel_id: String,
    pub step: u32,
    pub velocity: u8,
}

/// A channel-rack pattern: its steps plus its length.
#[derive(Debug)]
pub struct Pattern {
    pub id: String,
    pub name: String,
    pub length_steps: u32,
    pub steps_per_beat: u32,
    pub color_argb: u32,
    pub steps: Vec<PatternStep>,
}

/// One arrangement clip made from a pattern: a channel's clip at a position.
#[derive(Debug)]
pub struct ArrangementClipPlacement {
    pub channel_id: String,
    pub timeline_start_tick: u64,
    pub length_ticks: u64,
    pub kind: ChannelKind,
}

/// The channel whose id is `id`.
pub open spec fn channel_with_id(channels: Seq<Channel>, id: Seq<char>) -> Option<int> {
    first_match(channels, |c: Channel| c.id@ == id)
}

/// The channels a pattern places, in the order their first step appears,
/// each once, skipping ids no channel has.
pub open spec fn arranged_channel_ids(steps: Seq<PatternStep>, channels: Seq<Channel>) -> Seq<Seq<char>>
    decreases steps.len(),
{
    if steps.len() == 0 {
        seq![]
    } else {
        let prev = arranged_channel_ids(steps.drop_last(), channels);
        let id = steps.last().channel_id@;
        if prev.contains(id) || channel_with_id(channels, id) is None {
            prev
        } else {
            prev.push(id)
        }
    }
}

/// The clip length of a pattern in ticks.
pub open spec fn pattern_length_ticks(p: Pattern, ticks_per_beat: u64) -> int {
    (ticks_per_beat / (p.steps_per_beat as u64)) as int * p.length_steps
}

/// `out` places the channels `ids` at `start` with `length`, each with the
/// kind of its channel.
pub open spec fn placements_match(
    out: Seq<ArrangementClipPlacement>,
    ids: Seq<Seq<char>>,
    channels: Seq<Channel>,
    start: u64,
    length: int,
) -> bool {
    &&& out.len() == ids.len()
    &&& forall|k: int| 0 <= k < out.len() ==> {
        &&& (#[trigger] out[k]).channel_id@ == ids[k]
        &&& out[k].timeline_start_tick == start
        &&& out[k].length_ticks == length
        &&& channel_with_id(channels, ids[k]) is Some
        &&& same_kind(out[k].kind, channels[channel_with_id(channels, ids[k])->0].kind)
    }
}

fn find_channel(channels: &Vec<Channel>, id: &str) -> (r: Option<usize>)
    ensures
        match channel_with_id(channels@, id@) {
            Some(i) => 0 <= i < channels@.len() && r is Some && r->0 as int == i,
            None => r is None,
        },
{
    let mut i: usize = 0;
    while i < channels.len()
        invariant
            0 <= i <= channels@.len(),
            forall|j: int| 0 <= j < i ==> channels@[j].id@ != id@,
        decreases channels@.len() - i,
    {
        if str_eq(channels[i].id.as_str(), id) {
            proof {
                lemma_first_match_at(channels@, |c: Channel| c.id@ == id@, i as int);
            }
            return Some(i);
        }
        i = i + 1;
    }
    proof {
        lemma_first_match_none(channels@, |c: Channel| c.id@ == id@);
    }
    None
}

impl Pattern {
    /// One arrangement clip per channel the pattern triggers, all starting at
    /// `timeline_start_tick` and as long as the pattern. Nothing when the
    /// pattern has no steps per beat or no length.
    pub fn to_arrangement_clips(
        &self,
        timeline_start_tick: u64,
        ticks_per_beat: u64,
        channels: &Vec<Channel>,
    ) -> (out: Vec<ArrangementClipPlacement>)
        requires
            self.steps_per_beat == 0 || self.length_steps == 0 || pattern_length_ticks(*self, ticks_per_beat)
                <= u64::MAX,
        ensures
            self.steps_per_beat == 0 || self.length_steps == 0 ==> out@.len() == 0,
            self.steps_per_beat != 0 && self.length_steps != 0 ==> placements_match(
                out@,
                arranged_channel_ids(self.steps@, channels@),
                channels@,
                timeline_start_tick,
                pattern_length_ticks(*self, ticks_per_beat),
            ),
    {
        let mut out: Vec<ArrangementClipPlacement> = Vec::new();
        if self.steps_per_beat == 0 || self.length_steps == 0 {
            return out;
        }
        let ticks_per_step = ticks_per_beat / self.steps_per_beat as u64;
        let length_ticks = ticks_per_step * self.length_steps as u64;
        let mut i: usize = 0;
        while i < self.steps.len()
            invariant
                0 <= i <= self.steps@.len(),
                length_ticks == pattern_length_ticks(*self, ticks_per_beat),
                placements_match(
                    out@,
                    arranged_channel_ids(self.steps@.take(i as int), channels@),
                    channels@,
                    timeline_start_tick,
                    length_ticks as int,
                ),
            decreases self.steps@.len() - i,
        {
            let ghost prefix = self.steps@.take(i as int + 1);
            assert(prefix.drop_last() =~= self.steps@.take(i as int));
            let ghost ids = arranged_channel_ids(self.steps@.take(i as int), channels@);
            let step_id = self.steps[i].channel_id.as_str();
            let mut seen = false;
            let mut k: usize = 0;
            while k < out.len()
                invariant
                    0 <= k <= out@.len(),
                    out@.len() == ids.len(),
                    forall|m: int| 0 <= m < out@.len() ==> (#[trigger] out@[m]).channel_id@ == ids[m],
                    seen == exists|m: int| 0 <= m < k && ids[m] == step_id@,
                decreases out@.len() - k,
            {
                if str_eq(out[k].channel_id.as_str(), step_id) {
                    seen = true;
                }
                k = k + 1;
            }
            assert(seen == ids.contains(step_id@));
            if !seen {
                match find_channel(channels, step_id) {
                    Some(ci) => {
                        let kind = channels[ci].kind.clone();
                        out.push(ArrangementClipPlacement {
                            channel_id: channels[ci].id.clone(),
                            timeline_start_tick,
                            length_ticks,
                            kind,
                        });
                        proof {
                            lemma_first_match_props(channels@, |c: Channel| c.id@ == step_id@);
                        }
                    },
                    None => {},
                }
            }
            i = i + 1;
        }
        assert(self.steps@.take(i as int) =~= self.steps@);
        out
    }
}

/// Whether a channel answers to an incoming note: same note, not muted.
pub open spec fn answers_note(c: Channel, note: u8) -> bool {
    c.midi_note == note && !c.muted
}

/// Which channel an incoming MIDI note goes to: the selected channel when
/// one is selected (whatever the note), otherwise the first unmuted channel
/// on that note, otherwise none.
pub open spec fn midi_route_spec(channels: Seq<Channel>, selected: Option<Seq<char>>, note: u8) -> Option<int> {
    match selected {
        Some(id) => channel_with_id(channels, id),
        None => first_match(channels, |c: Channel| answers_note(c, note)),
    }
}

/// Resolves an incoming note to the channel that should play it.
pub fn resolve_midi_route<'a>(
    channels: &'a Vec<Channel>,
    selected_channel_id: Option<&str>,
    incoming_note: u8,
) -> (r: Option<&'a Channel>)
    ensures
        match selected_channel_id {
            Some(id) => match channel_with_id(channels@, id@) {
                Some(i) => r == Some(&channels@[i]),
                None => r is None,
            },
            None => true,
        },
        selected_channel_id is None ==> match first_match(
            channels@,
            |c: Channel| answers_note(c, incoming_note),
        ) {
            Some(i) => r == Some(&channels@[i]),
            None => r is None,
        },
{
    match selected_channel_id {
        Some(id) => {
            match find_channel(channels, id) {
                Some(i) => Some(&channels[i]),
                None => None,
            }
        },
        None => {
            let mut i: usize = 0;
            while i < channels.len()
                invariant
                    0 <= i <= channels@.len(),
                    selected_channel_id is None,
                    forall|j: int| 0 <= j < i ==> !answers_note(#[trigger] channels@[j], incoming_note),
                decreases channels@.len() - i,
            {
                if channels[i].midi_note == incoming_note && !channels[i].muted {
                    proof {
                        lemma_first_match_at(channels@, |c: Channel| answers_note(c, incoming_note), i as int);
                    }
                    return Some(&channels[i]);
                }
                i = i + 1;
            }
            proof {
                lemma_first_match_none(channels@, |c: Channel| answers_note(c, incoming_note));
            }
            None
        },
    }
}

/// The toolbar's project-wide automation write flag.
#[derive(Debug, Clone, Copy, PartialEq, Eq, Structural)]
pub struct GlobalWriteMode {
    pub enabled: bool,
}

impl GlobalWriteMode {
    /// The flag starts off.
    pub fn default_mode() -> (g: GlobalWriteMode)
        ensures
            !g.enabled,
    {
        GlobalWriteMode { enabled: false }
    }

    /// Global write on overrides every track; otherwise the track decides.
    pub fn combined(&self, per_track: bool) -> (r: bool)
        ensures
            r == (self.enabled || per_track),
    {
        self.enabled || per_track
    }
}

} // verus!
