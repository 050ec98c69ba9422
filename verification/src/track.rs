//! A mixer track as the project holds it: its id, name, kind and colour,
//! its switches and routing, and the contents it carries (levels, inserts,
//! sends, clips and lanes), which nothing here reads.

use vstd::prelude::*;

verus! {

/// What a track is for.
#[derive(Debug, Clone, Copy, PartialEq, Eq, Structural)]
pub enum TrackKind {
    Audio,
    Midi,
    Bus,
    Return,
    Master,
}

/// One track. `body` carries the mix levels and the track's inserts,
/// sends, clips and automation lanes.
#[derive(Debug)]
pub struct Track<B> {
    pub id: String,
    pub name: String,
    pub kind: TrackKind,
    /// CSS colour, `#rrggbb`.
    pub color: String,
    pub muted: bool,
    pub soloed: bool,
    pub solo_safe: bool,
    pub armed: bool,
    /// The bus the track feeds, or the master when none.
    pub output_bus: Option<String>,
    pub monitor_input: bool,
    pub phase_invert: bool,
    pub swap_lr: bool,
    pub delay_samples: i64,
    pub pitch_semitones: i32,
    pub body: B,
}

/// A track by its characters.
pub struct TrackView<B> {
    pub id: Seq<char>,
    pub name: Seq<char>,
    pub kind: TrackKind,
    pub color: Seq<char>,
    pub muted: bool,
    pub soloed: bool,
    pub solo_safe: bool,
    pub armed: bool,
    pub output_bus: Option<Seq<char>>,
    pub monitor_input: bool,
    pub phase_invert: bool,
    pub swap_lr: bool,
    pub delay_samples: i64,
    pub pitch_semitones: i32,
    pub body: B,
}

impl<B> View for Track<B> {
    type V = TrackView<B>;

    open spec fn view(&self) -> TrackView<B> {
        TrackView {
            id: self.id@,
            name: self.name@,
            kind: self.kind,
            color: self.color@,
            muted: self.muted,
            soloed: self.soloed,
            solo_safe: self.solo_safe,
            armed: self.armed,
            output_bus: match self.output_bus {
                Some(b) => Some(b@),
                None => None,
            },
            monitor_input: self.monitor_input,
            phase_invert: self.phase_invert,
            swap_lr: self.swap_lr,
            delay_samples: self.delay_samples,
            pitch_semitones: self.pitch_semitones,
            body: self.body,
        }
    }
}

/// The colour a new track of each kind gets.
pub open spec fn kind_color(kind: TrackKind) -> Seq<char> {
    match kind {
        TrackKind::Midi => "#06b6d4"@,
        TrackKind::Bus => "#22c55e"@,
        TrackKind::Master => "#ef4444"@,
        _ => "#7c3aed"@,
    }
}

/// A new track of `kind`: every switch off but input monitoring, no output
/// bus, no delay or transposition, and its kind's colour.
pub open spec fn fresh_track<B>(id: Seq<char>, name: Seq<char>, kind: TrackKind, body: B) -> TrackView<B> {
    TrackView {
        id,
        name,
        kind,
        color: kind_color(kind),
        muted: false,
        soloed: false,
        solo_safe: false,
        armed: false,
        output_bus: None,
        monitor_input: true,
        phase_invert: false,
        swap_lr: false,
        delay_samples: 0,
        pitch_semitones: 0,
        body,
    }
}

fn new_track<B>(id: String, name: String, kind: TrackKind, color: &str, body: B) -> (t: Track<B>)
    requires
        color@ == kind_color(kind),
    ensures
        t@ == fresh_track(id@, name@, kind, body),
{
    Track {
        id,
        name,
        kind,
        color: String::from_str(color),
        muted: false,
        soloed: false,
        solo_safe: false,
        armed: false,
        output_bus: None,
        monitor_input: true,
        phase_invert: false,
        swap_lr: false,
        delay_samples: 0,
        pitch_semitones: 0,
        body,
    }
}

impl<B> Track<B> {
    /// A new audio track.
    pub fn new_audio(id: String, name: String, body: B) -> (t: Track<B>)
        ensures
            t@ == fresh_track(id@, name@, TrackKind::Audio, body),
    {
        new_track(id, name, TrackKind::Audio, "#7c3aed", body)
    }

    /// A new MIDI track.
    pub fn new_midi(id: String, name: String, body: B) -> (t: Track<B>)
        ensures
            t@ == fresh_track(id@, name@, TrackKind::Midi, body),
    {
        new_track(id, name, TrackKind::Midi, "#06b6d4", body)
    }

    /// A new bus.
    pub fn new_bus(id: String, name: String, body: B) -> (t: Track<B>)
        ensures
            t@ == fresh_track(id@, name@, TrackKind::Bus, body),
    {
        new_track(id, name, TrackKind::Bus, "#22c55e", body)
    }

    /// The master track, named `Master`.
    pub fn new_master(id: String, body: B) -> (t: Track<B>)
        ensures
            t@ == fresh_track(id@, "Master"@, TrackKind::Master, body),
    {
        new_track(id, String::from_str("Master"), TrackKind::Master, "#ef4444", body)
    }
}


/// The name the UI shows for a kind: the variant's own name.
pub open spec fn kind_name_spec(kind: TrackKind) -> Seq<char> {
    match kind {
        TrackKind::Audio => "Audio"@,
        TrackKind::Midi => "Midi"@,
        TrackKind::Bus => "Bus"@,
        TrackKind::Return => "Return"@,
        TrackKind::Master => "Master"@,
    }
}

/// The name of a track kind, as the track list reports it.
pub fn kind_name(kind: TrackKind) -> (s: String)
    ensures
        s@ == kind_name_spec(kind),
{
    match kind {
        TrackKind::Audio => String::from_str("Audio"),
        TrackKind::Midi => String::from_str("Midi"),
        TrackKind::Bus => String::from_str("Bus"),
        TrackKind::Return => String::from_str("Return"),
        TrackKind::Master => String::from_str("Master"),
    }
}

} // verus!
