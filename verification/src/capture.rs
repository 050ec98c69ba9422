//! Committing captured MIDI as clips: the sample window each recording
//! pass covers, which captured events fall in it, what the new clip is
//! called, where a blend-recorded take merges into an existing clip, and
//! the rows the capture ring is shown as.

use vstd::prelude::*;
use crate::text::{decimal, push_decimal};

verus! {

/// What decides the windows of a recording: where record was pressed and
/// stopped (samples), the loop and punch settings, and how many passes the
/// loop made.
#[derive(Debug, Clone, Copy)]
pub struct RecordingBounds {
    pub start_sample: u64,
    pub end_sample: u64,
    pub looping: bool,
    pub loop_start: u64,
    pub loop_end: u64,
    pub punched: bool,
    pub punch_in: u64,
    pub punch_out: u64,
    pub passes: u32,
}

/// The larger of two sample positions.
pub open spec fn later(a: u64, b: u64) -> u64 {
    if a >= b { a } else { b }
}

/// The smaller of two sample positions.
pub open spec fn earlier(a: u64, b: u64) -> u64 {
    if a <= b { a } else { b }
}

/// Where pass `pass` starts before any punch: where record was pressed for
/// the first pass, the loop start for the others.
pub open spec fn pass_start(b: RecordingBounds, pass: u32) -> u64 {
    if pass == 0 { b.start_sample } else { b.loop_start }
}

/// Whether the loop wrapped, leaving the stop position at or before the
/// start.
pub open spec fn stop_wrapped(b: RecordingBounds) -> bool {
    b.looping && b.end_sample <= b.start_sample
}

/// Where pass `pass` ends before any punch: at the loop end while a proper
/// loop runs, except the last pass, which ends where recording stopped
/// unless the loop wrapped; the stop position never ends a pass before it
/// starts.
pub open spec fn pass_end(b: RecordingBounds, pass: u32) -> u64 {
    let ends_at_stop = (pass + 1 >= b.passes && !stop_wrapped(b)) || !(b.looping && b.loop_end > b.loop_start);
    if ends_at_stop { later(b.end_sample, pass_start(b, pass)) } else { b.loop_end }
}

/// The window of pass `pass`: from its start to its end, narrowed to the
/// punch range when punching, and never ending before it starts.
pub open spec fn pass_window_spec(b: RecordingBounds, pass: u32) -> (u64, u64) {
    let from = if b.punched { later(pass_start(b, pass), b.punch_in) } else { pass_start(b, pass) };
    let to = if b.punched { earlier(pass_end(b, pass), b.punch_out) } else { pass_end(b, pass) };
    (from, later(to, from))
}

/// The sample window recording pass `pass` covers.
pub fn pass_window(b: &RecordingBounds, pass: u32) -> (w: (u64, u64))
    ensures
        w == pass_window_spec(*b, pass),
{
    let is_last = pass as u64 + 1 >= b.passes as u64;
    let mut from = if pass == 0 { b.start_sample } else { b.loop_start };
    let end_or_from = if b.end_sample >= from { b.end_sample } else { from };
    let mut to = if is_last && !(b.looping && b.end_sample <= b.start_sample) {
        end_or_from
    } else if b.looping && b.loop_end > b.loop_start {
        b.loop_end
    } else {
        end_or_from
    };
    if b.punched {
        if b.punch_in > from {
            from = b.punch_in;
        }
        if b.punch_out < to {
            to = b.punch_out;
        }
    }
    (from, if to >= from { to } else { from })
}

/// A captured event: the pass it was captured in, its sample position,
/// and the event itself.
pub struct CapturedEvent<E> {
    pub pass: u32,
    pub sample_pos: u64,
    pub event: E,
}

/// Events of pass `pass` inside `[from, to)`.
pub open spec fn in_window<E>(pass: u32, from: u64, to: u64) -> spec_fn(CapturedEvent<E>) -> bool {
    |c: CapturedEvent<E>| c.pass == pass && from <= c.sample_pos && c.sample_pos < to
}

/// The (position, event) pairs a pass's window holds, in capture order.
pub open spec fn window_events<E>(captured: Seq<CapturedEvent<E>>, pass: u32, from: u64, to: u64) -> Seq<(u64, E)> {
    captured.filter(in_window(pass, from, to)).map_values(|c: CapturedEvent<E>| (c.sample_pos, c.event))
}

/// The captured events that belong to one pass's window.
pub fn events_in_window<E: Copy>(captured: &[CapturedEvent<E>], pass: u32, from: u64, to: u64) -> (v: Vec<(u64, E)>)
    ensures
        v@ == window_events(captured@, pass, from, to),
{
    let mut v: Vec<(u64, E)> = Vec::new();
    let mut i: usize = 0;
    while i < captured.len()
        invariant
            0 <= i <= captured@.len(),
            v@ == window_events(captured@.take(i as int), pass, from, to),
        decreases captured@.len() - i,
    {
        proof {
            reveal_with_fuel(Seq::filter, 1);
            assert(captured@.take(i as int + 1).drop_last() =~= captured@.take(i as int));
        }
        let c = &captured[i];
        if c.pass == pass && from <= c.sample_pos && c.sample_pos < to {
            let ghost before = v@;
            v.push((c.sample_pos, c.event));
            proof {
                let f = captured@.take(i as int).filter(in_window(pass, from, to));
                assert(captured@.take(i as int + 1).filter(in_window(pass, from, to)) == f.push(captured@[i as int]));
                assert(f.push(captured@[i as int]).map_values(|c: CapturedEvent<E>| (c.sample_pos, c.event))
                    =~= f.map_values(|c: CapturedEvent<E>| (c.sample_pos, c.event)).push(
                    (captured@[i as int].sample_pos, captured@[i as int].event),
                ));
            }
        }
        i = i + 1;
    }
    assert(captured@.take(i as int) =~= captured@);
    v
}

/// The name of a recorded clip: "Recording", numbered by pass when the
/// loop made several.
pub open spec fn recording_name_spec(passes: u32, pass: u32) -> Seq<char> {
    if passes > 1 {
        "Recording "@ + decimal(pass as nat + 1)
    } else {
        "Recording"@
    }
}

/// The name the clip of pass `pass` gets.
pub fn recording_clip_name(passes: u32, pass: u32) -> (name: String)
    ensures
        name@ == recording_name_spec(passes, pass),
{
    if passes > 1 {
        let mut name = String::from_str("Recording ");
        push_decimal(&mut name, pass as u64 + 1);
        name
    } else {
        String::from_str("Recording")
    }
}

/// A clip placement as the blend merge sees it: whether it holds MIDI,
/// and its position and length in ticks.
#[derive(Debug, Clone, Copy)]
pub struct PlacementWindow {
    pub is_midi: bool,
    pub position_ticks: u64,
    pub length_ticks: u64,
}

/// A MIDI clip that starts at or before `at` and is still playing there.
pub open spec fn can_take(p: PlacementWindow, at: u64) -> bool {
    p.is_midi && p.position_ticks <= at && p.position_ticks + p.length_ticks > at
}

/// The clip a blend-recorded take at tick `at` merges into: among the
/// clips that can take it, the one starting latest, and of several
/// starting together the last.
pub open spec fn merge_target_spec(clips: Seq<PlacementWindow>, at: u64) -> Option<int>
    decreases clips.len(),
{
    if clips.len() == 0 {
        None
    } else {
        let earlier = merge_target_spec(clips.drop_last(), at);
        let last = clips.last();
        if !can_take(last, at) {
            earlier
        } else {
            match earlier {
                Some(k) if clips[k].position_ticks > last.position_ticks => Some(k),
                _ => Some(clips.len() - 1),
            }
        }
    }
}

/// Picks the clip a blend-recorded take starting at `at` merges into.
pub fn merge_target(clips: &[PlacementWindow], at: u64) -> (r: Option<usize>)
    ensures
        match merge_target_spec(clips@, at) {
            Some(k) => r == Some(k as usize),
            None => r is None,
        },
{
    let mut best: Option<usize> = None;
    let mut i: usize = 0;
    while i < clips.len()
        invariant
            0 <= i <= clips@.len(),
            match merge_target_spec(clips@.take(i as int), at) {
                Some(k) => best == Some(k as usize) && 0 <= k < i,
                None => best is None,
            },
        decreases clips@.len() - i,
    {
        proof {
            assert(clips@.take(i as int + 1).drop_last() =~= clips@.take(i as int));
            assert(clips@.take(i as int + 1).last() == clips@[i as int]);
            if let Some(k) = merge_target_spec(clips@.take(i as int), at) {
                assert(clips@.take(i as int + 1)[k] == clips@[k]);
            }
        }
        let p = clips[i];
        if p.is_midi && p.position_ticks <= at && p.length_ticks > at - p.position_ticks {
            match best {
                Some(b) => {
                    if !(clips[b].position_ticks > p.position_ticks) {
                        best = Some(i);
                    }
                },
                None => best = Some(i),
            }
        }
        i = i + 1;
    }
    assert(clips@.take(i as int) =~= clips@);
    best
}

/// How a take of `rec_length` ticks recorded at `rec_position` merges
/// into a clip placed at `clip_position` for `placement_length` ticks whose
/// own length is `clip_length`: the notes move by the offset of the take
/// into the clip, and placement and clip grow (never shrink) to reach the
/// take's end. Returns (offset, new placement length, new clip length).
pub open spec fn merge_plan_spec(
    clip_position: u64,
    placement_length: u64,
    clip_length: u64,
    rec_position: u64,
    rec_length: u64,
) -> (int, int, int) {
    let needed = if rec_position + rec_length > clip_position { rec_position + rec_length - clip_position } else { 0 };
    if needed > placement_length {
        (rec_position - clip_position, needed, if clip_length >= needed { clip_length as int } else { needed })
    } else {
        (rec_position - clip_position, placement_length as int, clip_length as int)
    }
}

/// The offset and new lengths of a blend merge.
pub fn merge_plan(
    clip_position: u64,
    placement_length: u64,
    clip_length: u64,
    rec_position: u64,
    rec_length: u64,
) -> (r: (u64, u64, u64))
    requires
        clip_position <= rec_position,
        rec_position + rec_length <= u64::MAX,
    ensures
        (r.0 as int, r.1 as int, r.2 as int) == merge_plan_spec(
            clip_position,
            placement_length,
            clip_length,
            rec_position,
            rec_length,
        ),
{
    let rec_end = rec_position + rec_length;
    let offset = rec_position - clip_position;
    let needed = rec_end.saturating_sub(clip_position);
    if needed > placement_length {
        (offset, needed, if clip_length >= needed { clip_length } else { needed })
    } else {
        (offset, placement_length, clip_length)
    }
}

/// A merged take never lands before the clip it joins, and the clip then
/// reaches at least to the take's end.
pub proof fn lemma_merge_covers_the_take(
    clip_position: u64,
    placement_length: u64,
    clip_length: u64,
    rec_position: u64,
    rec_length: u64,
)
    requires
        clip_position <= rec_position,
    ensures
        ({
            let (offset, placed, len) = merge_plan_spec(clip_position, placement_length, clip_length, rec_position, rec_length);
            &&& offset >= 0
            &&& clip_position + placed >= rec_position + rec_length
            &&& placed >= placement_length
            &&& len >= clip_length
        }),
{
}


/// A MIDI event as the capture ring holds it. `F` is the type of the
/// engine's normalized velocities, pressures and controller values.
#[derive(Debug, Clone, Copy)]
pub enum MidiEventData<F> {
    NoteOn { channel: u8, note: u8, velocity: F },
    NoteOff { channel: u8, note: u8, velocity: F },
    ControlChange { channel: u8, cc: u8, value: F },
    PitchBend { channel: u8, value: F },
    Aftertouch { channel: u8, note: u8, pressure: F },
    ChannelPressure { channel: u8, pressure: F },
}

/// One row of the capture ring as the UI receives it: where it was seen,
/// what kind of event it is, and the fields that kind has.
#[derive(Debug)]
pub struct CapturedMidiEntry<F> {
    pub sample_pos: u64,
    pub kind: &'static str,
    pub channel: u8,
    pub note: Option<u8>,
    pub velocity: Option<F>,
    pub cc: Option<u8>,
    pub value: Option<F>,
}

/// The row for an event: note events carry note and velocity; a controller
/// change its number and value; pitch bend its value; aftertouch its note
/// and, as velocity, its pressure; channel pressure its pressure as
/// velocity.
pub open spec fn entry_fields<F>(ev: MidiEventData<F>) -> (Seq<char>, u8, Option<u8>, Option<F>, Option<u8>, Option<F>) {
    match ev {
        MidiEventData::NoteOn { channel, note, velocity } => ("note_on"@, channel, Some(note), Some(velocity), None, None),
        MidiEventData::NoteOff { channel, note, velocity } => ("note_off"@, channel, Some(note), Some(velocity), None, None),
        MidiEventData::ControlChange { channel, cc, value } => ("control_change"@, channel, None, None, Some(cc), Some(value)),
        MidiEventData::PitchBend { channel, value } => ("pitch_bend"@, channel, None, None, None, Some(value)),
        MidiEventData::Aftertouch { channel, note, pressure } => ("aftertouch"@, channel, Some(note), Some(pressure), None, None),
        MidiEventData::ChannelPressure { channel, pressure } => ("channel_pressure"@, channel, None, Some(pressure), None, None),
    }
}

/// The capture-ring row for an event seen at `sample_pos`.
pub fn captured_entry<F>(sample_pos: u64, ev: MidiEventData<F>) -> (e: CapturedMidiEntry<F>)
    ensures
        e.sample_pos == sample_pos,
        (e.kind@, e.channel, e.note, e.velocity, e.cc, e.value) == entry_fields(ev),
{
    match ev {
        MidiEventData::NoteOn { channel, note, velocity } => CapturedMidiEntry {
            sample_pos, kind: "note_on", channel, note: Some(note), velocity: Some(velocity), cc: None, value: None,
        },
        MidiEventData::NoteOff { channel, note, velocity } => CapturedMidiEntry {
            sample_pos, kind: "note_off", channel, note: Some(note), velocity: Some(velocity), cc: None, value: None,
        },
        MidiEventData::ControlChange { channel, cc, value } => CapturedMidiEntry {
            sample_pos, kind: "control_change", channel, note: None, velocity: None, cc: Some(cc), value: Some(value),
        },
        MidiEventData::PitchBend { channel, value } => CapturedMidiEntry {
            sample_pos, kind: "pitch_bend", channel, note: None, velocity: None, cc: None, value: Some(value),
        },
        MidiEventData::Aftertouch { channel, note, pressure } => CapturedMidiEntry {
            sample_pos, kind: "aftertouch", channel, note: Some(note), velocity: Some(pressure), cc: None, value: None,
        },
        MidiEventData::ChannelPressure { channel, pressure } => CapturedMidiEntry {
            sample_pos, kind: "channel_pressure", channel, note: None, velocity: Some(pressure), cc: None, value: None,
        },
    }
}


/// Notes recorded from the start of a take, moved `offset` ticks later.
pub open spec fn shifted<N>(notes: Seq<(u64, N)>, offset: u64) -> Seq<(u64, N)> {
    notes.map_values(|n: (u64, N)| ((n.0 + offset) as u64, n.1))
}

/// Appends a take's notes (start tick, note) to a clip's notes, each moved
/// by the take's offset into the clip, in the order they were recorded.
pub fn append_shifted_notes<N: Copy>(clip_notes: &mut Vec<(u64, N)>, recorded: &[(u64, N)], offset: u64)
    requires
        forall|i: int| 0 <= i < recorded@.len() ==> (#[trigger] recorded@[i]).0 + offset <= u64::MAX,
    ensures
        final(clip_notes)@ == old(clip_notes)@ + shifted(recorded@, offset),
{
    let ghost start = clip_notes@;
    let mut i: usize = 0;
    while i < recorded.len()
        invariant
            0 <= i <= recorded@.len(),
            forall|k: int| 0 <= k < recorded@.len() ==> (#[trigger] recorded@[k]).0 + offset <= u64::MAX,
            clip_notes@ == start + shifted(recorded@.take(i as int), offset),
        decreases recorded@.len() - i,
    {
        let n = recorded[i];
        clip_notes.push((n.0 + offset, n.1));
        proof {
            assert(recorded@.take(i as int + 1) =~= recorded@.take(i as int).push(n));
            assert(shifted(recorded@.take(i as int + 1), offset) =~= shifted(recorded@.take(i as int), offset).push(
                ((n.0 + offset) as u64, n.1),
            ));
        }
        i = i + 1;
    }
    assert(recorded@.take(i as int) =~= recorded@);
}

/// The refusal of a commit in which no pass held a note.
pub open spec fn nothing_captured_message() -> Seq<char> {
    "no MIDI notes were captured in the recorded range"@
}

/// The result of committing a recording: the ids of the clips made or
/// merged into, one per pass that held notes; none at all is refused.
pub fn commit_outcome(created: Vec<String>) -> (r: Result<Vec<String>, String>)
    ensures
        created@.len() == 0 ==> (r matches Err(m) && m@ == nothing_captured_message()),
        created@.len() != 0 ==> (r matches Ok(v) && v@ == created@),
{
    if created.len() == 0 {
        Err(String::from_str("no MIDI notes were captured in the recorded range"))
    } else {
        Ok(created)
    }
}

} // verus!
