use hardwave::capture::{append_shifted_notes, captured_entry, commit_outcome, MidiEventData};
use hardwave::capture::{
    events_in_window, merge_plan, merge_target, pass_window, recording_clip_name, CapturedEvent,
    PlacementWindow, RecordingBounds,
};

fn midi_clip(position_ticks: u64, length_ticks: u64) -> PlacementWindow {
    PlacementWindow { is_midi: true, position_ticks, length_ticks }
}

#[test]
fn merges_into_overlapping_clip_with_tick_offset() {
    let clips = [midi_clip(1000, 4000)];
    let target = merge_target(&clips, 2000).expect("overlaps");
    assert_eq!(target, 0);
    let (offset, placed, len) = merge_plan(1000, 4000, 4000, 2000, 1000);
    assert_eq!(480 + offset, 1480, "offset by window - clip position");
    assert_eq!(placed, 4000);
    assert_eq!(len, 4000);
}

#[test]
fn grows_clip_when_recording_runs_past_the_end() {
    let clips = [midi_clip(0, 1000)];
    assert!(merge_target(&clips, 500).is_some());
    let (_offset, placed, len) = merge_plan(0, 1000, 1000, 500, 2500);
    assert_eq!(placed, 3000, "placement grows to cover the take");
    assert_eq!(len, 3000, "clip length grows in lockstep");
}

#[test]
fn no_merge_when_nothing_overlaps_or_clip_starts_later() {
    assert!(merge_target(&[midi_clip(0, 1000)], 5000).is_none());
    assert!(merge_target(&[midi_clip(3000, 1000)], 2500).is_none());
}

#[test]
fn the_latest_starting_midi_clip_takes_the_merge() {
    let clips = [
        midi_clip(0, 10_000),
        PlacementWindow { is_midi: false, position_ticks: 900, length_ticks: 10_000 },
        midi_clip(500, 10_000),
        midi_clip(500, 10_000),
    ];
    assert_eq!(merge_target(&clips, 1_000), Some(3));
}

#[test]
fn a_longer_clip_is_never_shrunk() {
    let (_o, placed, len) = merge_plan(0, 1000, 5000, 200, 1800);
    assert_eq!(placed, 2000);
    assert_eq!(len, 5000);
}

fn bounds() -> RecordingBounds {
    RecordingBounds {
        start_sample: 100,
        end_sample: 900,
        looping: true,
        loop_start: 0,
        loop_end: 400,
        punched: false,
        punch_in: 0,
        punch_out: 0,
        passes: 3,
    }
}

#[test]
fn loop_passes_cover_the_loop_and_the_last_pass_ends_at_the_stop() {
    let b = bounds();
    assert_eq!(pass_window(&b, 0), (100, 400));
    assert_eq!(pass_window(&b, 1), (0, 400));
    assert_eq!(pass_window(&b, 2), (0, 900));
}

#[test]
fn punch_points_narrow_every_pass() {
    let mut b = bounds();
    b.punched = true;
    b.punch_in = 150;
    b.punch_out = 300;
    assert_eq!(pass_window(&b, 0), (150, 300));
    b.punch_in = 500;
    assert_eq!(pass_window(&b, 1), (500, 500), "an empty window, never a reversed one");
}

#[test]
fn events_are_taken_from_their_pass_and_window_in_order() {
    let captured = vec![
        CapturedEvent { pass: 0, sample_pos: 10, event: 'a' },
        CapturedEvent { pass: 1, sample_pos: 20, event: 'b' },
        CapturedEvent { pass: 0, sample_pos: 30, event: 'c' },
        CapturedEvent { pass: 0, sample_pos: 50, event: 'd' },
    ];
    assert_eq!(events_in_window(&captured, 0, 10, 50), vec![(10, 'a'), (30, 'c')]);
    assert!(events_in_window(&captured, 2, 0, 100).is_empty());
}

#[test]
fn take_names_number_the_passes_of_a_loop() {
    assert_eq!(recording_clip_name(1, 0), "Recording");
    assert_eq!(recording_clip_name(3, 0), "Recording 1");
    assert_eq!(recording_clip_name(3, 2), "Recording 3");
}

#[test]
fn captured_events_become_rows_with_their_kind_fields() {
    let e = captured_entry(480, MidiEventData::NoteOn { channel: 1, note: 60, velocity: 0.75f32 });
    assert_eq!((e.sample_pos, e.kind, e.channel, e.note, e.velocity, e.cc, e.value), (480, "note_on", 1, Some(60), Some(0.75), None, None));
    let e = captured_entry(9, MidiEventData::NoteOff { channel: 0, note: 61, velocity: 0.0f32 });
    assert_eq!((e.kind, e.note, e.velocity), ("note_off", Some(61), Some(0.0)));
    let e = captured_entry(10, MidiEventData::ControlChange { channel: 2, cc: 74, value: 0.5f32 });
    assert_eq!((e.kind, e.channel, e.note, e.velocity, e.cc, e.value), ("control_change", 2, None, None, Some(74), Some(0.5)));
    let e = captured_entry(11, MidiEventData::PitchBend { channel: 3, value: -0.25f32 });
    assert_eq!((e.kind, e.cc, e.value), ("pitch_bend", None, Some(-0.25)));
    let e = captured_entry(12, MidiEventData::Aftertouch { channel: 0, note: 64, pressure: 0.3f32 });
    assert_eq!((e.kind, e.note, e.velocity, e.value), ("aftertouch", Some(64), Some(0.3), None));
    let e = captured_entry(13, MidiEventData::ChannelPressure { channel: 5, pressure: 0.9f32 });
    assert_eq!((e.kind, e.channel, e.note, e.velocity), ("channel_pressure", 5, None, Some(0.9)));
}

#[test]
fn a_blended_take_lands_at_its_offset_inside_the_clip() {
    let mut notes: Vec<(u64, u8)> = vec![(0, 60), (480, 62)];
    append_shifted_notes(&mut notes, &[(0, 64), (240, 65)], 960);
    assert_eq!(notes, vec![(0, 60), (480, 62), (960, 64), (1200, 65)]);
}

#[test]
fn a_commit_without_notes_is_refused() {
    assert_eq!(
        commit_outcome(Vec::new()),
        Err("no MIDI notes were captured in the recorded range".to_string())
    );
    assert_eq!(commit_outcome(vec!["c1".to_string()]), Ok(vec!["c1".to_string()]));
}
