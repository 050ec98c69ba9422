use hardwave::automation::AutomationTarget;
use hardwave::channel_rack::{resolve_midi_route, Channel, GlobalWriteMode, Pattern, PatternStep};

#[test]
fn sampler_channel_uses_filename_as_name() {
    let c = Channel::sampler("c1", "/samples/808/kick.wav");
    assert_eq!(c.name, "kick");
}

#[test]
fn channel_kinds_classify_correctly() {
    assert!(Channel::sampler("s", "x").kind.is_audio_producing());
    assert!(!Channel::sampler("s", "x").kind.is_automation());
    assert!(Channel::automation_clip("a", AutomationTarget::TrackVolume)
        .kind
        .is_automation());
    assert!(Channel::layer("l", vec!["a".into()]).kind.is_audio_producing());
}

#[test]
fn pattern_converts_to_arrangement_clips() {
    let channels = vec![
        Channel::sampler("c1", "/x/kick.wav"),
        Channel::sampler("c2", "/x/snare.wav"),
    ];
    let pattern = Pattern {
        id: "p1".into(),
        name: "Beat 1".into(),
        length_steps: 16,
        steps_per_beat: 4,
        color_argb: 0xFF_00_80_FF,
        steps: vec![
            PatternStep { channel_id: "c1".into(), step: 0, velocity: 100 },
            PatternStep { channel_id: "c2".into(), step: 4, velocity: 100 },
            PatternStep { channel_id: "c1".into(), step: 8, velocity: 100 },
        ],
    };
    let clips = pattern.to_arrangement_clips(1_000, 480, &channels);
    assert_eq!(clips.len(), 2);
    assert_eq!(clips[0].timeline_start_tick, 1_000);
    assert_eq!(clips[0].length_ticks, 1_920);
}

#[test]
fn empty_pattern_returns_no_clips() {
    let channels = vec![Channel::sampler("c1", "x")];
    let empty = Pattern {
        id: "p".into(),
        name: "".into(),
        length_steps: 0,
        steps_per_beat: 4,
        color_argb: 0,
        steps: Vec::new(),
    };
    assert!(empty.to_arrangement_clips(0, 480, &channels).is_empty());
}

#[test]
fn midi_routes_to_selected_channel_first() {
    let channels = vec![Channel::sampler("c1", "x"), Channel::sampler("c2", "y")];
    let route = resolve_midi_route(&channels, Some("c2"), 60).unwrap();
    assert_eq!(route.id, "c2");
}

#[test]
fn midi_routes_by_note_when_no_selection() {
    let mut c1 = Channel::sampler("c1", "x");
    c1.midi_note = 36;
    let mut c2 = Channel::sampler("c2", "y");
    c2.midi_note = 38;
    let channels = vec![c1, c2];
    assert_eq!(resolve_midi_route(&channels, None, 38).unwrap().id, "c2");
    assert_eq!(resolve_midi_route(&channels, None, 36).unwrap().id, "c1");
    assert!(resolve_midi_route(&channels, None, 40).is_none());
}

#[test]
fn midi_skips_muted_channels() {
    let mut c = Channel::sampler("c1", "x");
    c.midi_note = 60;
    c.muted = true;
    let channels = vec![c];
    assert!(resolve_midi_route(&channels, None, 60).is_none());
}

#[test]
fn global_write_mode_or_combines_with_per_track() {
    let off = GlobalWriteMode { enabled: false };
    let on = GlobalWriteMode { enabled: true };
    assert!(!off.combined(false));
    assert!(off.combined(true));
    assert!(on.combined(false));
    assert!(on.combined(true));
}

#[test]
fn a_pattern_places_each_triggered_channel_once_in_first_use_order() {
    let channels = vec![
        Channel::sampler("c1", "/x/kick.wav"),
        Channel::sampler("c2", "/x/snare.wav"),
    ];
    let pattern = Pattern {
        id: "p".into(),
        name: "P".into(),
        length_steps: 8,
        steps_per_beat: 2,
        color_argb: 0,
        steps: vec![
            PatternStep { channel_id: "c2".into(), step: 0, velocity: 90 },
            PatternStep { channel_id: "ghost".into(), step: 1, velocity: 90 },
            PatternStep { channel_id: "c1".into(), step: 2, velocity: 90 },
            PatternStep { channel_id: "c2".into(), step: 3, velocity: 90 },
        ],
    };
    let clips = pattern.to_arrangement_clips(10, 96, &channels);
    assert_eq!(clips.len(), 2);
    assert_eq!(clips[0].channel_id, "c2");
    assert_eq!(clips[1].channel_id, "c1");
    assert_eq!(clips[1].length_ticks, 384);
}

#[test]
fn a_selected_channel_that_is_missing_drops_the_event() {
    let mut c1 = Channel::sampler("c1", "x");
    c1.midi_note = 36;
    let channels = vec![c1];
    assert!(resolve_midi_route(&channels, Some("nope"), 36).is_none());
}

#[test]
fn a_sampler_without_an_extension_keeps_the_file_name() {
    let c = Channel::sampler("c9", "/samples/hat");
    assert_eq!(c.name, "hat");
}
