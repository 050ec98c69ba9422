use hardwave::track::{kind_name, Track, TrackKind};
use hardwave::project::{
    add_audio_track, add_midi_track, remove_track, track, track_mut, insert_track_id, insert_track_name, new_project_metadata, pack_project, plugin_state,
    remove_plugin_state, set_plugin_state, temp_save_name, unpack_project, PluginStateEntry,
    ProjectFileError, DEFAULT_INSERT_COUNT,
};

#[test]
fn plugin_state_upsert_replaces_existing() {
    let mut states: Vec<PluginStateEntry> = Vec::new();
    set_plugin_state(&mut states, "p1", "vst3", vec![1, 2, 3]);
    assert_eq!(plugin_state(&states, "p1").unwrap().chunk, vec![1, 2, 3]);
    set_plugin_state(&mut states, "p1", "vst3", vec![9, 9]);
    assert_eq!(plugin_state(&states, "p1").unwrap().chunk, vec![9, 9]);
    assert_eq!(states.len(), 1);
}

#[test]
fn remove_plugin_state_returns_true_on_hit() {
    let mut states: Vec<PluginStateEntry> = Vec::new();
    set_plugin_state(&mut states, "p1", "vst3", vec![0]);
    assert!(remove_plugin_state(&mut states, "p1"));
    assert!(!remove_plugin_state(&mut states, "p1"));
    assert!(plugin_state(&states, "p1").is_none());
}

#[test]
fn plugin_states_of_two_instances_stay_apart() {
    let mut states: Vec<PluginStateEntry> = Vec::new();
    set_plugin_state(&mut states, "p1", "clap", vec![7, 8, 9]);
    set_plugin_state(&mut states, "p2", "vst3", vec![1]);
    assert_eq!(states.len(), 2);
    assert_eq!(plugin_state(&states, "p1").unwrap().format_hint, "clap");
    assert_eq!(plugin_state(&states, "p2").unwrap().chunk, vec![1]);
}

#[test]
fn a_packed_project_unpacks_to_the_same_bytes() {
    let encoded: Vec<u8> = (0..5_000u32).map(|i| (i % 251) as u8).collect();
    let file = pack_project(&encoded).expect("packs");
    assert_ne!(file, encoded, "the file is compressed");
    assert!(file.len() < encoded.len());
    assert_eq!(unpack_project(&file), Ok(encoded));
}

#[test]
fn bytes_that_are_not_a_project_file_are_refused() {
    assert_eq!(unpack_project(b"not a zstd frame"), Err(ProjectFileError::Decompress));
}

#[test]
fn a_new_project_is_untitled_at_48k() {
    let m = new_project_metadata("2026-01-02T03:04:05Z");
    assert_eq!(m.name, "Untitled");
    assert_eq!(m.sample_rate, 48_000);
    assert_eq!(m.created_at, "2026-01-02T03:04:05Z");
    assert_eq!(m.modified_at, m.created_at);
    assert!(!m.show_on_open);
}

#[test]
fn inserts_are_numbered_from_one_with_padded_ids() {
    assert_eq!(insert_track_id(1), "insert-001");
    assert_eq!(insert_track_id(42), "insert-042");
    assert_eq!(insert_track_id(DEFAULT_INSERT_COUNT), "insert-500");
    assert_eq!(insert_track_name(7), "Insert 7");
}

#[test]
fn an_atomic_save_writes_a_hidden_sibling_first() {
    assert_eq!(temp_save_name("song.hwp", 4242), ".song.hwp.tmp-4242");
}

#[test]
fn new_tracks_get_their_kind_colour_and_default_switches() {
    let a: Track<u8> = Track::new_audio("a".into(), "Drums".into(), 7);
    assert_eq!(a.kind, TrackKind::Audio);
    assert_eq!(a.color, "#7c3aed");
    assert!(a.monitor_input && !a.muted && !a.soloed && !a.armed);
    assert_eq!(a.output_bus, None);
    assert_eq!((a.delay_samples, a.pitch_semitones, a.body), (0, 0, 7));
    let m: Track<u8> = Track::new_midi("m".into(), "Keys".into(), 0);
    assert_eq!((m.kind, m.color.as_str()), (TrackKind::Midi, "#06b6d4"));
    let b: Track<u8> = Track::new_bus("b".into(), "Bus".into(), 0);
    assert_eq!((b.kind, b.color.as_str()), (TrackKind::Bus, "#22c55e"));
    let master: Track<u8> = Track::new_master("master".into(), 0);
    assert_eq!((master.kind, master.name.as_str(), master.color.as_str()), (TrackKind::Master, "Master", "#ef4444"));
}

#[test]
fn added_tracks_are_found_changed_and_removed_by_id() {
    let mut tracks: Vec<Track<u8>> = vec![Track::new_master("master".into(), 0)];
    let audio = add_audio_track(&mut tracks, "Vox".into(), 1);
    let midi = add_midi_track(&mut tracks, "Lead".into(), 2);
    assert_ne!(audio, midi);
    assert_eq!(tracks.len(), 3);
    assert_eq!(track(&tracks, &audio).map(|t| t.name.as_str()), Some("Vox"));
    assert_eq!(track(&tracks, &midi).map(|t| t.kind), Some(TrackKind::Midi));
    if let Some(t) = track_mut(&mut tracks, &audio) {
        t.muted = true;
    }
    assert!(track(&tracks, &audio).unwrap().muted);
    assert!(track_mut(&mut tracks, "nope").is_none());
    remove_track(&mut tracks, &audio);
    assert!(track(&tracks, &audio).is_none());
    assert_eq!(tracks.len(), 2);
    assert_eq!(tracks[0].id, "master");
    assert_eq!(tracks[1].id, midi);
}

#[test]
fn track_kinds_are_named_as_their_variants() {
    let names: Vec<String> =
        [TrackKind::Audio, TrackKind::Midi, TrackKind::Bus, TrackKind::Return, TrackKind::Master].into_iter().map(kind_name).collect();
    assert_eq!(names, ["Audio", "Midi", "Bus", "Return", "Master"]);
}
