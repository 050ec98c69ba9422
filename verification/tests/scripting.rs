use hardwave::scripting::{
    macro_to_lua, MacroRecorder, MacroStep, MidiMapping, MidiMappingTable, MidiMappingTarget, Script, ScriptKind,
    ScriptLibrary,
};

#[test]
fn script_library_add_is_idempotent() {
    let mut lib = ScriptLibrary::new();
    assert!(lib.add(Script::new("s1", "Hello", "print('hi')")));
    assert!(!lib.add(Script::new("s1", "Duplicate", "")));
    assert_eq!(lib.scripts.len(), 1);
}

#[test]
fn shortcut_binding_is_exclusive() {
    let mut lib = ScriptLibrary::new();
    lib.add(Script::new("a", "A", ""));
    lib.add(Script::new("b", "B", ""));
    assert!(lib.bind_shortcut("a", "ctrl+shift+1"));
    assert_eq!(lib.by_shortcut("ctrl+shift+1").map(|s| s.id.as_str()), Some("a"));
    assert!(lib.bind_shortcut("b", "ctrl+shift+1"));
    assert_eq!(lib.by_shortcut("ctrl+shift+1").map(|s| s.id.as_str()), Some("b"));
    assert!(lib.scripts.iter().find(|s| s.id == "a").unwrap().keyboard_shortcut.is_none());
}

#[test]
fn macro_recorder_only_appends_while_recording() {
    let mut rec = MacroRecorder::new();
    rec.observe(MacroStep::TransportPlay);
    assert!(rec.recorded().is_empty());
    rec.start();
    rec.observe(MacroStep::TransportPlay);
    rec.observe(MacroStep::TransportStop);
    assert_eq!(rec.recorded().len(), 2);
    let recorded = rec.stop();
    assert_eq!(recorded.len(), 2);
    assert!(!rec.is_recording());
    rec.start();
    assert!(rec.recorded().is_empty());
}

#[test]
fn macro_to_lua_emits_every_command_variant() {
    let commands = vec![
        MacroStep::TransportPlay,
        MacroStep::TransportSeek { tick: 480 },
        MacroStep::SetTrackVolume { track_id: "t1".into(), db_text: format!("{}", -6.0f32) },
        MacroStep::InsertNote { clip_id: "c1".into(), tick: 0, pitch: 60, velocity: 100, length_ticks: 480 },
    ];
    let lua = macro_to_lua(&commands);
    assert!(lua.contains("transport.play()"));
    assert!(lua.contains("transport.seek(480)"));
    assert!(lua.contains("track.set_volume(\"t1\", -6)"));
    assert!(lua.contains("notes.insert(\"c1\", 0, 60, 100, 480)"));
}

#[test]
fn binding_an_unknown_script_fails_and_removing_frees_its_chord() {
    let mut lib = ScriptLibrary::new();
    lib.add(Script::new("a", "A", ""));
    assert!(!lib.bind_shortcut("zzz", "ctrl+1"));
    assert!(lib.by_shortcut("ctrl+1").is_none());
    assert!(lib.bind_shortcut("a", "ctrl+1"));
    assert!(lib.remove("a"));
    assert!(!lib.remove("a"));
    assert!(lib.by_shortcut("ctrl+1").is_none());
}

#[test]
fn a_new_script_is_user_authored_and_unbound() {
    let s = Script::new("x", "X", "return 1");
    assert_eq!(s.kind, ScriptKind::UserAuthored);
    assert!(s.keyboard_shortcut.is_none());
    assert_eq!(s.body, "return 1");
}

#[test]
fn macro_to_lua_writes_a_header_then_one_line_per_step() {
    let lua = macro_to_lua(&[
        MacroStep::TransportStop,
        MacroStep::SetTrackMuted { track_id: "t2".into(), muted: true },
        MacroStep::DeleteClip { clip_id: "c9".into() },
    ]);
    assert_eq!(
        lua,
        "-- Generated macro\ntransport.stop()\ntrack.set_muted(\"t2\", true)\nclip.delete(\"c9\")\n"
    );
    assert_eq!(macro_to_lua(&[]), "-- Generated macro\n");
}

#[test]
fn midi_mapping_table_resolves_by_cc_and_channel() {
    let mut table: MidiMappingTable<(f32, f32)> = MidiMappingTable { mappings: Vec::new() };
    table.mappings.push(MidiMapping {
        cc_number: 74,
        cc_channel: 0,
        target: MidiMappingTarget::TransportToggle,
        scale: (0.0, 1.0),
    });
    assert!(table.resolve(74, 0).is_some());
    assert!(table.resolve(75, 0).is_none());
    assert!(table.resolve(74, 1).is_none());
}
