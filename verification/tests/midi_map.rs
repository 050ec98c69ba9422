use hardwave::midi_map::{next_id_after, same_target, MidiMapTarget, MidiMappings};

fn vol(id: &str) -> MidiMapTarget {
    MidiMapTarget::TrackVolume { track_id: id.into() }
}

#[test]
fn adding_the_same_binding_twice_keeps_one() {
    let mut m = MidiMappings::new();
    m.add(7, Some(0), vol("t1"), 1);
    m.add(7, Some(0), vol("t1"), 2);
    assert_eq!(m.mappings.len(), 1);
    assert_eq!(m.mappings[0].id, 2);
    m.add(7, Some(1), vol("t1"), 3);
    assert_eq!(m.mappings.len(), 2);
}

#[test]
fn a_controller_drives_bindings_on_its_channel_or_on_any() {
    let mut m = MidiMappings::new();
    m.add(7, Some(0), vol("t1"), 1);
    m.add(7, None, MidiMapTarget::MasterVolume, 2);
    m.add(8, Some(0), vol("t2"), 3);
    let on0 = m.applicable_targets(7, 0);
    assert_eq!(on0.len(), 2);
    assert!(same_target(&on0[0], &vol("t1")));
    assert!(same_target(&on0[1], &MidiMapTarget::MasterVolume));
    let on5 = m.applicable_targets(7, 5);
    assert_eq!(on5.len(), 1);
}

#[test]
fn learning_binds_the_next_controller_moved() {
    let mut m = MidiMappings::new();
    assert!(m.capture_learned(10, 1).is_none());
    m.learn = Some(MidiMapTarget::TrackPan { track_id: "t3".into() });
    let learned = m.capture_learned(10, 5).expect("learned");
    assert_eq!(learned.cc, 10);
    assert_eq!(learned.channel, None);
    assert!(m.learn.is_none());
    assert_eq!(m.last_learned.as_ref().unwrap().id, 5);
    assert_eq!(m.mappings.len(), 1);
}

#[test]
fn removing_by_id_and_clearing() {
    let mut m = MidiMappings::new();
    m.add(1, None, vol("a"), 1);
    m.add(2, None, vol("b"), 2);
    assert!(m.remove(1));
    assert!(!m.remove(1));
    assert_eq!(m.mappings.len(), 1);
    assert_eq!(next_id_after(&m.mappings), 3);
    m.clear();
    assert!(m.mappings.is_empty());
    assert_eq!(next_id_after(&m.mappings), 1);
}

#[test]
fn targets_compare_by_kind_and_track() {
    assert!(same_target(&vol("a"), &vol("a")));
    assert!(!same_target(&vol("a"), &vol("b")));
    assert!(!same_target(&vol("a"), &MidiMapTarget::TrackMute { track_id: "a".into() }));
}
