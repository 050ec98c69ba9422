use hardwave::arrangement::{snapshot_live, ArrangementSet, LiveTrack};

/// A track's timeline as the arrangement tests fill it: clip lengths.
type Clips = Vec<u64>;

fn tracks() -> Vec<LiveTrack<Clips>> {
    (0..3).map(|i| LiveTrack { id: format!("insert-{i:03}"), timeline: None }).collect()
}

#[test]
fn first_use_creates_default_arrangement() {
    let mut p: ArrangementSet<Clips> = ArrangementSet::new();
    let live = tracks();
    assert!(p.arrangements.is_empty());
    p.ensure_arrangements(&live);
    assert_eq!(p.arrangements.len(), 1);
    assert_eq!(p.arrangements[0].name, "Arrangement 1");
    assert_eq!(p.active_arrangement, p.arrangements[0].id);
}

#[test]
fn switching_swaps_timeline_and_preserves_both() {
    let mut p: ArrangementSet<Clips> = ArrangementSet::new();
    let mut live = tracks();
    live[1].timeline = Some(vec![960]);
    p.ensure_arrangements(&live);
    let arr2 = p.create_arrangement(&mut live, "Arrangement 2", false);
    assert!(live[1].timeline.is_none(), "new empty arrangement clears timeline");
    live[1].timeline = Some(vec![480, 480]);
    let arr1 = p.arrangements.iter().find(|a| a.id != arr2).unwrap().id.clone();
    p.capture_active_arrangement(&live);
    p.apply_arrangement(&mut live, &arr1).unwrap();
    assert_eq!(live[1].timeline.as_ref().unwrap().len(), 1);
    assert_eq!(live[1].timeline.as_ref().unwrap()[0], 960);
    p.capture_active_arrangement(&live);
    p.apply_arrangement(&mut live, &arr2).unwrap();
    assert_eq!(live[1].timeline.as_ref().unwrap().len(), 2);
}

#[test]
fn cannot_delete_last_arrangement() {
    let mut p: ArrangementSet<Clips> = ArrangementSet::new();
    let mut live = tracks();
    p.ensure_arrangements(&live);
    let id = p.arrangements[0].id.clone();
    assert_eq!(p.delete_arrangement(&mut live, &id), Err("Cannot delete the only arrangement".to_string()));
}

#[test]
fn delete_active_switches_to_remaining() {
    let mut p: ArrangementSet<Clips> = ArrangementSet::new();
    let mut live = tracks();
    p.ensure_arrangements(&live);
    let arr1 = p.arrangements[0].id.clone();
    let arr2 = p.create_arrangement(&mut live, "Two", false);
    assert_eq!(p.active_arrangement, arr2);
    p.delete_arrangement(&mut live, &arr2).unwrap();
    assert_eq!(p.active_arrangement, arr1);
    assert_eq!(p.arrangements.len(), 1);
}

#[test]
fn a_duplicated_arrangement_starts_with_the_live_timelines() {
    let mut p: ArrangementSet<Clips> = ArrangementSet::new();
    let mut live = tracks();
    live[2].timeline = Some(vec![1, 2, 3]);
    let copy = p.create_arrangement(&mut live, "Copy", true);
    assert_eq!(p.arrangements.len(), 2);
    assert_eq!(p.active_arrangement, copy);
    assert_eq!(live[2].timeline, Some(vec![1, 2, 3]));
    let stored = &p.arrangements[1].timelines;
    assert_eq!(stored.len(), 1, "empty tracks are not stored");
    assert_eq!(stored[0].0, "insert-002");
}

#[test]
fn unknown_arrangements_are_refused() {
    let mut p: ArrangementSet<Clips> = ArrangementSet::new();
    let mut live = tracks();
    live[0].timeline = Some(vec![7]);
    assert_eq!(p.apply_arrangement(&mut live, "nope"), Err("Arrangement not found: nope".to_string()));
    assert_eq!(live[0].timeline, Some(vec![7]), "tracks untouched");
    assert_eq!(p.rename_arrangement("nope", "x"), Err("Arrangement not found: nope".to_string()));
    p.create_arrangement(&mut live, "B", false);
    assert_eq!(p.delete_arrangement(&mut live, "nope"), Err("Arrangement not found: nope".to_string()));
    let first = p.arrangements[0].id.clone();
    assert_eq!(p.rename_arrangement(&first, "Verse"), Ok(()));
    assert_eq!(p.arrangements[0].name, "Verse");
}

#[test]
fn a_dangling_active_id_falls_back_to_the_first() {
    let mut p: ArrangementSet<Clips> = ArrangementSet::new();
    let live = tracks();
    p.ensure_arrangements(&live);
    p.active_arrangement = "gone".into();
    p.ensure_arrangements(&live);
    assert_eq!(p.active_arrangement, p.arrangements[0].id);
}

#[test]
fn a_snapshot_keeps_the_last_timeline_of_a_repeated_id() {
    let live = vec![
        LiveTrack { id: "a".to_string(), timeline: Some(vec![1u64]) },
        LiveTrack { id: "b".to_string(), timeline: None },
        LiveTrack { id: "a".to_string(), timeline: Some(vec![2u64]) },
    ];
    let s = snapshot_live(&live);
    assert_eq!(s, vec![("a".to_string(), vec![2u64])]);
}
