use hardwave::tracks::{find_missing_plugins, reorder_track, set_exclusive_solo, InsertRef, TrackInserts, TrackSolo};

fn t(id: &str, is_master: bool, soloed: bool) -> TrackSolo {
    TrackSolo { id: id.into(), is_master, soloed }
}

fn soloed(tracks: &[TrackSolo]) -> Vec<bool> {
    tracks.iter().map(|t| t.soloed).collect()
}

fn ids(tracks: &[TrackSolo]) -> Vec<&str> {
    tracks.iter().map(|t| t.id.as_str()).collect()
}

#[test]
fn exclusive_solo_leaves_one_track_soloed_and_toggles_off() {
    let mut v = vec![t("master", true, true), t("a", false, true), t("b", false, false)];
    set_exclusive_solo(&mut v, "b");
    assert_eq!(soloed(&v), vec![true, false, true], "the master keeps its state");
    set_exclusive_solo(&mut v, "b");
    assert_eq!(soloed(&v), vec![true, false, false], "soloing the soloed track again turns it off");
    set_exclusive_solo(&mut v, "nope");
    assert_eq!(soloed(&v), vec![true, false, false]);
}

#[test]
fn reordering_keeps_the_master_last() {
    let mut v = vec![t("a", false, false), t("b", false, false), t("c", false, false), t("master", true, false)];
    reorder_track(&mut v, "a", 99);
    assert_eq!(ids(&v), vec!["b", "c", "a", "master"]);
    reorder_track(&mut v, "a", 0);
    assert_eq!(ids(&v), vec!["a", "b", "c", "master"]);
    reorder_track(&mut v, "master", 0);
    assert_eq!(ids(&v), vec!["a", "b", "c", "master"], "the master does not move");
    reorder_track(&mut v, "ghost", 0);
    assert_eq!(ids(&v), vec!["a", "b", "c", "master"]);
}

#[test]
fn missing_plugins_are_listed_by_track_and_slot() {
    let slot = |id: &str, plugin: &str| InsertRef { slot_id: id.into(), plugin_id: plugin.into() };
    let tracks = vec![
        TrackInserts { track_id: "t1".into(), track_name: "Lead".into(), inserts: vec![slot("s1", "serum"), slot("s2", "eq")] },
        TrackInserts { track_id: "t2".into(), track_name: "Pad".into(), inserts: vec![slot("s3", "omnisphere")] },
    ];
    let available = vec!["eq".to_string()];
    let missing = find_missing_plugins(&tracks, &available);
    assert_eq!(missing.len(), 2);
    assert_eq!(missing[0].plugin_id, "serum");
    assert_eq!(missing[0].slot_index, 0);
    assert_eq!(missing[1].track_name, "Pad");
    assert_eq!(missing[1].slot_id, "s3");
}
