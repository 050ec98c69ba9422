use hardwave::sidechain::{SidechainRoute, SidechainRoutingTable};

#[test]
fn connect_new_edge_returns_true() {
    let mut t = SidechainRoutingTable::new();
    assert!(t.connect("kick", "comp-1", 0, -6));
    assert_eq!(t.all().len(), 1);
}

#[test]
fn connect_duplicate_edge_updates_level() {
    let mut t = SidechainRoutingTable::new();
    t.connect("kick", "comp-1", 0, -6);
    assert!(!t.connect("kick", "comp-1", 0, 0));
    assert_eq!(t.all()[0].send_level_db, 0);
}

#[test]
fn disconnect_removes_specific_edge() {
    let mut t = SidechainRoutingTable::new();
    t.connect("kick", "comp-1", 0, -6);
    t.connect("kick", "comp-2", 0, -6);
    assert!(t.disconnect("kick", "comp-1", 0));
    assert_eq!(t.all().len(), 1);
    assert_eq!(t.all()[0].target_plugin_id, "comp-2");
}

#[test]
fn clear_target_removes_all_edges_feeding_plugin() {
    let mut t = SidechainRoutingTable::new();
    t.connect("kick", "comp", 0, 0);
    t.connect("bass", "comp", 1, 0);
    t.connect("other", "otherplugin", 0, 0);
    t.clear_target("comp");
    assert_eq!(t.all().len(), 1);
}

#[test]
fn routes_to_iterates_only_matching() {
    let mut t = SidechainRoutingTable::new();
    t.connect("kick", "comp", 0, -3);
    t.connect("bass", "comp", 1, -3);
    t.connect("kick", "otherplugin", 0, 0);
    let hits: Vec<SidechainRoute> = t.routes_to("comp");
    assert_eq!(hits.len(), 2);
}

#[test]
fn the_same_pair_on_another_input_is_a_separate_edge() {
    let mut t = SidechainRoutingTable::new();
    assert!(t.connect("kick", "comp", 0, -3));
    assert!(t.connect("kick", "comp", 1, -3));
    assert_eq!(t.all().len(), 2);
    assert!(!t.disconnect("kick", "comp", 2));
}

#[test]
fn clear_source_and_routes_from_follow_the_source_track() {
    let mut t = SidechainRoutingTable::new();
    t.connect("kick", "a", 0, 0);
    t.connect("kick", "b", 0, 0);
    t.connect("snare", "a", 0, 0);
    assert_eq!(t.routes_from("kick").len(), 2);
    t.clear_source("kick");
    assert_eq!(t.all().len(), 1);
    assert_eq!(t.all()[0].source_track_id, "snare");
    assert!(t.routes_from("kick").is_empty());
}
