use hardwave::freeze::{FreezeRegistry, FreezeState};

/// A rendered stereo clip as the engine hands it over; the registry keeps
/// it without looking inside.
#[derive(Debug, PartialEq)]
struct FrozenRender {
    track_id: String,
    left: Vec<f32>,
    right: Vec<f32>,
}

fn mk_render(id: &str, n: usize) -> FrozenRender {
    FrozenRender { track_id: id.to_string(), left: vec![0.5; n], right: vec![0.5; n] }
}

#[test]
fn freeze_state_default_is_live() {
    let reg: FreezeRegistry<FrozenRender> = FreezeRegistry::new();
    assert_eq!(reg.state_of("track-1"), FreezeState::Live);
    assert!(!reg.is_frozen("track-1"));
    assert_eq!(FreezeState::default(), FreezeState::Live);
}

#[test]
fn begin_and_commit_cycle_transitions_states() {
    let mut reg = FreezeRegistry::new();
    reg.begin_freeze("t");
    assert!(reg.state_of("t").is_rendering());
    reg.update_progress("t", 50);
    assert_eq!(reg.state_of("t").progress(), Some(50));
    reg.commit_render("t", mk_render("t", 1_024));
    assert!(reg.is_frozen("t"));
    assert!(reg.render_for("t").is_some());
}

#[test]
fn unfreeze_preserves_render_cache() {
    let mut reg = FreezeRegistry::new();
    reg.begin_freeze("t");
    reg.commit_render("t", mk_render("t", 512));
    reg.unfreeze("t");
    assert_eq!(reg.state_of("t"), FreezeState::Live);
    assert!(reg.render_for("t").is_some());
}

#[test]
fn invalidate_drops_cached_render() {
    let mut reg = FreezeRegistry::new();
    reg.begin_freeze("t");
    reg.commit_render("t", mk_render("t", 256));
    reg.invalidate("t");
    assert!(reg.render_for("t").is_none());
    assert_eq!(reg.state_of("t"), FreezeState::Live);
}

#[test]
fn update_progress_clamps_to_100() {
    let mut reg: FreezeRegistry<FrozenRender> = FreezeRegistry::new();
    reg.begin_freeze("t");
    reg.update_progress("t", 240);
    assert_eq!(reg.state_of("t").progress(), Some(100));
}

#[test]
fn progress_on_a_track_that_is_not_rendering_is_ignored() {
    let mut reg: FreezeRegistry<FrozenRender> = FreezeRegistry::new();
    reg.update_progress("t", 40);
    assert_eq!(reg.state_of("t"), FreezeState::Live);
    assert_eq!(reg.state_of("t").progress(), None);
}

#[test]
fn tracks_freeze_independently_and_a_new_freeze_drops_the_old_render() {
    let mut reg = FreezeRegistry::new();
    reg.begin_freeze("a");
    reg.commit_render("a", mk_render("a", 8));
    reg.begin_freeze("b");
    assert!(reg.is_frozen("a"));
    assert!(reg.state_of("b").is_rendering());
    reg.begin_freeze("a");
    assert!(reg.render_for("a").is_none());
    reg.commit_render("a", mk_render("a", 4));
    assert_eq!(reg.render_for("a").unwrap().left.len(), 4);
    assert_eq!(reg.render_for("a").unwrap().track_id, "a");
    assert_eq!(reg.render_for("a").unwrap().right.len(), 4);
}
