use hardwave::sends::{send_path_exists, validate_new_send, validate_send_target, SendTarget, TrackSends};

fn track(id: &str, sends: &[(&str, bool)]) -> TrackSends {
    TrackSends {
        id: id.into(),
        sends: sends.iter().map(|(t, e)| SendTarget { target: t.to_string(), enabled: *e }).collect(),
    }
}

fn graph() -> Vec<TrackSends> {
    vec![
        track("drums", &[("bus", true)]),
        track("bus", &[("reverb", true), ("delay", false)]),
        track("reverb", &[]),
        track("delay", &[("drums", true)]),
    ]
}

#[test]
fn signal_follows_enabled_sends_only() {
    let g = graph();
    assert!(send_path_exists(&g, "drums", "reverb"));
    assert!(!send_path_exists(&g, "drums", "delay"), "a disabled send carries nothing");
    assert!(send_path_exists(&g, "delay", "reverb"));
    assert!(send_path_exists(&g, "reverb", "reverb"));
    assert!(!send_path_exists(&g, "reverb", "drums"));
}

#[test]
fn a_send_that_would_close_a_cycle_is_refused() {
    let g = graph();
    assert_eq!(validate_new_send(&g, "delay", "reverb"), Ok(()), "reverb feeds nothing back");
    assert_eq!(
        validate_new_send(&g, "reverb", "delay"),
        Err("Refusing to create a send cycle".to_string()),
        "delay reaches reverb through drums and bus"
    );
    assert_eq!(validate_new_send(&g, "bus", "drums"), Err("Refusing to create a send cycle".to_string()));
    assert_eq!(validate_new_send(&g, "bus", "bus"), Err("A track cannot send to itself".to_string()));
    assert_eq!(validate_new_send(&g, "ghost", "bus"), Err("Source track not found: ghost".to_string()));
    assert_eq!(validate_new_send(&g, "bus", "ghost"), Err("Target track not found: ghost".to_string()));
}

#[test]
fn retargeting_a_send_checks_the_same_rules() {
    let g = graph();
    assert_eq!(validate_send_target(&g, "bus", "drums"), Err("Refusing to create a send cycle".to_string()));
    assert_eq!(validate_send_target(&g, "bus", "nowhere"), Err("Target track not found: nowhere".to_string()));
    assert_eq!(validate_send_target(&g, "drums", "reverb"), Ok(()));
}
