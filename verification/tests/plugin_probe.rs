use hardwave::plugin_probe::{
    classify, probe_key, result_from_code, supervise_step, ChildPoll, ChildResult, ProbeCache,
    ProbeOutcome, SuperviseStep,
};

#[test]
fn a_clean_exit_is_the_only_thing_that_counts_as_loading() {
    assert_eq!(classify(ChildResult::ExitedOk), ProbeOutcome::Loaded);
    assert!(classify(ChildResult::ExitedOk).is_safe_to_load());
    assert!(!classify(ChildResult::ExitedWithCode(3)).is_safe_to_load());
}

#[test]
fn a_killed_loader_blocks_the_plugin_and_says_why() {
    let outcome = classify(ChildResult::KilledBySignal);
    assert!(!outcome.is_safe_to_load());
    let msg = outcome.message("Serum").expect("must explain itself");
    assert!(msg.contains("Serum"), "the user needs to know which one");
    assert!(msg.contains("crashed"), "{msg}");
}

#[test]
fn a_hanging_loader_is_stopped_rather_than_waited_on_forever() {
    let outcome = classify(ChildResult::StillRunning);
    assert_eq!(outcome, ProbeOutcome::TimedOut);
    assert!(!outcome.is_safe_to_load());
    let msg = outcome.message("Kontakt").unwrap();
    assert!(msg.contains("licence"), "the usual cause is worth naming");
}

#[test]
fn a_broken_probe_lets_plugins_through_rather_than_blocking_everything() {
    let outcome = ProbeOutcome::ProbeUnavailable { detail: "no such executable".into() };
    assert!(outcome.is_safe_to_load());
    assert_eq!(outcome.message("Serum"), None, "nothing to tell the user");
}

#[test]
fn the_cache_forgets_a_plugin_that_changed_on_disk() {
    let mut cache = ProbeCache::new();
    let v1 = probe_key("/p/thing.vst3", 2, 1_700_000_000);
    cache.remember(&v1, ProbeOutcome::Loaded);
    assert_eq!(cache.get(&v1), Some(&ProbeOutcome::Loaded));
    let v2 = probe_key("/p/thing.vst3", 25, 1_700_000_100);
    assert_eq!(cache.get(&v2), None, "a changed plug-in is probed again");
}

#[test]
fn forgetting_lets_a_blocked_plugin_be_tried_again() {
    let mut cache = ProbeCache::new();
    let key = probe_key("/p/thing.vst3", 1, 5);
    cache.remember(&key, ProbeOutcome::Crashed { detail: "test".into() });
    assert!(cache.get(&key).is_some());
    cache.forget(&key);
    assert!(cache.get(&key).is_none(), "reinstalling must get a retry");
}

#[test]
fn a_process_killed_by_a_signal_is_reported_as_a_crash() {
    match supervise_step(ChildPoll::Exited(None), false) {
        SuperviseStep::Finish(outcome) => {
            assert!(!outcome.is_safe_to_load(), "got {outcome:?}");
            assert!(matches!(outcome, ProbeOutcome::Crashed { .. }), "got {outcome:?}");
        }
        _ => panic!("an ended loader finishes the probe"),
    }
}

#[test]
fn a_child_that_hangs_is_killed_at_the_deadline() {
    assert!(matches!(supervise_step(ChildPoll::Running, false), SuperviseStep::Wait));
    match supervise_step(ChildPoll::Running, true) {
        SuperviseStep::KillThenFinish(outcome) => assert_eq!(outcome, ProbeOutcome::TimedOut),
        _ => panic!("past the deadline the loader is killed"),
    }
}

#[test]
fn a_clean_child_is_allowed() {
    match supervise_step(ChildPoll::Exited(Some(0)), true) {
        SuperviseStep::Finish(outcome) => assert_eq!(outcome, ProbeOutcome::Loaded),
        _ => panic!("an ended loader finishes the probe"),
    }
}

#[test]
fn a_lost_child_makes_the_probe_unavailable() {
    match supervise_step(ChildPoll::Lost("wait failed".into()), false) {
        SuperviseStep::Finish(outcome) => assert!(outcome.is_safe_to_load()),
        _ => panic!("a lost loader finishes the probe"),
    }
}

#[test]
fn exit_codes_map_to_child_results() {
    assert!(matches!(result_from_code(Some(0)), ChildResult::ExitedOk));
    assert!(matches!(result_from_code(Some(7)), ChildResult::ExitedWithCode(7)));
    assert!(matches!(result_from_code(None), ChildResult::KilledBySignal));
}

#[test]
fn a_later_verdict_replaces_the_earlier_one() {
    let mut cache = ProbeCache::new();
    cache.remember("k", ProbeOutcome::TimedOut);
    cache.remember("k", ProbeOutcome::Loaded);
    assert_eq!(cache.get("k"), Some(&ProbeOutcome::Loaded));
    assert_eq!(probe_key("/a", 1, 2), "/a|1|2");
}
