use hardwave::automation::{
    lane_span, LaneSpan, automation_targets_match, color_for_target, curve_sample_ticks, insert_point, layered_winner,
    mode_name, move_point, parse_mode, preview_local_tick, remove_point, replace_range,
    sort_by_tick, target_key, timeline_tick_to_clip, AutomationRecorder, AutomationTarget, CurveMode,
    WriteMode,
};

fn clamp01(v: f64) -> f64 {
    v.clamp(0.0, 1.0)
}

#[test]
fn two_parameters_of_one_plugin_are_separate_sessions() {
    let a = AutomationTarget::PluginParam { slot_id: "s1".into(), param_id: 7 };
    let b = AutomationTarget::PluginParam { slot_id: "s1".into(), param_id: 8 };
    assert_ne!(target_key(&a), target_key(&b));
    assert!(automation_targets_match(&a, &a.clone()));
    assert!(!automation_targets_match(&a, &b));
}

#[test]
fn a_recorded_pass_replaces_what_it_covered() {
    let point = |tick: u64, value: f64| (tick, (value, CurveMode::Linear));
    let mut existing = vec![point(0, 0.1), point(500, 0.2), point(1_500, 0.3)];
    replace_range(&mut existing, vec![point(400, 0.9), point(1_000, 0.8)]);
    let ticks: Vec<u64> = existing.iter().map(|p| p.0).collect();
    assert_eq!(ticks, vec![0, 400, 1_000, 1_500], "the covered point stayed");
}

#[test]
fn a_pass_that_covers_nothing_keeps_every_point() {
    let point = |tick: u64| (tick, (0.5f64, CurveMode::Linear));
    let mut existing = vec![point(0), point(100)];
    replace_range(&mut existing, Vec::new());
    assert_eq!(existing.len(), 2);
}

#[test]
fn modes_parse_from_what_the_ui_sends() {
    assert_eq!(parse_mode("write"), WriteMode::Write);
    assert_eq!(parse_mode("touch"), WriteMode::Touch);
    assert_eq!(parse_mode("latch"), WriteMode::Latch);
    assert_eq!(parse_mode("read"), WriteMode::Read);
    assert_eq!(parse_mode("off"), WriteMode::Off);
    assert_eq!(parse_mode("nonsense"), WriteMode::Off);
}

#[test]
fn mode_names_parse_back_to_their_mode() {
    for m in [WriteMode::Off, WriteMode::Read, WriteMode::Write, WriteMode::Touch, WriteMode::Latch] {
        assert_eq!(parse_mode(&mode_name(m)), m);
    }
}

#[test]
fn a_pass_covers_from_its_first_point_to_its_last() {
    let mut existing = vec![(0u64, 'a'), (300, 'b'), (900, 'c')];
    replace_range(&mut existing, vec![(200, 'x'), (600, 'y')]);
    assert_eq!(existing, vec![(0, 'a'), (200, 'x'), (600, 'y'), (900, 'c')]);
    let mut kept = vec![(0u64, 'a'), (300, 'b'), (900, 'c')];
    replace_range(&mut kept, vec![(600, 'y'), (200, 'x')]);
    assert_eq!(kept, vec![(0, 'a'), (200, 'x'), (300, 'b'), (600, 'y'), (900, 'c')], "a pass given back to front covers nothing");
}

#[test]
fn sorting_by_tick_keeps_equal_ticks_in_order() {
    let out = sort_by_tick(vec![(5u64, 'a'), (1, 'b'), (5, 'c'), (0, 'd')]);
    assert_eq!(out, vec![(0, 'd'), (1, 'b'), (5, 'a'), (5, 'c')]);
}

fn mk_clip_points() -> (u64, u64, Vec<(u64, (f64, CurveMode))>) {
    (100, 400, Vec::new())
}

#[test]
fn insert_point_is_clamped_and_sorted() {
    let (_start, len, mut pts) = mk_clip_points();
    insert_point(&mut pts, len, 200, (clamp01(0.5), CurveMode::Linear));
    insert_point(&mut pts, len, 100, (clamp01(0.2), CurveMode::Linear));
    insert_point(&mut pts, len, 1_000, (clamp01(1.5), CurveMode::Linear));
    let ticks: Vec<u64> = pts.iter().map(|p| p.0).collect();
    let values: Vec<f64> = pts.iter().map(|p| p.1 .0).collect();
    assert_eq!(ticks, vec![100, 200, 400]);
    assert_eq!(values, vec![0.2, 0.5, 1.0]);
}

#[test]
fn insert_point_overwrites_duplicate_tick() {
    let (_start, len, mut pts) = mk_clip_points();
    insert_point(&mut pts, len, 100, (0.2, CurveMode::Linear));
    insert_point(&mut pts, len, 100, (0.8, CurveMode::Linear));
    assert_eq!(pts.len(), 1);
    assert!((pts[0].1 .0 - 0.8).abs() < 1e-9);
}

#[test]
fn move_point_resorts_and_clamps() {
    let (_start, len, mut pts) = mk_clip_points();
    insert_point(&mut pts, len, 50, (0.1, CurveMode::Linear));
    insert_point(&mut pts, len, 150, (0.9, CurveMode::Linear));
    assert!(move_point(&mut pts, len, 0, 500, (clamp01(2.0), CurveMode::Linear)));
    let ticks: Vec<u64> = pts.iter().map(|p| p.0).collect();
    assert_eq!(ticks, vec![150, 400]);
    assert!((pts[1].1 .0 - 1.0).abs() < 1e-9);
}

#[test]
fn remove_point_and_bounds() {
    let (_start, len, mut pts) = mk_clip_points();
    insert_point(&mut pts, len, 50, (0.1, CurveMode::Linear));
    insert_point(&mut pts, len, 150, (0.9, CurveMode::Linear));
    assert!(remove_point(&mut pts, 0).is_some());
    assert!(remove_point(&mut pts, 10).is_none());
    assert_eq!(pts.len(), 1);
}

#[test]
fn timeline_to_clip_outside_window_is_none() {
    assert!(timeline_tick_to_clip(100, 400, 50).is_none());
    assert!(timeline_tick_to_clip(100, 400, 500).is_none());
    assert_eq!(timeline_tick_to_clip(100, 400, 200), Some(100));
    assert_eq!(timeline_tick_to_clip(100, 400, 499), Some(399));
}

#[test]
fn a_preview_holds_the_clip_edges() {
    assert_eq!(preview_local_tick(100, 400, 50), 0);
    assert_eq!(preview_local_tick(100, 400, 300), 200);
    assert_eq!(preview_local_tick(100, 400, 5_000), 400);
}

#[test]
fn render_curve_returns_n_samples_across_clip() {
    let ticks = curve_sample_ticks(400, 5);
    assert_eq!(ticks.len(), 5);
    assert_eq!(ticks[0], 0);
    assert!(ticks[4] < 400);
    assert!(curve_sample_ticks(400, 0).is_empty());
    assert!(curve_sample_ticks(0, 5).is_empty());
}

#[test]
fn layered_clips_resolve_by_latest_start() {
    let windows = [(0u64, 1_000u64), (200, 500)];
    assert_eq!(layered_winner(&windows, 100), Some(0));
    assert_eq!(layered_winner(&windows, 400), Some(1));
    assert_eq!(layered_winner(&windows, 2_000), None);
}

#[test]
fn clip_color_is_stable_and_distinct() {
    let c1 = color_for_target(&AutomationTarget::TrackVolume);
    let c2 = color_for_target(&AutomationTarget::TrackVolume);
    assert_eq!(c1, c2);
    let c3 = color_for_target(&AutomationTarget::TrackPan);
    assert_ne!(c1, c3);
    assert_eq!(c1 >> 24, 0xFF);
}

#[test]
fn target_keys_name_the_parameter() {
    assert_eq!(target_key(&AutomationTarget::TrackVolume), "volume");
    assert_eq!(target_key(&AutomationTarget::SendLevel { send_index: 2 }), "send:2");
    assert_eq!(
        target_key(&AutomationTarget::PluginParam { slot_id: "s1".into(), param_id: 7 }),
        "param:s1:7"
    );
}

fn recorder(mode: WriteMode) -> AutomationRecorder<f64> {
    let mut rec = AutomationRecorder::new();
    rec.gate.set_mode(mode);
    rec
}

#[test]
fn off_mode_never_records() {
    let mut rec = recorder(WriteMode::Off);
    rec.gate.on_transport_play();
    for tick in 0..100u64 {
        rec.push_sample(tick * 100, (tick as f64) * 0.01);
    }
    assert_eq!(rec.sample_count(), 0);
}

#[test]
fn write_mode_captures_during_playback() {
    let mut rec = recorder(WriteMode::Write);
    rec.gate.on_transport_play();
    assert!(rec.gate.is_recording());
    for tick in 0..100u64 {
        rec.push_sample(tick * 100, (tick as f64) * 0.01);
    }
    assert_eq!(rec.sample_count(), 100);
}

#[test]
fn touch_mode_requires_active_touch() {
    let mut rec = recorder(WriteMode::Touch);
    rec.gate.on_transport_play();
    rec.push_sample(0, 0.5);
    assert_eq!(rec.sample_count(), 0);
    rec.gate.begin_touch();
    rec.push_sample(100, 0.6);
    rec.push_sample(200, 0.7);
    assert_eq!(rec.sample_count(), 2);
    rec.gate.end_touch();
    rec.push_sample(300, 0.8);
    assert_eq!(rec.sample_count(), 2);
}

#[test]
fn latch_mode_records_from_first_touch_until_stop() {
    let mut rec = recorder(WriteMode::Latch);
    rec.gate.on_transport_play();
    rec.push_sample(0, 0.5);
    assert_eq!(rec.sample_count(), 0);
    rec.gate.begin_touch();
    rec.push_sample(100, 0.6);
    rec.gate.end_touch();
    rec.push_sample(200, 0.7);
    assert_eq!(rec.sample_count(), 2);
    rec.gate.on_transport_stop();
    rec.push_sample(300, 0.8);
    assert_eq!(rec.sample_count(), 2);
    let ticks: Vec<u64> = rec.samples.iter().map(|s| s.0).collect();
    assert_eq!(ticks, [100, 200]);
}

#[test]
fn latch_touch_with_the_transport_stopped_records_nothing() {
    let mut rec = recorder(WriteMode::Latch);
    rec.gate.begin_touch();
    rec.push_sample(100, 0.6);
    assert!(!rec.gate.is_recording());
    assert_eq!(rec.sample_count(), 0);
}

#[test]
fn read_mode_ignores_a_touch() {
    let mut rec = recorder(WriteMode::Read);
    rec.gate.on_transport_play();
    rec.gate.begin_touch();
    rec.push_sample(0, 0.5);
    assert!(!rec.gate.is_recording());
    assert_eq!(rec.sample_count(), 0);
}

#[test]
fn transport_stop_halts_recording() {
    let mut rec = recorder(WriteMode::Write);
    rec.gate.on_transport_play();
    rec.push_sample(0, 0.5);
    rec.gate.on_transport_stop();
    rec.push_sample(100, 0.8);
    assert_eq!(rec.sample_count(), 1);
}

#[test]
fn clear_resets_samples() {
    let mut rec = recorder(WriteMode::Write);
    rec.gate.on_transport_play();
    rec.push_sample(0, 0.5);
    rec.push_sample(100, 0.8);
    assert_eq!(rec.sample_count(), 2);
    rec.clear();
    assert_eq!(rec.sample_count(), 0);
}

#[test]
fn lane_span_finds_the_points_around_a_tick() {
    let empty: Vec<(u64, u8)> = Vec::new();
    assert_eq!(lane_span(&empty, 10), LaneSpan::Empty);
    let lane: Vec<(u64, u8)> = vec![(0, 0), (100, 1), (200, 2)];
    assert_eq!(lane_span(&lane, 0), LaneSpan::First);
    assert_eq!(lane_span(&lane, 50), LaneSpan::Between(0));
    assert_eq!(lane_span(&lane, 100), LaneSpan::Between(1));
    assert_eq!(lane_span(&lane, 150), LaneSpan::Between(1));
    assert_eq!(lane_span(&lane, 200), LaneSpan::Last);
    assert_eq!(lane_span(&lane, 999), LaneSpan::Last);
    let late_start: Vec<(u64, u8)> = vec![(40, 0), (80, 1)];
    assert_eq!(lane_span(&late_start, 10), LaneSpan::First);
}
