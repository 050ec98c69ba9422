use hardwave::recording::{RecordingSession, RecordingState, StopReason, TransportEvent};

#[test]
fn arm_idle_moves_to_armed() {
    let mut s = RecordingSession::<f32>::new();
    assert_eq!(s.state(), RecordingState::Idle);
    s.arm_track("track-1", 0);
    assert_eq!(s.state(), RecordingState::Armed);
    assert!(s.is_armed());
}

#[test]
fn start_requires_armed_state() {
    let mut s = RecordingSession::<f32>::new();
    assert!(!s.start());
    s.arm_track("track-1", 0);
    assert!(s.start());
    assert_eq!(s.state(), RecordingState::Recording);
}

#[test]
fn push_samples_only_during_recording() {
    let mut s = RecordingSession::<f32>::new();
    s.arm_track("t", 0);
    s.push_samples(&[0.5; 100]);
    assert_eq!(s.takes()[0].samples.len(), 0);
    s.start();
    s.push_samples(&[0.5; 100]);
    assert_eq!(s.takes()[0].samples.len(), 100);
}

#[test]
fn stop_on_transport_commits_nonempty_takes() {
    let mut s = RecordingSession::<f32>::new();
    s.arm_track("a", 100);
    s.arm_track("b", 100);
    s.start();
    s.push_samples_for("a", &[0.1; 50]);
    let clips = s.stop(StopReason::TransportStop);
    assert_eq!(clips.len(), 1);
    assert_eq!(clips[0].track_id, "a");
    assert_eq!(clips[0].samples.len(), 50);
    assert_eq!(clips[0].playhead_tick, 100);
    assert_eq!(s.state(), RecordingState::Stopped);
}

#[test]
fn stop_canceled_throws_away_all_takes() {
    let mut s = RecordingSession::<f32>::new();
    s.arm_track("a", 0);
    s.start();
    s.push_samples(&[0.3; 200]);
    let clips = s.stop(StopReason::Canceled);
    assert_eq!(clips.len(), 0);
    assert!(s.takes().is_empty());
}

#[test]
fn transport_events_classify_stops() {
    assert!(TransportEvent::Stop.stops_recording());
    assert!(TransportEvent::Spacebar.stops_recording());
    assert!(!TransportEvent::Play.stops_recording());
    assert!(!TransportEvent::Seek.stops_recording());
}

#[test]
fn multi_track_push_is_per_track() {
    let mut s = RecordingSession::<f32>::new();
    s.arm_track("a", 0);
    s.arm_track("b", 0);
    s.start();
    s.push_samples_for("a", &[0.1; 100]);
    s.push_samples_for("b", &[0.2; 50]);
    assert_eq!(s.takes()[0].samples.len(), 100);
    assert_eq!(s.takes()[1].samples.len(), 50);
}

#[test]
fn arming_same_track_twice_is_idempotent() {
    let mut s = RecordingSession::<f32>::new();
    s.arm_track("a", 0);
    s.arm_track("a", 0);
    assert_eq!(s.takes().len(), 1);
}

#[test]
fn the_sample_count_follows_the_first_take_only() {
    let mut s = RecordingSession::<i16>::new();
    s.arm_track("a", 0);
    s.arm_track("b", 0);
    s.start();
    s.push_samples(&[1, 2, 3]);
    assert_eq!(s.samples_recorded(), 3);
    assert_eq!(s.takes()[0].samples, vec![1, 2, 3]);
    assert!(s.takes()[1].samples.is_empty());
    assert_eq!(s.armed_track_ids(), vec!["a".to_string(), "b".to_string()]);
}

#[test]
fn a_stopped_session_ignores_samples() {
    let mut s = RecordingSession::<f32>::new();
    s.arm_track("a", 0);
    s.start();
    s.push_samples(&[0.5; 4]);
    let clips = s.stop(StopReason::TransportStop);
    assert_eq!(clips.len(), 1);
    s.push_samples(&[0.5; 4]);
    assert!(s.takes().is_empty());
}
