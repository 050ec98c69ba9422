use hardwave::timecode::{
    frames_to_smpte, quarter_frame_data, smpte_type_bits, QuarterFrameCycle, SmpteTime, MTC_FPS_24,
    MTC_FPS_25, MTC_FPS_30,
};

/// The position of a playhead in seconds, as the clock thread computes it:
/// whole frames elapsed, never negative.
fn seconds_to_smpte(secs: f64, fps: u32) -> SmpteTime {
    let total_frames = (secs.max(0.0) * fps.max(1) as f64).floor() as u64;
    frames_to_smpte(total_frames, fps)
}

#[test]
fn seconds_to_smpte_at_30fps_wraps_correctly() {
    let t = seconds_to_smpte(3661.5, 30);
    assert_eq!(t.hours, 1);
    assert_eq!(t.minutes, 1);
    assert_eq!(t.seconds, 1);
    assert_eq!(t.frames, 15);
}

#[test]
fn quarter_frame_piece_0_encodes_low_nibble_of_frames() {
    let t = SmpteTime { hours: 0, minutes: 0, seconds: 0, frames: 0x0B };
    let d = quarter_frame_data(0, t, 0b11);
    assert_eq!(d, 0x0B);
}

#[test]
fn quarter_frame_piece_7_encodes_smpte_type() {
    let t = SmpteTime { hours: 0, minutes: 0, seconds: 0, frames: 0 };
    let d = quarter_frame_data(7, t, 0b11);
    assert_eq!(d, 0x70 | 0b0110);
}

#[test]
fn seconds_to_smpte_clamps_negative() {
    let t = seconds_to_smpte(-1.0, 30);
    assert_eq!(t, SmpteTime { hours: 0, minutes: 0, seconds: 0, frames: 0 });
}

#[test]
fn hours_wrap_after_a_day() {
    let t = frames_to_smpte(25 * 3600 * 25 + 3, 25);
    assert_eq!(t, SmpteTime { hours: 1, minutes: 0, seconds: 0, frames: 3 });
}

#[test]
fn each_rate_has_its_type_bits() {
    assert_eq!(smpte_type_bits(MTC_FPS_24), 0);
    assert_eq!(smpte_type_bits(MTC_FPS_25), 1);
    assert_eq!(smpte_type_bits(MTC_FPS_30), 3);
    assert_eq!(smpte_type_bits(29), 3);
}

#[test]
fn the_pieces_split_every_field_into_nibbles() {
    let t = SmpteTime { hours: 0x17, minutes: 0x3B, seconds: 0x2A, frames: 0x1D };
    let all: Vec<u8> = (0..8).map(|p| quarter_frame_data(p, t, 0b01)).collect();
    assert_eq!(all, vec![0x0D, 0x11, 0x2A, 0x32, 0x4B, 0x53, 0x67, 0x73]);
    assert_eq!(quarter_frame_data(9, t, 0b01), quarter_frame_data(1, t, 0b01));
}

#[test]
fn a_cycle_sends_eight_pieces_of_one_position() {
    let mut c = QuarterFrameCycle::new();
    let first = SmpteTime { hours: 0, minutes: 0, seconds: 5, frames: 2 };
    let later = SmpteTime { hours: 0, minutes: 0, seconds: 6, frames: 9 };
    let mut sent = vec![c.next_data(first, 0b11)];
    for _ in 1..8 {
        sent.push(c.next_data(later, 0b11));
    }
    let expected: Vec<u8> = (0..8).map(|p| quarter_frame_data(p, first, 0b11)).collect();
    assert_eq!(sent, expected, "the position is held for the whole cycle");
    assert_eq!(c.next_data(later, 0b11), quarter_frame_data(0, later, 0b11));
    c.reset();
    assert_eq!(c.next_data(first, 0b11), quarter_frame_data(0, first, 0b11));
}
