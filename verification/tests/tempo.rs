use hardwave::tempo::{
    bar_position, meter_segments, ramp_from_str, ramp_to_str, ticks_per_bar, ticks_per_beat,
    time_sig_at, MeterMark, TempoRamp, PPQ,
};

fn meter(tick: u64, num: u32, den: u32) -> MeterMark {
    MeterMark { tick, time_sig_num: num, time_sig_den: den }
}

/// A tempo-only entry keeps the song's 4/4.
fn tempo_only(tick: u64) -> MeterMark {
    meter(tick, 4, 4)
}

/// The bar and the 1-based beat a tick shows as, as the transport prints it.
fn tick_to_bar_beat(marks: &Vec<MeterMark>, tick: u64) -> (u32, f64) {
    let p = bar_position(marks, tick);
    (p.bar, p.ticks_into_bar as f64 / p.ticks_per_beat as f64 + 1.0)
}

#[test]
fn the_signature_at_a_tick_is_the_last_one_set_before_it() {
    let m = vec![meter(0, 4, 4), meter(PPQ * 16, 3, 4)];
    assert_eq!(time_sig_at(&m, 0), (4, 4));
    assert_eq!(time_sig_at(&m, PPQ * 15), (4, 4));
    assert_eq!(time_sig_at(&m, PPQ * 16), (3, 4), "the change applies");
    assert_eq!(time_sig_at(&m, PPQ * 99), (3, 4), "and it holds");
}

#[test]
fn bars_keep_counting_across_a_signature_change() {
    let m = vec![meter(0, 4, 4), meter(PPQ * 16, 3, 4)];
    assert_eq!(tick_to_bar_beat(&m, 0), (1, 1.0));
    assert_eq!(tick_to_bar_beat(&m, PPQ * 12).0, 4);
    assert_eq!(tick_to_bar_beat(&m, PPQ * 16).0, 5, "not back to bar 1");
    assert_eq!(tick_to_bar_beat(&m, PPQ * 19).0, 6);
    assert_eq!(tick_to_bar_beat(&m, PPQ * 22).0, 7);
}

#[test]
fn a_tempo_change_does_not_move_the_bar_lines() {
    let m = vec![tempo_only(0), tempo_only(PPQ * 9)];
    assert_eq!(tick_to_bar_beat(&m, PPQ * 9), (3, 2.0), "still bar 3 beat 2");
    assert_eq!(tick_to_bar_beat(&m, PPQ * 12).0, 4);
}

#[test]
fn an_eighth_note_signature_is_counted_in_eighths() {
    let m = vec![meter(0, 7, 8)];
    assert_eq!(ticks_per_bar(7, 8), PPQ * 7 / 2);
    assert_eq!(tick_to_bar_beat(&m, 0), (1, 1.0));
    assert_eq!(tick_to_bar_beat(&m, PPQ / 2), (1, 2.0), "second eighth");
    assert_eq!(tick_to_bar_beat(&m, PPQ * 7 / 2).0, 2);
}

#[test]
fn a_signature_change_off_the_grid_still_starts_a_bar() {
    let m = vec![meter(0, 4, 4), meter(PPQ * 6, 3, 4)];
    assert_eq!(tick_to_bar_beat(&m, PPQ * 5).0, 2);
    assert_eq!(tick_to_bar_beat(&m, PPQ * 6), (3, 1.0));
    assert_eq!(tick_to_bar_beat(&m, PPQ * 9).0, 4);
}

#[test]
fn segments_only_start_where_the_signature_changes() {
    let m = vec![meter(0, 4, 4), tempo_only(PPQ * 8), meter(PPQ * 16, 5, 4), meter(PPQ * 24, 5, 4)];
    assert_eq!(meter_segments(&m), vec![(0, PPQ * 4), (PPQ * 16, PPQ * 5)]);
}

#[test]
fn a_beat_is_a_quarter_note_scaled_by_the_denominator() {
    assert_eq!(ticks_per_beat(4), PPQ);
    assert_eq!(ticks_per_beat(8), PPQ / 2);
    assert_eq!(ticks_per_beat(2), PPQ * 2);
    assert_eq!(ticks_per_bar(3, 4), PPQ * 3);
}

#[test]
fn the_first_segment_starts_at_zero_even_when_the_first_mark_is_later() {
    let m = vec![meter(PPQ * 4, 3, 4)];
    assert_eq!(meter_segments(&m), vec![(0, PPQ * 3)]);
    assert_eq!(time_sig_at(&m, 0), (3, 4));
}

#[test]
fn ramps_round_trip_through_their_names() {
    assert_eq!(ramp_to_str(TempoRamp::Linear), "linear");
    assert_eq!(ramp_from_str(&ramp_to_str(TempoRamp::Instant)), TempoRamp::Instant);
    assert_eq!(ramp_from_str("linear"), TempoRamp::Linear);
    assert_eq!(ramp_from_str("whatever"), TempoRamp::Instant);
}
