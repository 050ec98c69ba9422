use hardwave::clip::{fade_curve_from_name, fade_curve_name, split_plan, FadeCurve, SplitPlan};

#[test]
fn fade_curves_round_trip_through_their_names() {
    for c in [FadeCurve::Linear, FadeCurve::EqualPower, FadeCurve::SCurve, FadeCurve::Logarithmic] {
        assert_eq!(fade_curve_from_name(&fade_curve_name(c)), Ok(c));
    }
    assert_eq!(FadeCurve::default(), FadeCurve::Linear);
    assert_eq!(fade_curve_from_name("cubic"), Err("Unknown fade curve: cubic".to_string()));
}

#[test]
fn a_split_inside_the_clip_gives_two_halves_that_meet() {
    let p = split_plan(1_000, 4_000, 0, 96_000, 2_000).unwrap();
    assert_eq!(
        p,
        SplitPlan { left_length: 1_000, right_position: 2_000, right_length: 3_000, right_source_start: 24_000 }
    );
}

#[test]
fn a_split_on_or_outside_the_edges_is_refused() {
    assert_eq!(split_plan(1_000, 4_000, 0, 0, 1_000), Err("split position 1000 outside clip [1000, 5000)".to_string()));
    assert_eq!(split_plan(1_000, 4_000, 0, 0, 5_000), Err("split position 5000 outside clip [1000, 5000)".to_string()));
    assert!(split_plan(1_000, 4_000, 0, 0, 10).is_err());
}
