use hardwave::fl_import::{
    default_plugin_mappings, summarize_import, FindingCategory, FindingSeverity, FlChannel,
    FlClipContent, FlNote, FlPlaylistClip, FlProjectOutline, ImportReport,
};

fn sample_project() -> FlProjectOutline {
    FlProjectOutline {
        bpm_text: "140".into(),
        time_sig_numerator: 4,
        time_sig_denominator: 4,
        channels: vec![
            FlChannel {
                name: "Kick".into(),
                sample_path: Some("/samples/kick.wav".into()),
                plugin_name: None,
                pattern_steps: [true, false, false, false].repeat(4),
            },
            FlChannel {
                name: "Sytrus Lead".into(),
                sample_path: None,
                plugin_name: Some("Sytrus".into()),
                pattern_steps: vec![true; 16],
            },
            FlChannel {
                name: "Harmor Pad".into(),
                sample_path: None,
                plugin_name: Some("Harmor".into()),
                pattern_steps: vec![false; 16],
            },
            FlChannel {
                name: "Mystery Plugin".into(),
                sample_path: None,
                plugin_name: Some("WeirdOne".into()),
                pattern_steps: vec![false; 16],
            },
        ],
        notes: vec![(
            1,
            vec![FlNote { tick: 0, length_ticks: 480, pitch: 60, velocity: 100 }],
        )],
        playlist_clips: vec![FlPlaylistClip {
            track_index: 0,
            start_tick: 0,
            length_ticks: 1920,
            content: FlClipContent::Pattern { pattern_index: 0 },
        }],
        mixer_track_count: 1,
    }
}

#[test]
fn summary_counts_aggregate_from_project() {
    let project = sample_project();
    let mappings = default_plugin_mappings();
    let report = summarize_import(&project, &mappings);
    assert_eq!(report.imported_channels, 4);
    assert_eq!(report.imported_notes, 1);
    assert_eq!(report.imported_playlist_clips, 1);
    assert_eq!(report.imported_mixer_tracks, 1);
}

#[test]
fn summary_maps_sytrus_to_hardwave_fm() {
    let project = sample_project();
    let mappings = default_plugin_mappings();
    let report = summarize_import(&project, &mappings);
    assert!(report
        .findings
        .iter()
        .any(|f| f.message.contains("Sytrus") && f.message.contains("hardwave-fm")));
}

#[test]
fn summary_warns_on_unknown_plugin_and_adds_to_skipped() {
    let project = sample_project();
    let mappings = default_plugin_mappings();
    let report = summarize_import(&project, &mappings);
    assert!(report.skipped_plugins.iter().any(|p| p == "WeirdOne"));
    assert!(report.skipped_plugins.iter().any(|p| p == "Harmor"));
    assert!(report.warning_count() >= 2);
    assert!(!report.has_errors());
}

#[test]
fn default_mappings_contain_core_fl_natives() {
    let m = default_plugin_mappings();
    assert!(m.iter().any(|p| p.from_fl == "Sytrus"));
    assert!(m.iter().any(|p| p.from_fl == "3xOsc"));
    assert!(m.iter().any(|p| p.from_fl == "Fruity Limiter"));
}

#[test]
fn report_severity_accessors() {
    let mut r = ImportReport::default();
    r.info(FindingCategory::Tempo, "ok");
    r.warn(FindingCategory::Plugin, "meh");
    r.error(FindingCategory::ChannelRack, "bad");
    assert!(r.has_errors());
    assert_eq!(r.warning_count(), 1);
}

#[test]
fn automation_clip_count_derived_from_content_kind() {
    let mut project = sample_project();
    project.playlist_clips.push(FlPlaylistClip {
        track_index: 1,
        start_tick: 0,
        length_ticks: 960,
        content: FlClipContent::Automation { target: "master-volume".into() },
    });
    let report = summarize_import(&project, &default_plugin_mappings());
    assert_eq!(report.imported_automation_clips, 1);
}

#[test]
fn the_summary_opens_with_the_tempo_row_then_one_row_per_plugin() {
    let report = summarize_import(&sample_project(), &default_plugin_mappings());
    assert_eq!(report.findings.len(), 4);
    assert_eq!(report.findings[0].message, "Tempo 140 BPM, 4/4");
    assert_eq!(report.findings[0].severity, FindingSeverity::Info);
    assert_eq!(report.findings[1].message, "Mapped Sytrus → hardwave-fm");
    assert_eq!(report.findings[3].message, "Unknown plugin reference: WeirdOne (skipped)");
    assert_eq!(report.findings[3].category, FindingCategory::Unsupported);
    assert_eq!(report.skipped_plugins, vec!["Harmor".to_string(), "WeirdOne".to_string()]);
    assert_eq!(report.warning_count(), 2);
}

#[test]
fn an_empty_report_has_no_errors_or_warnings() {
    let r = ImportReport::default();
    assert!(!r.has_errors());
    assert_eq!(r.warning_count(), 0);
    assert!(r.findings.is_empty());
}
