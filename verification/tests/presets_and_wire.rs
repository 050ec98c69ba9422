use hardwave::automation::{AutomationTarget, CurveMode};
use hardwave::presets::{
    add_to_index, blob_file_name, index_file, new_preset, remove_from_index, rename_in_index, sanitize,
    PresetInfo,
};
use hardwave::settings::{label_for, tempo_sync_cycle_ticks, AudioPrefs};
use hardwave::wire::{check_mtc_fps, target_info, AutomationTargetInfo, CurveSpec, LaneTargetSpec};

#[test]
fn ids_are_made_safe_as_file_names() {
    assert_eq!(sanitize("Hardwave.Reverb/2"), "hardwave.reverb_2");
    assert_eq!(sanitize("A B-c_d"), "a_b-c_d");
    assert_eq!(blob_file_name("ID:7"), "id_7.bin");
    assert_eq!(index_file(), "index.json");
}

#[test]
fn the_index_keeps_the_newest_preset_first() {
    let mut list: Vec<PresetInfo> = Vec::new();
    add_to_index(&mut list, new_preset("a".into(), "  Warm Pad ", 1));
    add_to_index(&mut list, new_preset("b".into(), "Bright", 2));
    assert_eq!(list[0].id, "b");
    assert_eq!(list[1].name, "Warm Pad");
    assert_eq!(rename_in_index(&mut list, "a", " Warmer "), Ok(()));
    assert_eq!(list[1].name, "Warmer");
    assert_eq!(rename_in_index(&mut list, "zz", "x"), Err("preset zz not found".to_string()));
    remove_from_index(&mut list, "b");
    assert_eq!(list.len(), 1);
    assert_eq!(list[0].id, "a");
}

#[test]
fn time_code_is_sent_at_three_rates_only() {
    assert!(check_mtc_fps(24).is_ok());
    assert!(check_mtc_fps(25).is_ok());
    assert!(check_mtc_fps(30).is_ok());
    assert_eq!(check_mtc_fps(29), Err("MTC fps must be 24, 25, or 30 (got 29)".to_string()));
}

#[test]
fn lane_targets_and_curves_convert_variant_for_variant() {
    let t = LaneTargetSpec::PluginParam { slot_id: "s1".into(), param_id: 4 }.into_target();
    assert!(matches!(&t, AutomationTarget::PluginParam { slot_id, param_id: 4 } if slot_id == "s1"));
    assert!(matches!(LaneTargetSpec::SendLevel { send_index: 2 }.into_target(), AutomationTarget::SendLevel { send_index: 2 }));
    assert_eq!(CurveSpec::SmoothStairs.into_curve(), CurveMode::SmoothStairs);
    match target_info(&t) {
        AutomationTargetInfo::PluginParam { slot_id, param_id } => {
            assert_eq!(slot_id, "s1");
            assert_eq!(param_id, 4);
        }
        _ => panic!("a plug-in parameter reads back as one"),
    }
}

#[test]
fn a_panel_label_keeps_ascii_letters_and_digits() {
    assert_eq!(label_for("mixer"), "panel-mixer");
    assert_eq!(label_for("piano-roll 2!"), "panel-pianoroll2");
}

#[test]
fn tempo_synced_cycles_are_fractions_of_a_whole_note() {
    assert_eq!(tempo_sync_cycle_ticks(1, 4, 960), 960);
    assert_eq!(tempo_sync_cycle_ticks(1, 1, 960), 3840);
    assert_eq!(tempo_sync_cycle_ticks(3, 8, 960), 1440);
    assert_eq!(tempo_sync_cycle_ticks(1, 0, 960), u64::MAX / 2);
}

#[test]
fn tempo_sync_rate_quarter_note() {
    assert_eq!(tempo_sync_cycle_ticks(1, 4, 960), 960);
}

#[test]
fn tempo_sync_rate_one_bar_equals_4_beats() {
    assert_eq!(tempo_sync_cycle_ticks(1, 1, 960), 3840);
}

#[test]
fn factory_audio_prefs_are_48k_512_stereo() {
    let p = AudioPrefs::factory();
    assert_eq!(p.sample_rate, 48_000);
    assert_eq!(p.buffer_size, 512);
    assert_eq!(p.input_channels, 2);
    assert!(p.output_device.is_none());
    let d = AudioPrefs::default();
    assert_eq!(d.sample_rate, 0);
}
