use hardwave::export::{
    check_mp3_rate, export_mp3_bitrate, export_range, stem_mix, MixSwitches, stem_file_names, stem_mutes, is_flac_path, is_mp3_path, render_container, sanitize_filename, DitherMode,
    DitherRng, NormalizeMode, RenderContainer,
};

#[test]
fn modes_parse_from_the_ui_names() {
    assert_eq!(NormalizeMode::parse("peak"), NormalizeMode::Peak);
    assert_eq!(NormalizeMode::parse("lufs"), NormalizeMode::Lufs);
    assert_eq!(NormalizeMode::parse("PEAK"), NormalizeMode::Off);
    assert_eq!(DitherMode::parse("triangular"), DitherMode::Tpdf);
    assert_eq!(DitherMode::parse("tpdf"), DitherMode::Tpdf);
    assert_eq!(DitherMode::parse("noise_shaped"), DitherMode::TpdfShaped);
    assert_eq!(DitherMode::parse("shaped"), DitherMode::TpdfShaped);
    assert_eq!(DitherMode::parse("none"), DitherMode::Off);
}

#[test]
fn dither_noise_is_xorshift_and_never_sticks_at_zero() {
    let mut rng = DitherRng::new(1);
    assert_eq!(rng.next_u32(), 270_369);
    assert_eq!(rng.next_u32(), 67_634_689);
    let zero = DitherRng::new(0);
    assert_eq!(zero.state, 0xdead_beef);
    let mut z = zero;
    for _ in 0..1000 {
        assert_ne!(z.next_u32(), 0);
    }
}

#[test]
fn the_path_picks_the_container() {
    assert!(is_flac_path("/out/mix.FLAC"));
    assert!(!is_flac_path("/out/mix.flac.wav"));
    assert!(is_mp3_path("a.Mp3"));
    assert_eq!(render_container("mix.flac"), RenderContainer::Flac);
    assert_eq!(render_container("mix.mp3"), RenderContainer::Mp3);
    assert_eq!(render_container("mix.wav"), RenderContainer::Wav);
    assert_eq!(render_container("mix"), RenderContainer::Wav);
}

#[test]
fn mp3_export_only_takes_the_rates_the_encoder_has() {
    assert!(check_mp3_rate(44_100).is_ok());
    assert!(check_mp3_rate(8_000).is_ok());
    assert_eq!(
        check_mp3_rate(96_000),
        Err("MP3 export does not support 96000 Hz — choose 32000/44100/48000".to_string())
    );
}

#[test]
fn stem_names_are_safe_file_names() {
    assert_eq!(sanitize_filename("Lead Vox/2"), "Lead Vox_2");
    assert_eq!(sanitize_filename("  Bass: sub  "), "Bass_ sub");
    assert_eq!(sanitize_filename("   "), "track");
    assert_eq!(sanitize_filename("Kick.wav"), "Kick_wav");
    assert_eq!(sanitize_filename("Grüße"), "Grüße");
}

#[test]
fn an_export_covers_the_chosen_range_or_the_whole_project() {
    assert_eq!(export_range(0, None, None), Err("Project is empty — nothing to export.".to_string()));
    assert_eq!(export_range(0, Some(10), Some(20)), Err("Project is empty — nothing to export.".to_string()));
    assert_eq!(export_range(48_000, None, None), Ok((0, 48_000)));
    assert_eq!(export_range(48_000, Some(1_000), Some(5_000)), Ok((1_000, 4_000)));
    assert_eq!(export_range(48_000, Some(5_000), Some(5_000)), Ok((0, 48_000)));
    assert_eq!(export_range(48_000, Some(1_000), None), Ok((0, 48_000)));
}

#[test]
fn stems_are_named_after_project_and_track() {
    let names = vec!["Kick".to_string(), "Bass/Sub".to_string()];
    assert_eq!(
        stem_file_names("My Song", &names, true, Some("flac")),
        Ok(vec![
            "My Song_Kick.flac".to_string(),
            "My Song_Bass_Sub.flac".to_string(),
            "My Song_master.flac".to_string(),
        ])
    );
    assert_eq!(stem_file_names("x", &names[..1], false, None), Ok(vec!["x_Kick.wav".to_string()]));
    assert_eq!(stem_file_names("x", &names[..1], false, Some("ogg")), Ok(vec!["x_Kick.wav".to_string()]));
    assert_eq!(stem_file_names("x", &names[..1], false, Some("mp3")), Ok(vec!["x_Kick.mp3".to_string()]));
    assert_eq!(stem_file_names("x", &[], true, None), Err("No tracks to export.".to_string()));
}

#[test]
fn a_stem_mutes_every_other_track() {
    let ids = vec!["a".to_string(), "b".to_string(), "c".to_string()];
    assert_eq!(stem_mutes(&ids, "b"), vec![true, false, true]);
    assert_eq!(stem_mutes(&ids, "z"), vec![true, true, true]);
}

#[test]
fn the_mp3_bitrate_defaults_to_320_and_is_held_in_range() {
    assert_eq!(export_mp3_bitrate(None), 320);
    assert_eq!(export_mp3_bitrate(Some(192)), 192);
    assert_eq!(export_mp3_bitrate(Some(4)), 8);
    assert_eq!(export_mp3_bitrate(Some(999)), 320);
}

#[test]
fn stem_renders_mute_all_but_the_target_and_can_lift_solos() {
    let ids = vec!["a".to_string(), "b".to_string()];
    let sw = |muted, soloed, solo_safe| MixSwitches { muted, soloed, solo_safe };
    let current = vec![sw(false, true, true), sw(true, false, false)];
    assert_eq!(stem_mix(&ids, &current, Some("b"), true), vec![sw(true, true, true), sw(false, false, false)]);
    assert_eq!(stem_mix(&ids, &current, Some("b"), false), vec![sw(true, false, false), sw(false, false, false)]);
    assert_eq!(stem_mix(&ids, &current, None, true), current);
    assert_eq!(stem_mix(&ids, &current, None, false), vec![sw(false, false, false), sw(false, false, false)]);
}
