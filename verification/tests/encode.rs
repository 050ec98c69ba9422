use hardwave::encode::{encode_flac, encode_mp3, mp3_feed, flac_bits, flac_full_scale};

fn tone(frames: usize, full_scale: i32) -> Vec<i32> {
    let mut v = Vec::with_capacity(frames * 2);
    for i in 0..frames {
        let s = ((i % 64) as i32 - 32) * (full_scale / 64);
        v.push(s);
        v.push(-s);
    }
    v
}

#[test]
fn flac_widths_follow_the_requested_depth() {
    assert_eq!(flac_bits(16), 16);
    assert_eq!(flac_bits(0), 24);
    assert_eq!(flac_bits(24), 24);
    assert_eq!(flac_bits(4), 8);
    assert_eq!(flac_bits(32), 24);
    assert_eq!(flac_bits(20), 20);
    assert_eq!(flac_full_scale(16), 32_767);
    assert_eq!(flac_full_scale(24), 8_388_607);
    assert_eq!(flac_full_scale(8), 127);
}

#[test]
fn a_flac_export_is_a_flac_stream() {
    let samples = tone(48_000, flac_full_scale(16));
    let bytes = encode_flac(&samples, 48_000, 16).expect("encodes");
    assert_eq!(&bytes[..4], b"fLaC");
    assert!(bytes.len() < samples.len() * 2, "it compresses");
}

#[test]
fn a_flac_header_names_rate_channels_width_and_length() {
    let samples = tone(48_000, flac_full_scale(16));
    let bytes = encode_flac(&samples, 48_000, 16).expect("encodes");
    assert_eq!(&bytes[4..8], &[0x80, 0, 0, 34]);
    assert_eq!(&bytes[18..26], &[0x0B, 0xB8, 0x02, 0xF0, 0x00, 0x00, 0xBB, 0x80]);
    let wide = encode_flac(&tone(10, flac_full_scale(24)), 44_100, 0).expect("encodes");
    // 44100 Hz, 2 channels, 24 bits, 10 samples per channel.
    assert_eq!(&wide[18..26], &[0x0A, 0xC4, 0x43, 0x70, 0x00, 0x00, 0x00, 0x0A]);
}

#[test]
fn a_flac_export_refuses_rates_and_widths_flac_cannot_hold() {
    let samples = tone(100, flac_full_scale(16));
    let err = encode_flac(&samples, 192_000, 16).unwrap_err();
    assert!(err.starts_with("flac encode: "), "{err}");
    let narrow = tone(100, flac_full_scale(8));
    let err = encode_flac(&narrow, 48_000, 10).unwrap_err();
    assert!(err.starts_with("flac encode: "), "{err}");
}

#[test]
fn an_mp3_export_refuses_rates_the_encoder_lacks() {
    assert_eq!(
        encode_mp3(&[0; 8], 96_000, 192),
        Err("MP3 export does not support 96000 Hz — choose 32000/44100/48000".to_string())
    );
}

#[test]
fn an_mp3_export_is_a_sequence_of_mpeg_frames() {
    let pcm: Vec<i16> = tone(44_100, 32_767).into_iter().map(|s| s as i16).collect();
    let bytes = encode_mp3(&pcm, 44_100, 192).expect("encodes");
    assert!(bytes.len() > 1_000);
    assert_eq!(bytes[0], 0xFF, "frame sync");
    assert_eq!(bytes[1] & 0xE0, 0xE0, "frame sync");
}

#[test]
fn an_mp3_export_with_an_unusable_bitrate_names_the_setup_stage() {
    let err = encode_mp3(&[0; 8], 44_100, 7).unwrap_err();
    assert!(err.starts_with("mp3 init: "), "{err}");
}

#[test]
fn an_mp3_bitrate_must_be_in_the_table_of_its_mpeg_version() {
    let pcm: Vec<i16> = tone(4_000, 32_767).into_iter().map(|s| s as i16).collect();
    let err = encode_mp3(&pcm, 44_100, 8).unwrap_err();
    assert!(err.starts_with("mp3 init: "), "{err}");
    let err = encode_mp3(&pcm, 8_000, 128).unwrap_err();
    assert!(err.starts_with("mp3 init: "), "{err}");
    assert!(encode_mp3(&pcm, 22_050, 144).is_ok());
    assert!(encode_mp3(&pcm, 8_000, 64).is_ok());
}

#[test]
fn a_flac_export_at_an_allowed_rate_and_width_succeeds() {
    for (rate, depth) in [(8_000, 8), (44_100, 12), (96_000, 16), (48_000, 20), (48_000, 0)] {
        let bits = flac_bits(depth);
        let samples = tone(5_000, flac_full_scale(bits));
        assert!(encode_flac(&samples, rate, depth).is_ok(), "{rate} Hz, {bits} bits");
    }
}

#[test]
fn an_mp3_export_is_the_encoders_output_for_exactly_these_samples() {
    let pcm: Vec<i16> = tone(10_000, 32_767).into_iter().map(|s| s as i16).collect();
    let config = shine_rs::Mp3EncoderConfig::new()
        .sample_rate(44_100)
        .bitrate(192)
        .channels(2)
        .stereo_mode(shine_rs::StereoMode::JointStereo);
    let mut encoder = shine_rs::Mp3Encoder::new(config).expect("encoder");
    let mut out = Vec::new();
    assert_eq!(mp3_feed(&mut encoder, &pcm, &mut out), Ok(()));
    assert_eq!(encoder.buffered_samples(), pcm.len() % encoder.samples_per_frame());
    out.extend_from_slice(&encoder.finish().expect("finish"));
    assert_eq!(encode_mp3(&pcm, 44_100, 192), Ok(out));
}
