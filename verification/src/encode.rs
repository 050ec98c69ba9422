//! Compressed export formats: the FLAC bit depth and full-scale value a
//! render is quantized to, and the FLAC and MP3 encoders run over the
//! integer samples of a render.

use vstd::prelude::*;
use crate::export::{check_mp3_rate, mp3_rates};
use crate::text::decimal;

verus! {

// ---------------------------------------------------------------------------
// Encoder types

#[verifier::external_type_specification]
#[verifier::external_body]
#[verifier::reject_recursive_types(T)]
pub struct ExVerified<T>(flacenc::error::Verified<T>);

#[verifier::external_type_specification]
#[verifier::external_body]
pub struct ExFlacConfig(flacenc::config::Encoder);

#[verifier::external_type_specification]
#[verifier::external_body]
pub struct ExFlacStream(flacenc::component::Stream);

#[verifier::external_type_specification]
#[verifier::external_body]
pub struct ExMp3Encoder(shine_rs::Mp3Encoder);

// ---------------------------------------------------------------------------
// FLAC

/// The sample width a FLAC export is written at for a requested bit depth:
/// 16 stays 16, 0 (unset) and 24 are 24, anything else is held to 8..=24.
pub open spec fn flac_bits_spec(bit_depth: u32) -> u32 {
    if bit_depth == 16 {
        16
    } else if bit_depth == 0 || bit_depth == 24 {
        24
    } else if bit_depth < 8 {
        8
    } else if bit_depth > 24 {
        24
    } else {
        bit_depth
    }
}

/// The FLAC sample width for a requested bit depth.
pub fn flac_bits(bit_depth: u32) -> (b: u32)
    ensures
        b == flac_bits_spec(bit_depth),
        8 <= b <= 24,
{
    if bit_depth == 16 {
        16
    } else if bit_depth == 0 || bit_depth == 24 {
        24
    } else if bit_depth < 8 {
        8
    } else if bit_depth > 24 {
        24
    } else {
        bit_depth
    }
}

/// The largest sample value of a signed `bits`-bit sample, which a full
/// scale float sample of 1.0 is mapped to: `2^(bits-1) - 1`.
pub fn flac_full_scale(bits: u32) -> (m: i32)
    requires
        8 <= bits <= 24,
    ensures
        m as int == (1u32 << ((bits - 1) as u32)) as int - 1,
{
    let k: u32 = bits - 1;
    let p: u32 = 1u32 << k;
    assert(1 <= p <= 0x80_0000) by (bit_vector)
        requires
            7 <= k <= 23,
            p == 1u32 << k,
    ;
    (p - 1) as i32
}

/// Sets up flacenc's default encoder configuration
/// (`config::Encoder::default()` checked by `Verify::into_verified`). Claims
/// that the check passes: the default block size (4096) lies within
/// 64..=32767 and the default stereo and subframe settings are the ones the
/// crate's own examples verify. The error is the check's own description,
/// its `Debug` text.
#[verifier::external_body]
fn flac_config() -> (r: Result<flacenc::error::Verified<flacenc::config::Encoder>, String>)
    ensures
        r is Ok,
{
    match flacenc::error::Verify::into_verified(flacenc::config::Encoder::default()) {
        Ok(c) => Ok(c),
        Err((_, e)) => Err(format!("{e:?}")),
    }
}

/// Why flacenc produced no file: the stage that failed, with the crate's
/// own description of the error (its `Debug` text).
pub enum FlacFailure {
    Encode(String),
    Serialize(String),
}

/// The fixed part of a FLAC file as flacenc writes it: the `fLaC` marker,
/// the header of the one metadata block (STREAMINFO, marked last, 34 bytes),
/// then in STREAMINFO, from byte 18 on, the sample rate (20 bits), the
/// channel count less one (3 bits), the sample width less one (5 bits) and
/// the number of samples per channel (36 bits), each most significant bit
/// first.
pub open spec fn flac_header_holds(b: Seq<u8>, sample_rate: int, channels: int, bits: int, frames: int) -> bool {
    &&& b.len() >= 42
    &&& b[0] == 0x66u8 && b[1] == 0x4cu8 && b[2] == 0x61u8 && b[3] == 0x43u8
    &&& b[4] == 0x80u8 && b[5] == 0u8 && b[6] == 0u8 && b[7] == 34u8
    &&& b[18] * 4096 + b[19] * 16 + b[20] / 16 == sample_rate
    &&& (b[20] / 2) % 8 == channels - 1
    &&& (b[20] % 2) * 16 + b[21] / 16 == bits - 1
    &&& (b[21] % 16) * 0x1_0000_0000 + b[22] * 0x100_0000 + b[23] * 0x1_0000 + b[24] * 0x100 + b[25]
        == frames % 0x10_0000_0000
}

/// Whether every sample fits a signed `bits`-bit sample.
pub open spec fn fits_width(samples: Seq<i32>, bits: u32) -> bool {
    forall|i: int| 0 <= i < samples.len() ==> -((1u32 << ((bits - 1) as u32)) as int) <= #[trigger] samples[i]
        <= (1u32 << ((bits - 1) as u32)) as int - 1
}

/// The interleaved samples a FLAC decoder reads back from a file's bytes
/// (the format's reference decoder, libFLAC, being the measure), or `None`
/// when the bytes are not a FLAC stream it can read.
pub uninterp spec fn flac_decoded(file: Seq<u8>) -> Option<Seq<i32>>;

/// Encodes interleaved integer samples with
/// `flacenc::encode_with_fixed_block_size` (from a `MemSource` of the
/// samples, at the block size the configuration names) and writes the
/// stream with `BitRepr::write` into a `ByteSink`. Claims what the source
/// writes before the first frame: the STREAMINFO block built from the
/// sample rate, channel count and width given here (its `StreamInfo::new`),
/// with `samples.len() / channels` samples per channel (`MemSource::len`);
/// and that `StreamInfo::verify` refuses a rate above 96 kHz and a width
/// that is not 4n or 4n + 1. The channel count and rate are kept within
/// what `StreamInfo::new` stores without truncation.
///
/// Claims as well that, with samples that fit the width (as the callers
/// quantize them; `FrameBuf::verify_samples` would refuse others before any
/// prediction runs) and a whole number of frames, encoding succeeds at an
/// allowed rate and width: the only other refusals are a block size outside
/// 64..=32767 (a verified configuration's is inside), a frame number from
/// 2^31 on (the length bound keeps it below), and the `ByteSink`, which
/// cannot fail. And that FLAC is lossless: decoding the bytes gives the
/// samples back first (the last frame is padded with zeros to the block
/// size, which a decoder may or may not hand on). The frame bytes
/// themselves are left unsaid: flacenc's LPC windows use the platform's
/// `cos` and `powf`, so they can differ between machines.
#[verifier::external_body]
fn flac_encode(
    config: &flacenc::error::Verified<flacenc::config::Encoder>,
    samples: &[i32],
    channels: usize,
    bits: usize,
    sample_rate: usize,
) -> (r: Result<Vec<u8>, FlacFailure>)
    requires
        8 <= bits <= 24,
        1 <= channels <= 8,
        sample_rate <= u32::MAX,
        fits_width(samples@, bits as u32),
        samples@.len() <= 0x10_0000_0000,
    ensures
        r matches Ok(b) ==> flac_header_holds(b@, sample_rate as int, channels as int, bits as int, (samples@.len() as int) / (channels as int)),
        sample_rate > 96_000 || bits % 4 > 1 ==> r is Err,
        sample_rate <= 96_000 && bits % 4 <= 1 ==> r is Ok,
        (samples@.len() as int) % (channels as int) == 0 ==> (r matches Ok(b) ==> (flac_decoded(b@) matches Some(d)
            && d.len() >= samples@.len() && d.take(samples@.len() as int) == samples@)),
{
    let source = flacenc::source::MemSource::from_samples(samples, channels, bits, sample_rate);
    let stream = match flacenc::encode_with_fixed_block_size(config, source, config.block_size) {
        Ok(s) => s,
        Err(e) => return Err(FlacFailure::Encode(format!("{e:?}"))),
    };
    let mut sink = flacenc::bitsink::ByteSink::new();
    match flacenc::component::BitRepr::write(&stream, &mut sink) {
        Ok(()) => Ok(sink.as_slice().to_vec()),
        Err(e) => Err(FlacFailure::Serialize(format!("{e:?}"))),
    }
}

/// `prefix` followed by `detail`.
fn prefixed(prefix: &str, detail: String) -> (m: String)
    ensures
        m@ == prefix@ + detail@,
{
    let mut m = String::from_str(prefix);
    m.append(detail.as_str());
    m
}

/// Whether a text starts with `prefix`.
pub open spec fn starts_with(s: Seq<char>, prefix: Seq<char>) -> bool {
    prefix.len() <= s.len() && s.take(prefix.len() as int) == prefix
}

/// The bytes of a stereo FLAC file holding interleaved samples already
/// quantized to `flac_bits(bit_depth)` bits: its header names the rate,
/// two channels, that width and half as many samples per channel as were
/// given; decoding it gives the samples back. It fails exactly at a rate
/// above 96 kHz or a width flacenc does not write (not 4n or 4n + 1). A
/// failure names the stage that failed: `flac config: `, `flac encode: ` or
/// `flac serialize: `, then the encoder's own words.
pub fn encode_flac(samples: &[i32], sample_rate: u32, bit_depth: u32) -> (r: Result<Vec<u8>, String>)
    requires
        fits_width(samples@, flac_bits_spec(bit_depth)),
        samples@.len() <= 0x10_0000_0000,
    ensures
        r matches Ok(b) ==> flac_header_holds(b@, sample_rate as int, 2, flac_bits_spec(bit_depth) as int, (samples@.len() as int) / 2),
        sample_rate > 96_000 || flac_bits_spec(bit_depth) % 4 > 1 ==> r is Err,
        sample_rate <= 96_000 && flac_bits_spec(bit_depth) % 4 <= 1 ==> r is Ok,
        samples@.len() % 2 == 0 ==> (r matches Ok(b) ==> (flac_decoded(b@) matches Some(d) && d.len()
            >= samples@.len() && d.take(samples@.len() as int) == samples@)),
        r matches Err(m) ==> starts_with(m@, "flac config: "@) || starts_with(m@, "flac encode: "@) || starts_with(
            m@,
            "flac serialize: "@,
        ),
{
    let bits = flac_bits(bit_depth);
    let config = match flac_config() {
        Ok(c) => c,
        Err(e) => {
            let m = prefixed("flac config: ", e);
            assert(m@.take("flac config: "@.len() as int) =~= "flac config: "@);
            return Err(m);
        },
    };
    match flac_encode(&config, samples, 2, bits as usize, sample_rate as usize) {
        Ok(bytes) => Ok(bytes),
        Err(FlacFailure::Encode(e)) => {
            let m = prefixed("flac encode: ", e);
            assert(m@.take("flac encode: "@.len() as int) =~= "flac encode: "@);
            Err(m)
        },
        Err(FlacFailure::Serialize(e)) => {
            let m = prefixed("flac serialize: ", e);
            assert(m@.take("flac serialize: "@.len() as int) =~= "flac serialize: "@);
            Err(m)
        },
    }
}

// ---------------------------------------------------------------------------
// MP3

/// The bitrates (kbps) shine's table offers at a sample rate: MPEG-1 rates
/// (32, 44.1, 48 kHz) take 32 to 320, MPEG-2 rates (16, 22.05, 24 kHz) 8 to
/// 160, MPEG-2.5 rates (8, 11.025, 12 kHz) 8 to 64; other rates none.
pub open spec fn mp3_bitrate_allowed(sample_rate: u32, bitrate_kbps: u32) -> bool {
    if sample_rate == 32000 || sample_rate == 44100 || sample_rate == 48000 {
        seq![32u32, 40, 48, 56, 64, 80, 96, 112, 128, 160, 192, 224, 256, 320].contains(bitrate_kbps)
    } else if sample_rate == 16000 || sample_rate == 22050 || sample_rate == 24000 {
        seq![8u32, 16, 24, 32, 40, 48, 56, 64, 80, 96, 112, 128, 144, 160].contains(bitrate_kbps)
    } else if sample_rate == 8000 || sample_rate == 11025 || sample_rate == 12000 {
        seq![8u32, 16, 24, 32, 40, 48, 56, 64].contains(bitrate_kbps)
    } else {
        false
    }
}

/// What an MP3 encoder has been through, as its calls show it: the rate and
/// bitrate it was set up with, every sample handed to `encode_interleaved`
/// (in order, encoded or still waiting for a whole frame), every byte it
/// has returned (frames, then the tail from `finish`, in order), and
/// whether it has been finished.
pub struct Mp3EncoderView {
    pub sample_rate: u32,
    pub bitrate_kbps: u32,
    pub fed: Seq<i16>,
    pub emitted: Seq<u8>,
    pub finished: bool,
}

/// The history of an MP3 encoder.
pub uninterp spec fn mp3_state(encoder: shine_rs::Mp3Encoder) -> Mp3EncoderView;

/// Byte chunks joined in order.
pub open spec fn joined(chunks: Seq<Seq<u8>>) -> Seq<u8>
    decreases chunks.len(),
{
    if chunks.len() == 0 {
        Seq::empty()
    } else {
        joined(chunks.drop_last()) + chunks.last()
    }
}

/// The byte chunks of a list of frames.
pub open spec fn frame_bytes(frames: Seq<Vec<u8>>) -> Seq<Seq<u8>> {
    frames.map_values(|f: Vec<u8>| f@)
}

/// Sets up shine's MP3 encoder for interleaved stereo at `sample_rate` and
/// `bitrate_kbps` in joint stereo (`Mp3EncoderConfig` built from those
/// values, then `Mp3Encoder::new`). Claims that it succeeds exactly when the
/// rate and bitrate are a pair of shine's tables: `Mp3EncoderConfig::validate`
/// checks the rate and bitrate lists and `shine_check_config`, and
/// `shine_initialise` refuses only what that check refuses. A new encoder
/// has been handed nothing, returned nothing and is not finished. The error
/// is the encoder's `Debug` text.
#[verifier::external_body]
fn mp3_encoder(sample_rate: u32, bitrate_kbps: u32) -> (r: Result<shine_rs::Mp3Encoder, String>)
    ensures
        r is Ok <==> mp3_bitrate_allowed(sample_rate, bitrate_kbps),
        r matches Ok(e) ==> mp3_state(e) == (Mp3EncoderView {
            sample_rate,
            bitrate_kbps,
            fed: Seq::<i16>::empty(),
            emitted: Seq::<u8>::empty(),
            finished: false,
        }),
{
    let config = shine_rs::Mp3EncoderConfig::new().sample_rate(sample_rate).bitrate(bitrate_kbps).channels(2).stereo_mode(
        shine_rs::StereoMode::JointStereo,
    );
    match shine_rs::Mp3Encoder::new(config) {
        Ok(e) => Ok(e),
        Err(e) => Err(format!("{e:?}")),
    }
}

/// `Mp3Encoder::samples_per_frame`: how many interleaved samples one MP3
/// frame takes. Claims it is positive, as the source computes it from the
/// granules per frame (one or two) times 576 samples times the channels.
#[verifier::external_body]
fn mp3_frame_len(encoder: &shine_rs::Mp3Encoder) -> (n: usize)
    ensures
        n > 0,
{
    encoder.samples_per_frame()
}

/// `Mp3Encoder::encode_interleaved` on one block of samples: the frames it
/// completed. Claims that it succeeds on an encoder not yet finished given
/// a non-empty block (it refuses only a finished encoder and an empty
/// block; the bit writer's own checks guard invariants that a configured
/// encoder keeps), and that a call that succeeds has taken the block in
/// after what the encoder was handed before (`input_buffer.extend`) and
/// returned exactly these frames. The frames' bytes are left unsaid: shine
/// computes them with the platform's `sin`, `cos`, `ln` and `powf`. The
/// error is the encoder's `Debug` text.
#[verifier::external_body]
fn mp3_encode_block(encoder: &mut shine_rs::Mp3Encoder, pcm: &[i16]) -> (r: Result<Vec<Vec<u8>>, String>)
    ensures
        !mp3_state(*old(encoder)).finished && pcm@.len() > 0 ==> r is Ok,
        r matches Ok(frames) ==> mp3_state(*final(encoder)) == (Mp3EncoderView {
            fed: mp3_state(*old(encoder)).fed + pcm@,
            emitted: mp3_state(*old(encoder)).emitted + joined(frame_bytes(frames@)),
            ..mp3_state(*old(encoder))
        }),
{
    match encoder.encode_interleaved(pcm) {
        Ok(frames) => Ok(frames),
        Err(e) => Err(format!("{e:?}")),
    }
}

/// `Mp3Encoder::finish`: the bytes of the last, zero-padded frame and the
/// flushed bit reservoir. Claims that it succeeds on an encoder not yet
/// finished (the padding frame is encoded as any other, and the flush
/// cannot fail), leaving it finished with these bytes returned after the
/// earlier ones; a finished encoder gives no bytes and stays as it is. The
/// error is the encoder's `Debug` text.
#[verifier::external_body]
fn mp3_finish(encoder: &mut shine_rs::Mp3Encoder) -> (r: Result<Vec<u8>, String>)
    ensures
        !mp3_state(*old(encoder)).finished ==> (r matches Ok(tail) && mp3_state(*final(encoder)) == (Mp3EncoderView {
            emitted: mp3_state(*old(encoder)).emitted + tail@,
            finished: true,
            ..mp3_state(*old(encoder))
        })),
        mp3_state(*old(encoder)).finished ==> (r matches Ok(tail) && tail@.len() == 0 && mp3_state(*final(encoder))
            == mp3_state(*old(encoder))),
{
    match encoder.finish() {
        Ok(tail) => Ok(tail),
        Err(e) => Err(format!("{e:?}")),
    }
}

/// The message for a sample rate the MP3 encoder does not take.
pub open spec fn mp3_rate_message(sample_rate: u32) -> Seq<char> {
    "MP3 export does not support "@ + decimal(sample_rate as nat) + " Hz — choose 32000/44100/48000"@
}

proof fn lemma_joined_push(chunks: Seq<Seq<u8>>, c: Seq<u8>)
    ensures
        joined(chunks.push(c)) == joined(chunks) + c,
{
    assert(chunks.push(c).drop_last() =~= chunks);
}

/// Hands all of `pcm` to an encoder, one frame's worth at a time, in order,
/// appending the frames it completes to `out`. On an encoder not yet
/// finished it succeeds; then the encoder has been handed `pcm` after what
/// it had before, and has returned exactly the bytes added to `out`. A
/// failure is `mp3 encode: ` and the encoder's words.
pub fn mp3_feed(encoder: &mut shine_rs::Mp3Encoder, pcm: &[i16], out: &mut Vec<u8>) -> (r: Result<(), String>)
    ensures
        !mp3_state(*old(encoder)).finished ==> r is Ok,
        r is Ok ==> exists|added: Seq<u8>|
            #![trigger old(out)@ + added]
            final(out)@ == old(out)@ + added && mp3_state(*final(encoder)) == (Mp3EncoderView {
                fed: mp3_state(*old(encoder)).fed + pcm@,
                emitted: mp3_state(*old(encoder)).emitted + added,
                ..mp3_state(*old(encoder))
            }),
        r matches Err(m) ==> starts_with(m@, "mp3 encode: "@),
{
    let ghost s0 = mp3_state(*encoder);
    let ghost out0 = out@;
    let frame_len = mp3_frame_len(encoder);
    let mut cursor: usize = 0;
    while cursor < pcm.len()
        invariant
            0 <= cursor <= pcm@.len(),
            frame_len > 0,
            s0 == mp3_state(*old(encoder)),
            out0 == old(out)@,
            out0.len() <= out@.len(),
            out@ == out0 + out@.skip(out0.len() as int),
            mp3_state(*encoder) == (Mp3EncoderView {
                fed: s0.fed + pcm@.take(cursor as int),
                emitted: s0.emitted + out@.skip(out0.len() as int),
                ..s0
            }),
        decreases pcm@.len() - cursor,
    {
        let end = if frame_len < pcm.len() - cursor { cursor + frame_len } else { pcm.len() };
        let block = vstd::slice::slice_subrange(pcm, cursor, end);
        let ghost before = out@;
        let frames = match mp3_encode_block(encoder, block) {
            Ok(f) => f,
            Err(e) => {
                let m = prefixed("mp3 encode: ", e);
                assert(m@.take("mp3 encode: "@.len() as int) =~= "mp3 encode: "@);
                return Err(m);
            },
        };
        let mut k: usize = 0;
        while k < frames.len()
            invariant
                0 <= k <= frames@.len(),
                out@ == before + joined(frame_bytes(frames@).take(k as int)),
            decreases frames@.len() - k,
        {
            out.extend_from_slice(frames[k].as_slice());
            proof {
                assert(frame_bytes(frames@).take(k as int + 1) =~= frame_bytes(frames@).take(k as int).push(frames@[k as int]@));
                lemma_joined_push(frame_bytes(frames@).take(k as int), frames@[k as int]@);
            }
            k = k + 1;
        }
        proof {
            assert(frame_bytes(frames@).take(k as int) =~= frame_bytes(frames@));
            assert(pcm@.take(end as int) =~= pcm@.take(cursor as int) + block@);
            assert(out@.skip(out0.len() as int) =~= before.skip(out0.len() as int) + joined(frame_bytes(frames@)));
            assert(out@ =~= out0 + out@.skip(out0.len() as int));
            assert(s0.fed + pcm@.take(end as int) =~= (s0.fed + pcm@.take(cursor as int)) + block@);
            assert(s0.emitted + out@.skip(out0.len() as int) =~= (s0.emitted + before.skip(out0.len() as int))
                + joined(frame_bytes(frames@)));
        }
        cursor = end;
    }
    proof {
        assert(pcm@.take(cursor as int) =~= pcm@);
    }
    Ok(())
}

/// The bytes of a constant-bitrate joint-stereo MP3 file holding
/// interleaved 16-bit samples: what an encoder set up at this rate and
/// bitrate returns when handed exactly `pcm`, one frame's worth at a time
/// and in order, and then finished. It succeeds exactly when the rate and
/// bitrate are a pair the encoder takes. A rate the encoder does not take
/// is refused before anything else; a bitrate the encoder's table lacks for
/// that rate fails at set-up with `mp3 init: ` and the encoder's words.
pub fn encode_mp3(pcm: &[i16], sample_rate: u32, bitrate_kbps: u32) -> (r: Result<Vec<u8>, String>)
    ensures
        !mp3_rates().contains(sample_rate) ==> (r matches Err(m) && m@ == mp3_rate_message(sample_rate)),
        mp3_rates().contains(sample_rate) && !mp3_bitrate_allowed(sample_rate, bitrate_kbps) ==> (r matches Err(m)
            && starts_with(m@, "mp3 init: "@)),
        mp3_rates().contains(sample_rate) && mp3_bitrate_allowed(sample_rate, bitrate_kbps) ==> r is Ok,
        r matches Ok(v) ==> exists|e: shine_rs::Mp3Encoder| #[trigger] mp3_state(e) == (Mp3EncoderView {
            sample_rate,
            bitrate_kbps,
            fed: pcm@,
            emitted: v@,
            finished: true,
        }),
{
    match check_mp3_rate(sample_rate) {
        Ok(()) => {},
        Err(m) => return Err(m),
    }
    let mut encoder = match mp3_encoder(sample_rate, bitrate_kbps) {
        Ok(e) => e,
        Err(e) => {
            let m = prefixed("mp3 init: ", e);
            assert(m@.take("mp3 init: "@.len() as int) =~= "mp3 init: "@);
            return Err(m);
        },
    };
    let mut out: Vec<u8> = Vec::new();
    match mp3_feed(&mut encoder, pcm, &mut out) {
        Ok(()) => {},
        Err(m) => return Err(m),
    }
    proof {
        let added = choose|added: Seq<u8>| out@ == Seq::<u8>::empty() + added && mp3_state(encoder) == (Mp3EncoderView {
            fed: Seq::<i16>::empty() + pcm@,
            emitted: Seq::<u8>::empty() + added,
            sample_rate,
            bitrate_kbps,
            finished: false,
        });
        assert(Seq::<u8>::empty() + added =~= added);
        assert(Seq::<i16>::empty() + pcm@ =~= pcm@);
    }
    match mp3_finish(&mut encoder) {
        Ok(tail) => {
            out.extend_from_slice(tail.as_slice());
            assert(mp3_state(encoder).emitted == out@);
            Ok(out)
        },
        Err(e) => {
            let m = prefixed("mp3 finish: ", e);
            Err(m)
        },
    }
}

} // verus!
