//! Settings kept between sessions and small naming rules: audio device
//! preferences, the label of a detached panel window, a track's defaults,
//! and tempo-synced LFO cycles.

use vstd::prelude::*;

verus! {

/// Audio device preferences, as the audio settings dialog edits them.
#[derive(Debug)]
pub struct AudioPrefs {
    pub output_device: Option<String>,
    pub sample_rate: u32,
    pub buffer_size: u32,
    pub wasapi_exclusive: bool,
    pub input_device: Option<String>,
    pub input_channels: u16,
}

/// The sample rate a preferences file without one gets: 48 kHz.
pub fn default_sample_rate() -> (r: u32)
    ensures
        r == 48000,
{
    48000
}

/// The buffer size a preferences file without one gets: 512 frames.
pub fn default_buffer_size() -> (r: u32)
    ensures
        r == 512,
{
    512
}

/// The input channel count a preferences file without one gets: stereo.
pub fn default_input_channels() -> (r: u16)
    ensures
        r == 2,
{
    2
}

impl AudioPrefs {
    /// The preferences used when none are saved or they cannot be read:
    /// system devices, 48 kHz, 512 frames, shared mode, stereo input.
    pub fn factory() -> (p: AudioPrefs)
        ensures
            p.output_device is None,
            p.sample_rate == 48000,
            p.buffer_size == 512,
            !p.wasapi_exclusive,
            p.input_device is None,
            p.input_channels == 2,
    {
        AudioPrefs {
            output_device: None,
            sample_rate: default_sample_rate(),
            buffer_size: default_buffer_size(),
            wasapi_exclusive: false,
            input_device: None,
            input_channels: default_input_channels(),
        }
    }
}

impl Default for AudioPrefs {
    /// All fields empty or zero; distinct from `factory`, which is what a
    /// missing file gets.
    fn default() -> (p: AudioPrefs)
        ensures
            p.output_device is None,
            p.sample_rate == 0,
            p.buffer_size == 0,
            !p.wasapi_exclusive,
            p.input_device is None,
            p.input_channels == 0,
    {
        AudioPrefs {
            output_device: None,
            sample_rate: 0,
            buffer_size: 0,
            wasapi_exclusive: false,
            input_device: None,
            input_channels: 0,
        }
    }
}

/// An ASCII letter or digit.
pub open spec fn ascii_alnum(c: char) -> bool {
    ('a' <= c && c <= 'z') || ('A' <= c && c <= 'Z') || ('0' <= c && c <= '9')
}

/// The panel id's ASCII letters and digits, in order.
pub open spec fn slug(s: Seq<char>) -> Seq<char> {
    s.filter(|c: char| ascii_alnum(c))
}

/// The label of a panel's detached window: `panel-` and the panel id's
/// ASCII letters and digits, so it matches the `panel-*` capability.
pub fn label_for(panel: &str) -> (label: String)
    ensures
        label@ == "panel-"@ + slug(panel@),
{
    let n = panel.unicode_len();
    let mut label = String::from_str("panel-");
    let mut i: usize = 0;
    while i < n
        invariant
            n == panel@.len(),
            0 <= i <= n,
            label@ == "panel-"@ + panel@.take(i as int).filter(|c: char| ascii_alnum(c)),
        decreases n - i,
    {
        let c = panel.get_char(i);
        proof {
            reveal_with_fuel(Seq::filter, 1);
            assert(panel@.take(i as int + 1).drop_last() =~= panel@.take(i as int));
            assert(panel@.take(i as int + 1).last() == c);
        }
        if ('a' <= c && c <= 'z') || ('A' <= c && c <= 'Z') || ('0' <= c && c <= '9') {
            label.push(c);
        }
        i = i + 1;
    }
    assert(panel@.take(n as int) =~= panel@);
    label
}

/// What a track is.
#[derive(Debug, Clone, Copy, PartialEq, Eq, Structural)]
pub enum TrackKind {
    Audio,
    Midi,
    Bus,
    Return,
    Master,
}

/// Input monitoring is on for a track saved without the setting.
pub fn default_monitor_input() -> (r: bool)
    ensures
        r,
{
    true
}

/// A track saved without a pitch shift has none.
pub fn default_pitch_semitones() -> (r: i32)
    ensures
        r == 0,
{
    0
}

/// The shape of an LFO's cycle.
#[derive(Debug, Clone, Copy, PartialEq, Eq, Structural)]
pub enum LfoShape {
    Sine,
    Triangle,
    Square,
    SawtoothUp,
    SawtoothDown,
    RandomSampleAndHold,
}

/// Ticks in one cycle of an LFO synced to `num/den` of a whole note (four
/// quarter notes of `ppq` ticks), rounded down; a zero numerator or
/// denominator gives a cycle so long it never repeats (half of `u64::MAX`).
pub open spec fn tempo_sync_cycle_spec(num: u32, den: u32, ppq: u64) -> int {
    if den > 0 && num > 0 {
        (4 * ppq * num) / (den as int)
    } else {
        (u64::MAX / 2) as int
    }
}

/// The cycle length in ticks of a tempo-synced LFO.
pub fn tempo_sync_cycle_ticks(num: u32, den: u32, ppq: u64) -> (t: u64)
    requires
        4 * ppq * num <= u64::MAX,
    ensures
        t == tempo_sync_cycle_spec(num, den, ppq),
{
    if den > 0 && num > 0 {
        assert(4 * ppq <= 4 * ppq * num) by (nonlinear_arith)
            requires
                num > 0,
        ;
        let whole_note = 4 * ppq;
        whole_note * (num as u64) / (den as u64)
    } else {
        u64::MAX / 2
    }
}

} // verus!
