//! Export choices that do not touch audio: the normalize and dither modes
//! the UI names, the dither noise generator's integer core, which container
//! a path asks for, stem file names, and the sample rates MP3 allows.

use vstd::prelude::*;
use crate::browser::{eq_ignore_ascii_case, eq_ignore_ascii_case_spec};
use crate::text::{
    char_is_alphanumeric, extension_of, path_extension, push_decimal, decimal, str_eq, trim, trim_spec,
    unicode_alphanumeric,
};

verus! {

/// Loudness normalization applied before writing.
#[derive(Debug, Clone, Copy, PartialEq, Eq, Structural)]
pub enum NormalizeMode {
    Off,
    Peak,
    Lufs,
}

impl NormalizeMode {
    /// The mode the UI names: `peak`, `lufs`, and anything else is off.
    pub fn parse(s: &str) -> (m: NormalizeMode)
        ensures
            m == (if s@ == "peak"@ {
                NormalizeMode::Peak
            } else if s@ == "lufs"@ {
                NormalizeMode::Lufs
            } else {
                NormalizeMode::Off
            }),
    {
        if str_eq(s, "peak") {
            NormalizeMode::Peak
        } else if str_eq(s, "lufs") {
            NormalizeMode::Lufs
        } else {
            NormalizeMode::Off
        }
    }
}

/// Dither applied when reducing to integer samples.
#[derive(Debug, Clone, Copy, PartialEq, Eq, Structural)]
pub enum DitherMode {
    Off,
    Tpdf,
    TpdfShaped,
}

impl DitherMode {
    /// The mode the UI names: `triangular` or `tpdf` is triangular noise;
    /// `tpdf_shaped`, `noise_shaped` or `shaped` is shaped noise; anything
    /// else is off.
    pub fn parse(s: &str) -> (m: DitherMode)
        ensures
            m == (if s@ == "triangular"@ || s@ == "tpdf"@ {
                DitherMode::Tpdf
            } else if s@ == "tpdf_shaped"@ || s@ == "noise_shaped"@ || s@ == "shaped"@ {
                DitherMode::TpdfShaped
            } else {
                DitherMode::Off
            }),
    {
        if str_eq(s, "triangular") || str_eq(s, "tpdf") {
            DitherMode::Tpdf
        } else if str_eq(s, "tpdf_shaped") || str_eq(s, "noise_shaped") || str_eq(s, "shaped") {
            DitherMode::TpdfShaped
        } else {
            DitherMode::Off
        }
    }
}

/// One step of xorshift32 (shifts 13, 17, 5).
pub open spec fn xorshift32(x: u32) -> u32 {
    let a = x ^ (x << 13u32);
    let b = a ^ (a >> 17u32);
    b ^ (b << 5u32)
}

/// The generator's state after `n` draws from `state`.
pub open spec fn xorshift32_iter(state: u32, n: nat) -> u32
    decreases n,
{
    if n == 0 {
        state
    } else {
        xorshift32(xorshift32_iter(state, (n - 1) as nat))
    }
}

/// The dither noise generator: xorshift32, seeded so that one project
/// renders to the same bytes every time.
#[derive(Debug)]
pub struct DitherRng {
    pub state: u32,
}

impl DitherRng {
    /// A generator from `seed`; a zero seed, which would stay zero forever,
    /// is replaced by 0xdeadbeef.
    pub fn new(seed: u32) -> (r: DitherRng)
        ensures
            r.state == (if seed == 0 { 0xdead_beefu32 } else { seed }),
    {
        DitherRng { state: if seed == 0 { 0xdead_beef } else { seed } }
    }

    /// The next number, which is also the new state.
    pub fn next_u32(&mut self) -> (x: u32)
        ensures
            x == xorshift32(old(self).state),
            final(self).state == x,
    {
        let mut x = self.state;
        x = x ^ (x << 13u32);
        x = x ^ (x >> 17u32);
        x = x ^ (x << 5u32);
        self.state = x;
        x
    }
}

/// Xorshift never reaches zero from a non-zero state, so a generator that
/// starts non-zero (as every `DitherRng` does) keeps producing noise.
pub proof fn lemma_xorshift_never_zero(x: u32)
    requires
        x != 0,
    ensures
        xorshift32(x) != 0,
{
    let a = x ^ (x << 13u32);
    assert(a != 0) by (bit_vector)
        requires
            x != 0,
            a == x ^ (x << 13u32),
    ;
    let b = a ^ (a >> 17u32);
    assert(b != 0) by (bit_vector)
        requires
            a != 0,
            b == a ^ (a >> 17u32),
    ;
    let c = b ^ (b << 5u32);
    assert(c != 0) by (bit_vector)
        requires
            b != 0,
            c == b ^ (b << 5u32),
    ;
}

/// Every state a generator passes through is non-zero.
pub proof fn lemma_states_stay_nonzero(seed: u32, n: nat)
    requires
        seed != 0,
    ensures
        xorshift32_iter(seed, n) != 0,
    decreases n,
{
    if n > 0 {
        lemma_states_stay_nonzero(seed, (n - 1) as nat);
        lemma_xorshift_never_zero(xorshift32_iter(seed, (n - 1) as nat));
    }
}

/// Whether a path's extension is `ext`, in any ASCII case.
pub open spec fn has_extension(path: Seq<char>, ext: Seq<char>) -> bool {
    match path_extension(path) {
        Some(e) => eq_ignore_ascii_case_spec(e, ext),
        None => false,
    }
}

/// Whether the path names a FLAC file.
pub fn is_flac_path(path: &str) -> (r: bool)
    ensures
        r == has_extension(path@, "flac"@),
{
    match extension_of(path) {
        Some(e) => eq_ignore_ascii_case(e.as_str(), "flac"),
        None => false,
    }
}

/// Whether the path names an MP3 file.
pub fn is_mp3_path(path: &str) -> (r: bool)
    ensures
        r == has_extension(path@, "mp3"@),
{
    match extension_of(path) {
        Some(e) => eq_ignore_ascii_case(e.as_str(), "mp3"),
        None => false,
    }
}

/// The file format an export writes.
#[derive(Debug, Clone, Copy, PartialEq, Eq, Structural)]
pub enum RenderContainer {
    Flac,
    Mp3,
    Wav,
}

/// The format a path asks for: `.flac`, then `.mp3`, and WAV for anything
/// else.
pub fn render_container(path: &str) -> (c: RenderContainer)
    ensures
        c == (if has_extension(path@, "flac"@) {
            RenderContainer::Flac
        } else if has_extension(path@, "mp3"@) {
            RenderContainer::Mp3
        } else {
            RenderContainer::Wav
        }),
{
    if is_flac_path(path) {
        RenderContainer::Flac
    } else if is_mp3_path(path) {
        RenderContainer::Mp3
    } else {
        RenderContainer::Wav
    }
}

/// The sample rates the MP3 encoder supports.
pub open spec fn mp3_rates() -> Seq<u32> {
    seq![8000u32, 11025, 12000, 16000, 22050, 24000, 32000, 44100, 48000]
}

/// Refuses a sample rate the MP3 encoder cannot take, with the message the
/// export shows.
pub fn check_mp3_rate(sample_rate: u32) -> (r: Result<(), String>)
    ensures
        mp3_rates().contains(sample_rate) ==> r is Ok,
        !mp3_rates().contains(sample_rate) ==> (r matches Err(m) && m@ == "MP3 export does not support "@
            + decimal(sample_rate as nat) + " Hz — choose 32000/44100/48000"@),
{
    let rates: [u32; 9] = [8000, 11025, 12000, 16000, 22050, 24000, 32000, 44100, 48000];
    assert(rates@ =~= mp3_rates());
    let mut k: usize = 0;
    while k < 9
        invariant
            0 <= k <= 9,
            rates@ == mp3_rates(),
            forall|j: int| 0 <= j < k ==> rates@[j] != sample_rate,
        decreases 9 - k,
    {
        if rates[k] == sample_rate {
            assert(mp3_rates()[k as int] == sample_rate);
            return Ok(());
        }
        k = k + 1;
    }
    assert(!mp3_rates().contains(sample_rate));
    let mut m = String::from_str("MP3 export does not support ");
    push_decimal(&mut m, sample_rate as u64);
    m.append(" Hz — choose 32000/44100/48000");
    Err(m)
}

/// A character kept in a stem's file name: letters and digits, `_`, `-`
/// and space; anything else becomes `_`.
pub open spec fn file_name_char(c: char) -> char {
    if unicode_alphanumeric(c) || c == '_' || c == '-' || c == ' ' {
        c
    } else {
        '_'
    }
}

/// A track name made safe as a file name: characters mapped as above,
/// surrounding spaces trimmed (no dot survives the mapping, so none is left
/// to trim), and `track` when nothing is left.
pub open spec fn sanitize_filename_spec(name: Seq<char>) -> Seq<char> {
    let mapped = name.map_values(|c: char| file_name_char(c));
    if trim_spec(mapped).len() == 0 {
        "track"@
    } else {
        trim_spec(mapped)
    }
}

/// A stem's file name from its track's name.
pub fn sanitize_filename(name: &str) -> (r: String)
    ensures
        r@ == sanitize_filename_spec(name@),
{
    let n = name.unicode_len();
    let mut out = String::new();
    let mut i: usize = 0;
    while i < n
        invariant
            n == name@.len(),
            0 <= i <= n,
            out@ == name@.take(i as int).map_values(|c: char| file_name_char(c)),
        decreases n - i,
    {
        let ch = name.get_char(i);
        if char_is_alphanumeric(ch) || ch == '_' || ch == '-' || ch == ' ' {
            out.push(ch);
        } else {
            out.push('_');
        }
        assert(name@.take(i as int + 1) =~= name@.take(i as int).push(ch));
        assert(out@ =~= name@.take(i as int + 1).map_values(|c: char| file_name_char(c)));
        i = i + 1;
    }
    assert(name@.take(n as int) =~= name@);
    let t = trim(out.as_str());
    if t.as_str().unicode_len() == 0 {
        String::from_str("track")
    } else {
        t
    }
}


/// The refusal of an export when the project holds nothing.
pub open spec fn empty_project_message() -> Seq<char> {
    "Project is empty — nothing to export."@
}

/// Where an export starts and how long its body runs: the chosen range when
/// one is given and ends after it starts, else the whole project from 0.
pub open spec fn export_range_spec(body_samples: u64, start: Option<u64>, end: Option<u64>) -> (u64, u64) {
    match (start, end) {
        (Some(s), Some(e)) => if e > s { (s, (e - s) as u64) } else { (0, body_samples) },
        _ => (0, body_samples),
    }
}

/// The start and body length of an export, in samples; an empty project
/// (no samples) is refused.
pub fn export_range(body_samples: u64, start: Option<u64>, end: Option<u64>) -> (r: Result<(u64, u64), String>)
    ensures
        body_samples == 0 <==> (r matches Err(m) && m@ == empty_project_message()),
        body_samples != 0 ==> r == Ok::<(u64, u64), String>(export_range_spec(body_samples, start, end)),
{
    if body_samples == 0 {
        return Err(String::from_str("Project is empty — nothing to export."));
    }
    match (start, end) {
        (Some(s), Some(e)) => {
            if e > s {
                Ok((s, e - s))
            } else {
                Ok((0, body_samples))
            }
        },
        _ => Ok((0, body_samples)),
    }
}

/// The file extension of stems in the format the UI names: `flac`, `mp3`,
/// and `wav` for anything else or nothing.
pub open spec fn stem_ext_spec(stem_format: Option<Seq<char>>) -> Seq<char> {
    match stem_format {
        Some(f) => if f == "flac"@ {
            "flac"@
        } else if f == "mp3"@ {
            "mp3"@
        } else {
            "wav"@
        },
        None => "wav"@,
    }
}

/// A track's stem file name: the project and track names made safe, joined
/// by `_`, with the stem extension.
pub open spec fn stem_name_spec(project_name: Seq<char>, track_name: Seq<char>, ext: Seq<char>) -> Seq<char> {
    sanitize_filename_spec(project_name) + "_"@ + sanitize_filename_spec(track_name) + "."@ + ext
}

/// The master stem's file name.
pub open spec fn master_stem_name_spec(project_name: Seq<char>, ext: Seq<char>) -> Seq<char> {
    sanitize_filename_spec(project_name) + "_master."@ + ext
}

/// The refusal of a stem export of a project without tracks.
pub open spec fn no_tracks_message() -> Seq<char> {
    "No tracks to export."@
}

fn stem_ext(stem_format: Option<&str>) -> (e: String)
    ensures
        e@ == stem_ext_spec(match stem_format {
            Some(f) => Some(f@),
            None => None,
        }),
{
    match stem_format {
        Some(f) => {
            if str_eq(f, "flac") {
                String::from_str("flac")
            } else if str_eq(f, "mp3") {
                String::from_str("mp3")
            } else {
                String::from_str("wav")
            }
        },
        None => String::from_str("wav"),
    }
}

/// The file names of a stem export, in render order: one per track, then
/// the master's when it is included. A project without tracks is refused.
pub fn stem_file_names(project_name: &str, track_names: &[String], include_master: bool, stem_format: Option<&str>) -> (r: Result<Vec<String>, String>)
    ensures
        track_names@.len() == 0 <==> (r matches Err(m) && m@ == no_tracks_message()),
        track_names@.len() != 0 ==> r is Ok,
        r matches Ok(v) ==> ({
            let ext = stem_ext_spec(match stem_format {
                Some(f) => Some(f@),
                None => None,
            });
            let n = track_names@.len();
            &&& v@.len() == (if include_master { n + 1 } else { n })
            &&& forall|i: int| 0 <= i < n ==> (#[trigger] v@[i])@ == stem_name_spec(project_name@, track_names@[i]@, ext)
            &&& include_master ==> v@[n as int]@ == master_stem_name_spec(project_name@, ext)
        }),
{
    if track_names.len() == 0 {
        return Err(String::from_str("No tracks to export."));
    }
    let ext = stem_ext(stem_format);
    let slug = sanitize_filename(project_name);
    let mut out: Vec<String> = Vec::new();
    let mut i: usize = 0;
    while i < track_names.len()
        invariant
            0 <= i <= track_names@.len(),
            out@.len() == i,
            slug@ == sanitize_filename_spec(project_name@),
            forall|k: int| 0 <= k < i ==> (#[trigger] out@[k])@ == stem_name_spec(project_name@, track_names@[k]@, ext@),
        decreases track_names@.len() - i,
    {
        let mut name = slug.clone();
        name.append("_");
        let track = sanitize_filename(track_names[i].as_str());
        name.append(track.as_str());
        name.append(".");
        name.append(ext.as_str());
        out.push(name);
        i = i + 1;
    }
    if include_master {
        let mut name = slug.clone();
        name.append("_master.");
        name.append(ext.as_str());
        out.push(name);
    }
    Ok(out)
}

/// The mute switch of each track while the stem of `target` renders: every
/// other track is muted.
pub fn stem_mutes(track_ids: &[String], target: &str) -> (m: Vec<bool>)
    ensures
        m@.len() == track_ids@.len(),
        forall|i: int| 0 <= i < track_ids@.len() ==> m@[i] == (track_ids@[i]@ != target@),
{
    let mut m: Vec<bool> = Vec::new();
    let mut i: usize = 0;
    while i < track_ids.len()
        invariant
            0 <= i <= track_ids@.len(),
            m@.len() == i,
            forall|k: int| 0 <= k < i ==> m@[k] == (track_ids@[k]@ != target@),
        decreases track_ids@.len() - i,
    {
        m.push(!str_eq(track_ids[i].as_str(), target));
        i = i + 1;
    }
    m
}


/// The MP3 bitrate an export asks the encoder for: the one chosen, 320 kbps
/// when none is, held within 8..=320.
pub fn export_mp3_bitrate(chosen: Option<u32>) -> (kbps: u32)
    ensures
        kbps == match chosen {
            Some(k) => if k < 8 { 8 } else if k > 320 { 320 } else { k },
            None => 320,
        },
{
    match chosen {
        Some(k) => if k < 8 { 8 } else if k > 320 { 320 } else { k },
        None => 320,
    }
}

/// A track's mute and solo switches, as a stem render sets them.
#[derive(Debug, Clone, Copy, PartialEq, Eq, Structural)]
pub struct MixSwitches {
    pub muted: bool,
    pub soloed: bool,
    pub solo_safe: bool,
}

/// The switches of one track while a stem renders: for a track's stem
/// (`target`) every other track is muted and it is not; for the master
/// (`None`) mutes stay unless mute and solo are ignored, when all are
/// lifted. Ignoring mute and solo also clears every solo and solo-safe.
pub open spec fn stem_switches_spec(id: Seq<char>, current: MixSwitches, target: Option<Seq<char>>, respect_mute_solo: bool) -> MixSwitches {
    MixSwitches {
        muted: match target {
            Some(t) => id != t,
            None => if respect_mute_solo { current.muted } else { false },
        },
        soloed: respect_mute_solo && current.soloed,
        solo_safe: respect_mute_solo && current.solo_safe,
    }
}

/// Every track's switches while the stem of `target` (or the master, for
/// `None`) renders.
pub fn stem_mix(track_ids: &[String], current: &[MixSwitches], target: Option<&str>, respect_mute_solo: bool) -> (m: Vec<MixSwitches>)
    requires
        track_ids@.len() == current@.len(),
    ensures
        m@.len() == track_ids@.len(),
        forall|i: int| 0 <= i < m@.len() ==> m@[i] == stem_switches_spec(
            track_ids@[i]@,
            current@[i],
            match target {
                Some(t) => Some(t@),
                None => None,
            },
            respect_mute_solo,
        ),
{
    let mut m: Vec<MixSwitches> = Vec::new();
    let mut i: usize = 0;
    while i < track_ids.len()
        invariant
            track_ids@.len() == current@.len(),
            0 <= i <= track_ids@.len(),
            m@.len() == i,
            forall|k: int| 0 <= k < i ==> m@[k] == stem_switches_spec(
                track_ids@[k]@,
                current@[k],
                match target {
                    Some(t) => Some(t@),
                    None => None,
                },
                respect_mute_solo,
            ),
        decreases track_ids@.len() - i,
    {
        let c = current[i];
        let muted = match target {
            Some(t) => !str_eq(track_ids[i].as_str(), t),
            None => respect_mute_solo && c.muted,
        };
        m.push(MixSwitches { muted, soloed: respect_mute_solo && c.soloed, solo_safe: respect_mute_solo && c.solo_safe });
        i = i + 1;
    }
    m
}

} // verus!
