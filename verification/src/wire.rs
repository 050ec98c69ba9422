//! Records the window and the core exchange, with the small decisions made
//! on them: automation targets and curves as the UI names them, the
//! timecode rates accepted, take file names, and the auto-saves kept.

use vstd::prelude::*;
use crate::automation::{sort_by_tick, stably_sorted, AutomationTarget, CurveMode};
use crate::text::{decimal, push_decimal};

verus! {

/// An arrangement as the switcher lists it.
#[derive(Debug)]
pub struct ArrangementInfo {
    pub id: String,
    pub name: String,
    pub active: bool,
}

/// An output device as the audio settings list it.
#[derive(Debug)]
pub struct AudioDeviceInfo {
    pub name: String,
    pub is_default: bool,
    pub sample_rates: Vec<u32>,
    pub max_channels: u16,
}

/// The output configuration in use.
#[derive(Debug)]
pub struct AudioConfig {
    pub device: Option<String>,
    pub sample_rate: u32,
    pub buffer_size: u32,
}

/// Whether WASAPI exclusive mode is on and whether it can be.
#[derive(Debug)]
pub struct WasapiExclusiveStatus {
    pub enabled: bool,
    pub available: bool,
}

/// The input configuration in use.
#[derive(Debug)]
pub struct AudioInputConfig {
    pub device: Option<String>,
    pub channels: u16,
}

/// Which MIDI inputs are open and how long since one spoke.
#[derive(Debug)]
pub struct MidiActivitySnapshot {
    pub open_ports: Vec<String>,
    pub ms_since_last_event: Option<u64>,
}

/// MIDI clock output state.
#[derive(Debug)]
pub struct MidiClockStatus {
    pub enabled: bool,
    pub open_ports: Vec<String>,
}

/// MIDI time code output state.
#[derive(Debug)]
pub struct MidiTimecodeStatus {
    pub enabled: bool,
    pub fps: u32,
}

/// A plug-in a project uses that is not installed.
#[derive(Debug)]
pub struct MissingPluginInfo {
    pub plugin_id: String,
    pub track_id: String,
    pub track_name: String,
    pub slot_id: String,
    pub slot_index: usize,
}

/// The project information dialog's fields.
#[derive(Debug)]
pub struct ProjectInfoMeta {
    pub title: String,
    pub author: String,
    pub genre: String,
    pub info: String,
    pub url: String,
    pub show_on_open: bool,
    pub working_time_seconds: u64,
}

/// How far a count-in has got: beats counted and the total.
#[derive(Debug)]
pub struct CountInState {
    pub active: bool,
    pub beat: u32,
    pub total_beats: u32,
}

/// An automation lane's target as the UI sends it.
#[derive(Debug)]
pub enum LaneTargetSpec {
    TrackVolume,
    TrackPan,
    TrackMute,
    PluginParam { slot_id: String, param_id: u32 },
    SendLevel { send_index: usize },
}

/// The project's target for the one the UI names: variant for variant.
pub open spec fn lane_target_spec(t: LaneTargetSpec) -> AutomationTarget {
    match t {
        LaneTargetSpec::TrackVolume => AutomationTarget::TrackVolume,
        LaneTargetSpec::TrackPan => AutomationTarget::TrackPan,
        LaneTargetSpec::TrackMute => AutomationTarget::TrackMute,
        LaneTargetSpec::PluginParam { slot_id, param_id } => AutomationTarget::PluginParam { slot_id, param_id },
        LaneTargetSpec::SendLevel { send_index } => AutomationTarget::SendLevel { send_index },
    }
}

impl LaneTargetSpec {
    /// The project's automation target.
    pub fn into_target(self) -> (t: AutomationTarget)
        ensures
            t == lane_target_spec(self),
    {
        match self {
            LaneTargetSpec::TrackVolume => AutomationTarget::TrackVolume,
            LaneTargetSpec::TrackPan => AutomationTarget::TrackPan,
            LaneTargetSpec::TrackMute => AutomationTarget::TrackMute,
            LaneTargetSpec::PluginParam { slot_id, param_id } => AutomationTarget::PluginParam { slot_id, param_id },
            LaneTargetSpec::SendLevel { send_index } => AutomationTarget::SendLevel { send_index },
        }
    }
}

/// A curve as the UI sends it.
#[derive(Debug, Clone, Copy, PartialEq, Eq, Structural)]
pub enum CurveSpec {
    Linear,
    Bezier,
    Step,
    Stairs,
    SmoothStairs,
}

impl CurveSpec {
    /// The project's curve mode: variant for variant.
    pub fn into_curve(self) -> (c: CurveMode)
        ensures
            c == match self {
                CurveSpec::Linear => CurveMode::Linear,
                CurveSpec::Bezier => CurveMode::Bezier,
                CurveSpec::Step => CurveMode::Step,
                CurveSpec::Stairs => CurveMode::Stairs,
                CurveSpec::SmoothStairs => CurveMode::SmoothStairs,
            },
    {
        match self {
            CurveSpec::Linear => CurveMode::Linear,
            CurveSpec::Bezier => CurveMode::Bezier,
            CurveSpec::Step => CurveMode::Step,
            CurveSpec::Stairs => CurveMode::Stairs,
            CurveSpec::SmoothStairs => CurveMode::SmoothStairs,
        }
    }
}

/// An automation lane's target as the UI reads it.
#[derive(Debug)]
pub enum AutomationTargetInfo {
    TrackVolume,
    TrackPan,
    TrackMute,
    PluginParam { slot_id: String, param_id: u32 },
    SendLevel { send_index: usize },
}

/// The UI's reading of a project target: variant for variant, the slot id
/// by its characters.
pub open spec fn target_info_matches(i: AutomationTargetInfo, t: AutomationTarget) -> bool {
    match (i, t) {
        (AutomationTargetInfo::TrackVolume, AutomationTarget::TrackVolume) => true,
        (AutomationTargetInfo::TrackPan, AutomationTarget::TrackPan) => true,
        (AutomationTargetInfo::TrackMute, AutomationTarget::TrackMute) => true,
        (
            AutomationTargetInfo::PluginParam { slot_id: a, param_id: p },
            AutomationTarget::PluginParam { slot_id: b, param_id: q },
        ) => a@ == b@ && p == q,
        (AutomationTargetInfo::SendLevel { send_index: a }, AutomationTarget::SendLevel { send_index: b }) => a == b,
        _ => false,
    }
}

/// The UI's reading of a lane's target.
pub fn target_info(t: &AutomationTarget) -> (i: AutomationTargetInfo)
    ensures
        target_info_matches(i, *t),
{
    match t {
        AutomationTarget::TrackVolume => AutomationTargetInfo::TrackVolume,
        AutomationTarget::TrackPan => AutomationTargetInfo::TrackPan,
        AutomationTarget::TrackMute => AutomationTargetInfo::TrackMute,
        AutomationTarget::PluginParam { slot_id, param_id } => AutomationTargetInfo::PluginParam {
            slot_id: slot_id.clone(),
            param_id: *param_id,
        },
        AutomationTarget::SendLevel { send_index } => AutomationTargetInfo::SendLevel { send_index: *send_index },
    }
}

/// Time code is sent at 24, 25 or 30 frames per second only.
pub fn check_mtc_fps(fps: u32) -> (r: Result<(), String>)
    ensures
        (fps == 24 || fps == 25 || fps == 30) ==> r is Ok,
        !(fps == 24 || fps == 25 || fps == 30) ==> (r matches Err(m)
            && m@ == "MTC fps must be 24, 25, or 30 (got "@ + decimal(fps as nat) + ")"@),
{
    if fps == 24 || fps == 25 || fps == 30 {
        Ok(())
    } else {
        let mut m = String::from_str("MTC fps must be 24, 25, or 30 (got ");
        push_decimal(&mut m, fps as u64);
        m.append(")");
        Err(m)
    }
}

/// The `n`-th file name tried for a take stamped `base` (`Take <date>`):
/// the first is `<base>.wav`, later ones `<base> (n).wav` from 2 on.
pub open spec fn take_file_name_spec(base: Seq<char>, n: nat) -> Seq<char> {
    if n <= 1 {
        base + ".wav"@
    } else {
        base + " ("@ + decimal(n) + ").wav"@
    }
}

/// A take's file name for the `n`-th attempt.
pub fn take_file_name(base: &str, n: u32) -> (name: String)
    ensures
        name@ == take_file_name_spec(base@, n as nat),
{
    let mut name = String::from_str(base);
    if n <= 1 {
        name.append(".wav");
    } else {
        name.append(" (");
        push_decimal(&mut name, n as u64);
        name.append(").wav");
    }
    name
}

/// The newest auto-save found.
#[derive(Debug)]
pub struct AutosaveInfo {
    pub path: String,
    pub modified_unix: u64,
}

/// A file seen in the auto-save folder: its path, its file name when it
/// has one, and its modification time in Unix seconds.
#[derive(Debug)]
pub struct FolderFile {
    pub path: String,
    pub file_name: Option<String>,
    pub modified_unix: u64,
}

/// Whether `s` starts with `p`.
pub open spec fn starts_with(s: Seq<char>, p: Seq<char>) -> bool {
    p.len() <= s.len() && s.take(p.len() as int) == p
}

/// Whether `s` ends with `p`.
pub open spec fn ends_with(s: Seq<char>, p: Seq<char>) -> bool {
    p.len() <= s.len() && s.skip(s.len() - p.len()) == p
}

/// A file the auto-saver wrote: `autosave-….hwp`.
pub open spec fn is_autosave(f: FolderFile) -> bool {
    f.file_name matches Some(n) && starts_with(n@, "autosave-"@) && ends_with(n@, ".hwp"@)
}

/// The newest auto-save among `files`, as (index, time): the first file
/// with the latest time, a later file replacing the pick only when strictly
/// newer.
pub open spec fn newest_spec(files: Seq<FolderFile>) -> Option<(int, u64)>
    decreases files.len(),
{
    if files.len() == 0 {
        None
    } else {
        let earlier = newest_spec(files.drop_last());
        let f = files.last();
        if !is_autosave(f) {
            earlier
        } else {
            match earlier {
                Some((k, t)) if t >= f.modified_unix => Some((k, t)),
                _ => Some((files.len() - 1, f.modified_unix)),
            }
        }
    }
}

fn text_starts_with(s: &str, p: &str) -> (r: bool)
    ensures
        r == starts_with(s@, p@),
{
    let n = s.unicode_len();
    let m = p.unicode_len();
    if m > n {
        return false;
    }
    assert(s@.subrange(0, m as int) =~= s@.take(m as int));
    crate::text::str_eq(s.substring_char(0, m), p)
}

fn text_ends_with(s: &str, p: &str) -> (r: bool)
    ensures
        r == ends_with(s@, p@),
{
    let n = s.unicode_len();
    let m = p.unicode_len();
    if m > n {
        return false;
    }
    assert(s@.subrange(n - m, n as int) =~= s@.skip(n - m));
    crate::text::str_eq(s.substring_char(n - m, n), p)
}

/// The most recent auto-save among the files of the auto-save folder.
pub fn newest_autosave(files: &Vec<FolderFile>) -> (r: Option<AutosaveInfo>)
    ensures
        match newest_spec(files@) {
            Some((k, t)) => r matches Some(a) && a.path@ == files@[k].path@ && a.modified_unix == t,
            None => r is None,
        },
{
    let mut newest: Option<AutosaveInfo> = None;
    let ghost mut pick: Option<(int, u64)> = None;
    let mut i: usize = 0;
    while i < files.len()
        invariant
            0 <= i <= files@.len(),
            pick == newest_spec(files@.take(i as int)),
            match pick {
                Some((k, t)) => 0 <= k < i && (newest matches Some(a) && a.path@ == files@[k].path@ && a.modified_unix == t),
                None => newest is None,
            },
        decreases files@.len() - i,
    {
        proof {
            assert(files@.take(i as int + 1).drop_last() =~= files@.take(i as int));
            assert(files@.take(i as int + 1).last() == files@[i as int]);
        }
        let f = &files[i];
        let name_ok = match &f.file_name {
            Some(n) => text_starts_with(n.as_str(), "autosave-") && text_ends_with(n.as_str(), ".hwp"),
            None => false,
        };
        if name_ok {
            let keep = match &newest {
                Some(n) => n.modified_unix >= f.modified_unix,
                None => false,
            };
            if !keep {
                newest = Some(AutosaveInfo { path: f.path.clone(), modified_unix: f.modified_unix });
                proof {
                    pick = Some((i as int, f.modified_unix));
                }
            }
        }
        i = i + 1;
    }
    assert(files@.take(i as int) =~= files@);
    newest
}


/// How many auto-saves are kept.
pub const MAX_AUTOSAVES: usize = 3;

/// The file name of an auto-save written at Unix second `ts`.
pub fn autosave_file_name(ts: u64) -> (name: String)
    ensures
        name@ == "autosave-"@ + decimal(ts as nat) + ".hwp"@,
{
    let mut name = String::from_str("autosave-");
    push_decimal(&mut name, ts);
    name.append(".hwp");
    name
}

/// An auto-save keyed so that an ascending stable sort puts the newest
/// first: `u64::MAX` minus its time, then its path.
pub open spec fn newest_first(f: FolderFile) -> (u64, String) {
    ((u64::MAX - f.modified_unix) as u64, f.path)
}

/// Auto-saves, as a filter.
pub open spec fn autosave_file() -> spec_fn(FolderFile) -> bool {
    |f: FolderFile| is_autosave(f)
}

/// The newest-first key, as a map.
pub open spec fn newest_first_key() -> spec_fn(FolderFile) -> (u64, String) {
    |f: FolderFile| newest_first(f)
}

/// The auto-saves among `files`, keyed newest first, in folder order.
pub open spec fn autosave_keys(files: Seq<FolderFile>) -> Seq<(u64, String)> {
    files.filter(autosave_file()).map_values(newest_first_key())
}

/// The auto-saves to delete after a new one is written: every auto-save
/// but the `MAX_AUTOSAVES` newest by modification time (files with equal
/// times keep the folder's order), by path.
pub fn autosaves_to_prune(files: &Vec<FolderFile>) -> (doomed: Vec<String>)
    ensures
        exists|sorted: Seq<(u64, String)>|
            #![trigger stably_sorted(autosave_keys(files@), sorted)]
            stably_sorted(autosave_keys(files@), sorted) && doomed@ == sorted.skip(
                if sorted.len() > MAX_AUTOSAVES { MAX_AUTOSAVES as int } else { sorted.len() as int },
            ).map_values(|e: (u64, String)| e.1),
{
    let ghost keep = autosave_file();
    let mut keyed: Vec<(u64, String)> = Vec::new();
    let mut i: usize = 0;
    while i < files.len()
        invariant
            0 <= i <= files@.len(),
            keep == autosave_file(),
            keyed@ == files@.take(i as int).filter(keep).map_values(newest_first_key()),
        decreases files@.len() - i,
    {
        let f = &files[i];
        proof {
            reveal_with_fuel(Seq::filter, 1);
            assert(files@.take(i as int + 1).drop_last() =~= files@.take(i as int));
            assert(files@.take(i as int + 1).last() == files@[i as int]);
        }
        let name_ok = match &f.file_name {
            Some(n) => text_starts_with(n.as_str(), "autosave-") && text_ends_with(n.as_str(), ".hwp"),
            None => false,
        };
        if name_ok {
            let ghost before = keyed@;
            keyed.push((u64::MAX - f.modified_unix, f.path.clone()));
            proof {
                let fl = files@.take(i as int).filter(keep);
                assert(files@.take(i as int + 1).filter(keep) == fl.push(files@[i as int]));
                assert(fl.push(files@[i as int]).map_values(newest_first_key()) =~= fl.map_values(
                    newest_first_key(),
                ).push(newest_first(files@[i as int])));
            }
        }
        i = i + 1;
    }
    assert(files@.take(i as int) =~= files@);
    let sorted = sort_by_tick(keyed);
    let ghost all = sorted@;
    assert(stably_sorted(autosave_keys(files@), all));
    let skip = if sorted.len() > MAX_AUTOSAVES { MAX_AUTOSAVES } else { sorted.len() };
    let mut doomed: Vec<String> = Vec::new();
    let mut rest = sorted;
    let mut k: usize = 0;
    while rest.len() > 0
        invariant
            k + rest@.len() == all.len(),
            all.len() <= usize::MAX,
            rest@ == all.skip(k as int),
            skip <= all.len(),
            doomed@ == (if k <= skip { Seq::<String>::empty() } else {
                all.subrange(skip as int, k as int).map_values(|e: (u64, String)| e.1)
            }),
        decreases rest@.len(),
    {
        let e = rest.remove(0);
        assert(e == all[k as int]);
        if k >= skip {
            let ghost before = doomed@;
            doomed.push(e.1);
            proof {
                if k == skip {
                    assert(doomed@ =~= all.subrange(skip as int, k as int + 1).map_values(|e: (u64, String)| e.1));
                } else {
                    assert(all.subrange(skip as int, k as int + 1) =~= all.subrange(skip as int, k as int).push(all[k as int]));
                    assert(doomed@ =~= all.subrange(skip as int, k as int + 1).map_values(|e: (u64, String)| e.1));
                }
            }
        }
        assert(rest@ =~= all.skip(k as int + 1));
        k = k + 1;
    }
    proof {
        if all.len() > skip {
            assert(all.subrange(skip as int, all.len() as int) =~= all.skip(skip as int));
        } else {
            assert(all.skip(skip as int) =~= Seq::<(u64, String)>::empty());
            assert(doomed@ =~= Seq::<String>::empty());
        }
    }
    doomed
}

} // verus!
