//! Automation targets, curve modes, the write-mode gate that decides when a
//! moving control is captured, and the stable keys and colours derived from
//! a target.

use vstd::prelude::*;
use crate::text::{decimal, push_decimal, str_eq};

verus! {

/// What an automation lane or clip drives.
#[derive(Debug)]
pub enum AutomationTarget {
    TrackVolume,
    TrackPan,
    TrackMute,
    PluginParam { slot_id: String, param_id: u32 },
    SendLevel { send_index: usize },
}

/// Interpolation from one automation point to the next.
#[derive(Debug, Clone, Copy, PartialEq, Eq, Structural)]
pub enum CurveMode {
    Linear,
    Bezier,
    Step,
    Stairs,
    SmoothStairs,
}

/// Options offered by a right-click on an automation point.
#[derive(Debug, Clone, Copy, PartialEq, Eq, Structural)]
pub enum PointAction {
    ChangeCurveLinear,
    ChangeCurveBezier,
    ChangeCurveStep,
    ChangeCurveStairs,
    ChangeCurveSmoothStairs,
    DeletePoint,
    ResetValue,
}

/// Automation recording mode, in the classic DAW terms.
#[derive(Debug, Clone, Copy, PartialEq, Eq, Structural)]
pub enum WriteMode {
    /// Recording is off; values pass through without being captured.
    Off,
    /// Existing automation plays back; control movements are ignored.
    Read,
    /// Every movement is captured while the transport plays.
    Write,
    /// Movements are captured only while the control is held.
    Touch,
    /// Capture starts at the first touch and lasts until the transport stops.
    Latch,
}

/// The session key of a target: two parameters of one plug-in never share it.
pub open spec fn target_key_spec(t: AutomationTarget) -> Seq<char> {
    match t {
        AutomationTarget::TrackVolume => "volume"@,
        AutomationTarget::TrackPan => "pan"@,
        AutomationTarget::TrackMute => "mute"@,
        AutomationTarget::PluginParam { slot_id, param_id } =>
            "param:"@ + slot_id@ + ":"@ + decimal(param_id as nat),
        AutomationTarget::SendLevel { send_index } => "send:"@ + decimal(send_index as nat),
    }
}

/// A stable key for a target, so two parameters of the same plug-in do not
/// share a recording session.
pub fn target_key(target: &AutomationTarget) -> (key: String)
    ensures
        key@ == target_key_spec(*target),
{
    match target {
        AutomationTarget::TrackVolume => String::from_str("volume"),
        AutomationTarget::TrackPan => String::from_str("pan"),
        AutomationTarget::TrackMute => String::from_str("mute"),
        AutomationTarget::PluginParam { slot_id, param_id } => {
            let mut key = String::from_str("param:");
            key.append(slot_id.as_str());
            key.append(":");
            push_decimal(&mut key, *param_id as u64);
            key
        },
        AutomationTarget::SendLevel { send_index } => {
            let mut key = String::from_str("send:");
            push_decimal(&mut key, *send_index as u64);
            key
        },
    }
}

/// Whether two targets name the same parameter: they share a session key.
pub fn automation_targets_match(a: &AutomationTarget, b: &AutomationTarget) -> (r: bool)
    ensures
        r == (target_key_spec(*a) == target_key_spec(*b)),
{
    let ka = target_key(a);
    let kb = target_key(b);
    ka == kb
}

/// The write mode named by the text the UI sends; anything unknown is `Off`.
pub open spec fn parse_mode_spec(mode: Seq<char>) -> WriteMode {
    if mode == "read"@ {
        WriteMode::Read
    } else if mode == "write"@ {
        WriteMode::Write
    } else if mode == "touch"@ {
        WriteMode::Touch
    } else if mode == "latch"@ {
        WriteMode::Latch
    } else {
        WriteMode::Off
    }
}

/// Parses the write mode the UI sends.
pub fn parse_mode(mode: &str) -> (m: WriteMode)
    ensures
        m == parse_mode_spec(mode@),
{
    if str_eq(mode, "read") {
        WriteMode::Read
    } else if str_eq(mode, "write") {
        WriteMode::Write
    } else if str_eq(mode, "touch") {
        WriteMode::Touch
    } else if str_eq(mode, "latch") {
        WriteMode::Latch
    } else {
        WriteMode::Off
    }
}

/// The name the UI uses for a write mode.
pub open spec fn mode_name_spec(m: WriteMode) -> Seq<char> {
    match m {
        WriteMode::Off => "off"@,
        WriteMode::Read => "read"@,
        WriteMode::Write => "write"@,
        WriteMode::Touch => "touch"@,
        WriteMode::Latch => "latch"@,
    }
}

/// The name of a write mode, as `parse_mode` reads it back.
pub fn mode_name(m: WriteMode) -> (s: String)
    ensures
        s@ == mode_name_spec(m),
{
    match m {
        WriteMode::Off => String::from_str("off"),
        WriteMode::Read => String::from_str("read"),
        WriteMode::Write => String::from_str("write"),
        WriteMode::Touch => String::from_str("touch"),
        WriteMode::Latch => String::from_str("latch"),
    }
}

/// Naming a mode and parsing the name back gives the same mode.
pub proof fn lemma_mode_name_round_trip(m: WriteMode)
    ensures
        parse_mode_spec(mode_name_spec(m)) == m,
{
    reveal_strlit("off");
    reveal_strlit("read");
    reveal_strlit("write");
    reveal_strlit("touch");
    reveal_strlit("latch");
    assert("off"@ != "read"@ && "off"@ != "write"@ && "off"@ != "touch"@ && "off"@ != "latch"@) by {
        assert("off"@.len() == 3 && "read"@.len() == 4 && "write"@.len() == 5);
        assert("off"@[0] != "touch"@[0] && "off"@[0] != "latch"@[0]);
    }
    assert("read"@ != "write"@ && "read"@ != "touch"@ && "read"@ != "latch"@) by {
        assert("read"@.len() == 4);
    }
    assert("write"@ != "touch"@ && "write"@ != "latch"@ && "touch"@ != "latch"@) by {
        assert("write"@[0] != "touch"@[0] && "write"@[0] != "latch"@[0] && "touch"@[0] != "latch"@[0]);
    }
}

/// The part of an automation recorder that decides whether a value is
/// captured: its mode, whether the transport is playing, whether the control
/// is held, and whether capture is running.
#[derive(Debug, Clone, Copy)]
pub struct RecordGate {
    pub mode: WriteMode,
    pub playing: bool,
    pub touching: bool,
    pub recording: bool,
}

impl RecordGate {
    /// A gate in `Off` mode, transport stopped, that records nothing.
    pub fn new() -> (g: RecordGate)
        ensures
            g.mode == WriteMode::Off,
            !g.playing,
            !g.touching,
            !g.recording,
    {
        RecordGate { mode: WriteMode::Off, playing: false, touching: false, recording: false }
    }

    /// Changes mode; `Off` and `Read` stop any capture and release the touch.
    pub fn set_mode(&mut self, mode: WriteMode)
        ensures
            final(self).mode == mode,
            final(self).playing == old(self).playing,
            (mode == WriteMode::Off || mode == WriteMode::Read) ==> !final(self).recording
                && !final(self).touching,
            !(mode == WriteMode::Off || mode == WriteMode::Read) ==> final(self).recording
                == old(self).recording && final(self).touching == old(self).touching,
    {
        self.mode = mode;
        if mode == WriteMode::Off || mode == WriteMode::Read {
            self.recording = false;
            self.touching = false;
        }
    }

    /// The transport starts: only `Write` begins capturing by itself;
    /// `Touch` and `Latch` wait for a touch.
    pub fn on_transport_play(&mut self)
        ensures
            final(self).mode == old(self).mode,
            final(self).playing,
            final(self).touching == old(self).touching,
            final(self).recording == (old(self).mode == WriteMode::Write),
    {
        self.playing = true;
        self.recording = self.mode == WriteMode::Write;
    }

    /// The transport stops: all capture halts and the touch is released.
    pub fn on_transport_stop(&mut self)
        ensures
            final(self).mode == old(self).mode,
            !final(self).playing,
            !final(self).touching,
            !final(self).recording,
    {
        self.playing = false;
        self.recording = false;
        self.touching = false;
    }

    /// The control is grabbed: `Touch` captures while it is held; `Latch`
    /// starts capturing on a touch during playback and goes on until the
    /// transport stops.
    pub fn begin_touch(&mut self)
        ensures
            final(self).mode == old(self).mode,
            final(self).playing == old(self).playing,
            final(self).touching,
            final(self).recording == (old(self).recording || old(self).mode == WriteMode::Touch
                || (old(self).mode == WriteMode::Latch && old(self).playing)),
    {
        self.touching = true;
        if self.mode == WriteMode::Touch || (self.mode == WriteMode::Latch && self.playing) {
            self.recording = true;
        }
    }

    /// The control is released; `Touch` stops capturing, `Latch` goes on.
    pub fn end_touch(&mut self)
        ensures
            final(self).mode == old(self).mode,
            final(self).playing == old(self).playing,
            !final(self).touching,
            final(self).recording == (old(self).recording && old(self).mode != WriteMode::Touch),
    {
        self.touching = false;
        if self.mode == WriteMode::Touch {
            self.recording = false;
        }
    }

    /// Whether a value fed now is captured.
    pub fn is_recording(&self) -> (r: bool)
        ensures
            r == self.recording,
    {
        self.recording
    }
}

/// A recorder for one parameter: its `RecordGate` and the `(tick, value)`
/// samples captured so far, in arrival order.
#[derive(Debug)]
pub struct AutomationRecorder<V> {
    pub gate: RecordGate,
    pub samples: Vec<(u64, V)>,
}

impl<V> AutomationRecorder<V> {
    /// A recorder in `Off` mode with no samples.
    pub fn new() -> (r: AutomationRecorder<V>)
        ensures
            r.gate.mode == WriteMode::Off,
            !r.gate.playing && !r.gate.touching && !r.gate.recording,
            r.samples@.len() == 0,
    {
        AutomationRecorder { gate: RecordGate::new(), samples: Vec::new() }
    }

    /// Takes one sample, which is captured only while recording is on.
    pub fn push_sample(&mut self, tick: u64, value: V)
        ensures
            final(self).gate == old(self).gate,
            final(self).samples@ == (if old(self).gate.recording {
                old(self).samples@.push((tick, value))
            } else {
                old(self).samples@
            }),
    {
        if self.gate.is_recording() {
            self.samples.push((tick, value));
        }
    }

    /// How many samples were kept.
    pub fn sample_count(&self) -> (n: usize)
        ensures
            n == self.samples@.len(),
    {
        self.samples.len()
    }

    /// Forgets the captured samples; mode and switches stay as they are.
    pub fn clear(&mut self)
        ensures
            final(self).gate == old(self).gate,
            final(self).samples@.len() == 0,
    {
        self.samples = Vec::new();
    }
}

/// What every gate operation keeps: in `Off` or `Read` mode nothing is ever
/// captured.
pub open spec fn gate_quiet_when_passive(g: RecordGate) -> bool {
    (g.mode == WriteMode::Off || g.mode == WriteMode::Read) ==> !g.recording
}

/// Law: starting from a gate that captures nothing in `Off`/`Read`, no
/// sequence of gate operations makes it capture in those modes; each step
/// below is one operation's contract.
pub proof fn lemma_passive_modes_never_record(before: RecordGate, after: RecordGate, op: int, m: WriteMode)
    requires
        gate_quiet_when_passive(before),
        0 <= op < 5,
        op == 0 ==> after.mode == m && ((m == WriteMode::Off || m == WriteMode::Read) ==> !after.recording)
            && (!(m == WriteMode::Off || m == WriteMode::Read) ==> after.recording == before.recording),
        op == 1 ==> after.mode == before.mode && after.recording == (before.mode == WriteMode::Write),
        op == 2 ==> after.mode == before.mode && !after.recording,
        op == 3 ==> after.mode == before.mode && after.recording == (before.recording
            || before.mode == WriteMode::Touch || (before.mode == WriteMode::Latch && before.playing)),
        op == 4 ==> after.mode == before.mode && after.recording == (before.recording
            && before.mode != WriteMode::Touch),
    ensures
        gate_quiet_when_passive(after),
{
}

/// One step of 32-bit FNV-1a.
pub open spec fn fnv32_step(h: u32, b: u8) -> u32 {
    (h ^ (b as u32)).wrapping_mul(0x01000193)
}

/// 32-bit FNV-1a over a byte sequence.
pub open spec fn fnv32(bytes: Seq<u8>) -> u32
    decreases bytes.len(),
{
    if bytes.len() == 0 {
        0x811C9DC5
    } else {
        fnv32_step(fnv32(bytes.drop_last()), bytes.last())
    }
}

/// `format!("{:?}", s)` for a string: the quoted, escaped form.
pub uninterp spec fn debug_quoted(s: Seq<char>) -> Seq<char>;

/// Calls `<str as Debug>::fmt` through `format!`. Claims only that the text
/// is a function of the string's characters, named `debug_quoted`; the
/// escaping rules themselves are not stated.
#[verifier::external_body]
fn debug_quote(s: &str) -> (r: String)
    ensures
        r@ == debug_quoted(s@),
{
    format!("{:?}", s)
}

/// The text `{:?}` gives for a target, as the derived `Debug` writes it.
pub open spec fn target_debug_spec(t: AutomationTarget) -> Seq<char> {
    match t {
        AutomationTarget::TrackVolume => "TrackVolume"@,
        AutomationTarget::TrackPan => "TrackPan"@,
        AutomationTarget::TrackMute => "TrackMute"@,
        AutomationTarget::PluginParam { slot_id, param_id } =>
            "PluginParam { slot_id: "@ + debug_quoted(slot_id@) + ", param_id: "@
                + decimal(param_id as nat) + " }"@,
        AutomationTarget::SendLevel { send_index } =>
            "SendLevel { send_index: "@ + decimal(send_index as nat) + " }"@,
    }
}

fn target_debug(target: &AutomationTarget) -> (s: String)
    ensures
        s@ == target_debug_spec(*target),
{
    match target {
        AutomationTarget::TrackVolume => String::from_str("TrackVolume"),
        AutomationTarget::TrackPan => String::from_str("TrackPan"),
        AutomationTarget::TrackMute => String::from_str("TrackMute"),
        AutomationTarget::PluginParam { slot_id, param_id } => {
            let mut s = String::from_str("PluginParam { slot_id: ");
            let q = debug_quote(slot_id.as_str());
            s.append(q.as_str());
            s.append(", param_id: ");
            push_decimal(&mut s, *param_id as u64);
            s.append(" }");
            s
        },
        AutomationTarget::SendLevel { send_index } => {
            let mut s = String::from_str("SendLevel { send_index: ");
            push_decimal(&mut s, *send_index as u64);
            s.append(" }");
            s
        },
    }
}

/// Opaque ARGB colour with every channel at least 0x40, from a 32-bit hash.
pub open spec fn color_from_hash(hash: u32) -> u32 {
    0xFF00_0000u32 | ((((hash >> 16u32) & 0xFFu32) | 0x40u32) << 16u32)
        | ((((hash >> 8u32) & 0xFFu32) | 0x40u32) << 8u32) | ((hash & 0xFFu32) | 0x40u32)
}

/// The colour of an automation clip: FNV-1a of the target's debug text,
/// forced bright and opaque.
pub open spec fn color_for_target_spec(t: AutomationTarget) -> u32 {
    color_from_hash(fnv32(crate::text::utf8_bytes(target_debug_spec(t))))
}

/// Stable colour for a target, so every target gets its own hue without a
/// palette table.
pub fn color_for_target(target: &AutomationTarget) -> (c: u32)
    ensures
        c == color_for_target_spec(*target),
{
    let key = target_debug(target);
    let bytes = key.as_str().as_bytes();
    let mut hash: u32 = 0x811C9DC5;
    let mut i: usize = 0;
    while i < bytes.len()
        invariant
            0 <= i <= bytes@.len(),
            bytes@ == crate::text::utf8_bytes(key@),
            hash == fnv32(bytes@.take(i as int)),
        decreases bytes@.len() - i,
    {
        let b = bytes[i];
        assert(bytes@.take(i as int + 1).drop_last() =~= bytes@.take(i as int));
        hash = (hash ^ (b as u32)).wrapping_mul(0x01000193);
        i = i + 1;
    }
    assert(bytes@.take(i as int) =~= bytes@);
    let r = ((hash >> 16u32) & 0xFFu32) | 0x40u32;
    let g = ((hash >> 8u32) & 0xFFu32) | 0x40u32;
    let b = (hash & 0xFFu32) | 0x40u32;
    0xFF00_0000u32 | (r << 16u32) | (g << 8u32) | b
}

// ---------------------------------------------------------------------------
// Writing a recorded pass into a lane

/// Items ordered by tick, each carried with the tick it sits at.
pub open spec fn ticks_sorted<P>(s: Seq<(u64, P)>) -> bool {
    forall|i: int, j: int| 0 <= i < j < s.len() ==> (#[trigger] s[i]).0 <= (#[trigger] s[j]).0
}

/// Items at tick `t`.
pub open spec fn at_tick<P>(t: u64) -> spec_fn((u64, P)) -> bool {
    |x: (u64, P)| x.0 == t
}

/// `out` is `input` sorted by tick, items at one tick keeping the order
/// they had (a stable sort).
pub open spec fn stably_sorted<P>(input: Seq<(u64, P)>, out: Seq<(u64, P)>) -> bool {
    &&& ticks_sorted(out)
    &&& forall|t: u64| #[trigger] out.filter(at_tick(t)) == input.filter(at_tick(t))
}

/// Items outside the ticks `from` to `to`.
pub open spec fn outside<P>(from: u64, to: u64) -> spec_fn((u64, P)) -> bool {
    |x: (u64, P)| x.0 < from || x.0 > to
}

proof fn lemma_filter_empty_when_none<P>(s: Seq<(u64, P)>, t: u64)
    requires
        forall|k: int| 0 <= k < s.len() ==> (#[trigger] s[k]).0 != t,
    ensures
        s.filter(at_tick(t)) == Seq::<(u64, P)>::empty(),
    decreases s.len(),
{
    reveal_with_fuel(Seq::filter, 1);
    if s.len() > 0 {
        lemma_filter_empty_when_none(s.drop_last(), t);
    }
    assert(s.filter(at_tick(t)) =~= Seq::<(u64, P)>::empty());
}

/// Inserting `x` after every item at or before its tick, into a sorted
/// sequence, keeps it sorted and adds `x` last among the items at its tick.
proof fn lemma_insert_keeps_stable<P>(out: Seq<(u64, P)>, j: int, x: (u64, P))
    requires
        ticks_sorted(out),
        0 <= j <= out.len(),
        forall|k: int| 0 <= k < j ==> (#[trigger] out[k]).0 <= x.0,
        forall|k: int| j <= k < out.len() ==> (#[trigger] out[k]).0 > x.0,
    ensures
        ticks_sorted(out.insert(j, x)),
        forall|t: u64| #[trigger] out.insert(j, x).filter(at_tick(t)) == (if t == x.0 {
            out.filter(at_tick(t)).push(x)
        } else {
            out.filter(at_tick(t))
        }),
{
    let after = out.insert(j, x);
    assert(ticks_sorted(after)) by {
        assert forall|a: int, b: int| 0 <= a < b < after.len() implies (#[trigger] after[a]).0 <= (#[trigger] after[b]).0 by {
            if a < j && b < j {
                assert(after[a] == out[a] && after[b] == out[b]);
            } else if a < j && b == j {
                assert(after[a] == out[a]);
            } else if a < j {
                assert(after[a] == out[a] && after[b] == out[b - 1]);
            } else if a == j {
                assert(after[b] == out[b - 1]);
            } else {
                assert(after[a] == out[a - 1] && after[b] == out[b - 1]);
            }
        }
    }
    let front = out.take(j);
    let back = out.skip(j);
    assert(out =~= front + back);
    assert(after =~= front + seq![x] + back);
    assert forall|t: u64| #[trigger] after.filter(at_tick(t)) == (if t == x.0 {
        out.filter(at_tick(t)).push(x)
    } else {
        out.filter(at_tick(t))
    }) by {
        let p = at_tick::<P>(t);
        Seq::filter_distributes_over_add(front + seq![x], back, p);
        Seq::filter_distributes_over_add(front, seq![x], p);
        Seq::filter_distributes_over_add(front, back, p);
        reveal_with_fuel(Seq::filter, 2);
        assert(seq![x].drop_last() =~= Seq::<(u64, P)>::empty());
        if t == x.0 {
            assert forall|k: int| 0 <= k < back.len() implies (#[trigger] back[k]).0 != t by {
                assert(back[k] == out[j + k]);
            }
            lemma_filter_empty_when_none(back, t);
            assert(seq![x].filter(p) =~= seq![x]);
            assert(after.filter(p) =~= front.filter(p) + seq![x]);
            assert(out.filter(p) =~= front.filter(p));
        } else {
            assert(seq![x].filter(p) =~= Seq::<(u64, P)>::empty());
            assert(after.filter(p) =~= front.filter(p) + back.filter(p));
        }
    }
}

/// Sorts items by tick, keeping items at one tick in the order they came.
pub fn sort_by_tick<P>(items: Vec<(u64, P)>) -> (out: Vec<(u64, P)>)
    ensures
        stably_sorted(items@, out@),
{
    let ghost input = items@;
    let n = items.len();
    let mut rest = items;
    let mut out: Vec<(u64, P)> = Vec::new();
    let mut i: usize = 0;
    while rest.len() > 0
        invariant
            input.len() == n,
            i + rest@.len() == n,
            rest@ == input.skip(i as int),
            ticks_sorted(out@),
            forall|t: u64| #[trigger] out@.filter(at_tick(t)) == input.take(i as int).filter(at_tick(t)),
        decreases rest@.len(),
    {
        let x = rest.remove(0);
        assert(x == input[i as int]);
        let key = x.0;
        let mut j: usize = 0;
        while j < out.len() && out[j].0 <= key
            invariant
                0 <= j <= out@.len(),
                forall|k: int| 0 <= k < j ==> (#[trigger] out@[k]).0 <= key,
            decreases out@.len() - j,
        {
            j = j + 1;
        }
        proof {
            if j < out@.len() {
                assert forall|k: int| j <= k < out@.len() implies (#[trigger] out@[k]).0 > key by {
                    if k > j {
                        assert(out@[j as int].0 <= out@[k].0);
                    }
                }
            }
            lemma_insert_keeps_stable(out@, j as int, x);
            assert(input.take(i as int + 1) =~= input.take(i as int).push(x));
            assert forall|t: u64| #[trigger] input.take(i as int + 1).filter(at_tick(t)) == (if t == key {
                input.take(i as int).filter(at_tick(t)).push(x)
            } else {
                input.take(i as int).filter(at_tick(t))
            }) by {
                reveal_with_fuel(Seq::filter, 1);
                assert(input.take(i as int + 1).drop_last() =~= input.take(i as int));
            }
        }
        out.insert(j, x);
        assert(rest@ =~= input.skip(i as int + 1));
        i = i + 1;
    }
    assert(input.take(i as int) =~= input);
    out
}

/// Writes a recorded pass into a lane's points: the points the pass
/// covers, from its first tick to its last, give way to it, and the lane
/// is sorted by tick again, points at one tick keeping their order (old
/// points before recorded ones). An empty pass changes nothing.
pub fn replace_range<P>(existing: &mut Vec<(u64, P)>, recorded: Vec<(u64, P)>)
    ensures
        recorded@.len() == 0 ==> final(existing)@ == old(existing)@,
        recorded@.len() > 0 ==> stably_sorted(
            old(existing)@.filter(outside(recorded@[0].0, recorded@.last().0)) + recorded@,
            final(existing)@,
        ),
{
    if recorded.len() == 0 {
        return;
    }
    let from = recorded[0].0;
    let to = recorded[recorded.len() - 1].0;
    let mut old_points: Vec<(u64, P)> = Vec::new();
    std::mem::swap(&mut old_points, existing);
    let ghost before = old_points@;
    let n = old_points.len();
    let mut kept: Vec<(u64, P)> = Vec::new();
    let mut i: usize = 0;
    while old_points.len() > 0
        invariant
            before.len() == n,
            i + old_points@.len() == n,
            old_points@ == before.skip(i as int),
            kept@ == before.take(i as int).filter(outside(from, to)),
        decreases old_points@.len(),
    {
        let p = old_points.remove(0);
        assert(p == before[i as int]);
        proof {
            reveal_with_fuel(Seq::filter, 1);
            assert(before.take(i as int + 1).drop_last() =~= before.take(i as int));
        }
        if p.0 < from || p.0 > to {
            kept.push(p);
        }
        assert(old_points@ =~= before.skip(i as int + 1));
        i = i + 1;
    }
    assert(before.take(i as int) =~= before);
    let ghost combined = kept@ + recorded@;
    let mut recorded = recorded;
    kept.append(&mut recorded);
    assert(kept@ == combined);
    *existing = sort_by_tick(kept);
}

/// A recorded pass owns the ticks it covered: at any tick from its first to
/// its last, the lane afterwards holds exactly the recorded points; at any
/// other tick it holds the old points, then the recorded ones.
pub proof fn lemma_pass_owns_its_range<P>(existing: Seq<(u64, P)>, recorded: Seq<(u64, P)>, out: Seq<(u64, P)>, t: u64)
    requires
        recorded.len() > 0,
        stably_sorted(existing.filter(outside(recorded[0].0, recorded.last().0)) + recorded, out),
    ensures
        recorded[0].0 <= t <= recorded.last().0 ==> out.filter(at_tick(t)) == recorded.filter(at_tick(t)),
        !(recorded[0].0 <= t <= recorded.last().0) ==> out.filter(at_tick(t))
            == existing.filter(at_tick(t)) + recorded.filter(at_tick(t)),
{
    let from = recorded[0].0;
    let to = recorded.last().0;
    let kept = existing.filter(outside(from, to));
    Seq::filter_distributes_over_add(kept, recorded, at_tick(t));
    assert(out.filter(at_tick(t)) == (kept + recorded).filter(at_tick(t)));
    lemma_filter_of_filter(existing, from, to, t);
}

proof fn lemma_filter_of_filter<P>(s: Seq<(u64, P)>, from: u64, to: u64, t: u64)
    ensures
        from <= t <= to ==> s.filter(outside(from, to)).filter(at_tick(t)) == Seq::<(u64, P)>::empty(),
        !(from <= t <= to) ==> s.filter(outside(from, to)).filter(at_tick(t)) == s.filter(at_tick(t)),
    decreases s.len(),
{
    reveal_with_fuel(Seq::filter, 2);
    if s.len() > 0 {
        lemma_filter_of_filter(s.drop_last(), from, to, t);
        let kept = s.drop_last().filter(outside(from, to));
        if (outside(from, to))(s.last()) {
            assert(s.filter(outside(from, to)) == kept.push(s.last()));
            assert(kept.push(s.last()).drop_last() =~= kept);
        }
    } else {
        assert(s.filter(outside(from, to)) =~= Seq::<(u64, P)>::empty());
    }
    if from <= t <= to {
        assert(s.filter(outside(from, to)).filter(at_tick(t)) =~= Seq::<(u64, P)>::empty());
    }
}

// ---------------------------------------------------------------------------
// Automation clips: windows on the timeline and their point lists

/// The clip-local tick of timeline tick `t` in a clip starting at `start`
/// and lasting `length` ticks; `None` outside the clip.
pub open spec fn clip_local_spec(start: u64, length: u64, t: u64) -> Option<u64> {
    if t < start || t - start >= length {
        None
    } else {
        Some((t - start) as u64)
    }
}

/// Where a tick falls on a lane: the lane has no points; the tick is at or
/// before the first point (which then holds); at or past the last (which
/// holds); or between point `i` and point `i + 1`, interpolated by the
/// curve of point `i`.
#[derive(Debug, Clone, Copy, PartialEq, Eq, Structural)]
pub enum LaneSpan {
    Empty,
    First,
    Last,
    Between(usize),
}

/// The span of `tick` on a lane whose points are at the given ticks: for a
/// tick strictly inside, `i` is the last point at or before it among the
/// run of points that precede the first one after it (for a lane sorted by
/// tick, the last point at or before the tick).
pub open spec fn lane_span_spec<P>(points: Seq<(u64, P)>, tick: u64, s: LaneSpan) -> bool {
    if points.len() == 0 {
        s is Empty
    } else if tick <= points[0].0 {
        s is First
    } else if tick >= points[points.len() - 1].0 {
        s is Last
    } else {
        s matches LaneSpan::Between(i) && i + 1 < points.len() && points[i + 1].0 > tick
            && forall|k: int| 0 <= k <= i ==> (#[trigger] points[k]).0 <= tick
    }
}

/// Finds where `tick` falls on a lane.
pub fn lane_span<P>(points: &Vec<(u64, P)>, tick: u64) -> (s: LaneSpan)
    ensures
        lane_span_spec(points@, tick, s),
{
    let n = points.len();
    if n == 0 {
        return LaneSpan::Empty;
    }
    if tick <= points[0].0 {
        return LaneSpan::First;
    }
    if tick >= points[n - 1].0 {
        return LaneSpan::Last;
    }
    let mut j: usize = 1;
    while j < n && points[j].0 <= tick
        invariant
            1 <= j <= n,
            n == points@.len(),
            tick < points@[n - 1].0,
            forall|k: int| 0 <= k < j ==> (#[trigger] points@[k]).0 <= tick,
        decreases n - j,
    {
        j = j + 1;
    }
    LaneSpan::Between(j - 1)
}

/// On a lane sorted by tick, the span of a tick strictly inside it names the
/// last point at or before the tick: every later point lies after it.
pub proof fn lemma_sorted_span_is_the_last_point_before<P>(points: Seq<(u64, P)>, tick: u64, i: usize)
    requires
        ticks_sorted(points),
        lane_span_spec(points, tick, LaneSpan::Between(i)),
    ensures
        forall|k: int| i < k < points.len() ==> (#[trigger] points[k]).0 > tick,
{
    assert forall|k: int| i < k < points.len() implies (#[trigger] points[k]).0 > tick by {
        if k > i + 1 {
            assert(points[i + 1].0 <= points[k].0);
        }
    }
}

/// Converts a timeline tick into a clip's own ticks.
pub fn timeline_tick_to_clip(start: u64, length: u64, t: u64) -> (r: Option<u64>)
    ensures
        r == clip_local_spec(start, length, t),
{
    if t < start {
        return None;
    }
    let rel = t - start;
    if rel >= length {
        return None;
    }
    Some(rel)
}

/// The clip-local tick a hover tooltip reads: the offset into the clip,
/// held within it.
pub fn preview_local_tick(start: u64, length: u64, t: u64) -> (r: u64)
    ensures
        r == (if t <= start { 0 } else if t - start < length { (t - start) as u64 } else { length }),
{
    let rel = t.saturating_sub(start);
    if rel < length { rel } else { length }
}

/// Among clips given as (start, length), the one whose window holds tick
/// `t` and that starts latest; of several starting together, the first.
pub open spec fn layered_winner_spec(windows: Seq<(u64, u64)>, t: u64) -> Option<int>
    decreases windows.len(),
{
    if windows.len() == 0 {
        None
    } else {
        let earlier = layered_winner_spec(windows.drop_last(), t);
        let last = windows.last();
        if clip_local_spec(last.0, last.1, t) is None {
            earlier
        } else {
            match earlier {
                Some(k) if !(last.0 > windows[k].0) => Some(k),
                _ => Some(windows.len() - 1),
            }
        }
    }
}

/// Law: a clip sounds at a timeline tick exactly when the tick lies in its
/// window, its first tick included and the tick `length` after its start
/// not, and there the clip-local tick is the distance from the clip's start.
pub proof fn lemma_clip_sounds_from_its_first_tick(start: u64, length: u64, t: u64)
    ensures
        start <= t && t - start < length ==> clip_local_spec(start, length, t) == Some((t - start) as u64),
        !(start <= t && t - start < length) ==> clip_local_spec(start, length, t) is None,
        length > 0 ==> clip_local_spec(start, length, start) == Some(0u64),
{
}

/// Whether the window `(start, length)` holds tick `t`.
pub open spec fn window_holds(w: (u64, u64), t: u64) -> bool {
    w.0 <= t && t - w.0 < w.1
}

/// Law: the layered winner at a tick is a clip whose window holds the tick,
/// and no clip holding it starts later; when some clip holds the tick there
/// is a winner.
pub proof fn lemma_layered_winner_holds_the_tick(windows: Seq<(u64, u64)>, t: u64)
    ensures
        match layered_winner_spec(windows, t) {
            Some(k) => 0 <= k < windows.len() && window_holds(windows[k], t) && forall|j: int|
                0 <= j < windows.len() && #[trigger] window_holds(windows[j], t) ==> windows[j].0 <= windows[k].0,
            None => forall|j: int| 0 <= j < windows.len() ==> !#[trigger] window_holds(windows[j], t),
        },
    decreases windows.len(),
{
    if windows.len() > 0 {
        let rest = windows.drop_last();
        let n = rest.len() as int;
        lemma_layered_winner_holds_the_tick(rest, t);
        let last = windows.last();
        assert(last == windows[n]);
        assert(window_holds(last, t) <==> clip_local_spec(last.0, last.1, t) is Some);
        match layered_winner_spec(rest, t) {
            Some(k) => {
                assert(rest[k] == windows[k]);
                assert forall|j: int| 0 <= j < n && #[trigger] window_holds(windows[j], t) implies windows[j].0
                    <= windows[k].0 by {
                    assert(rest[j] == windows[j]);
                }
            },
            None => {
                assert forall|j: int| 0 <= j < n implies !#[trigger] window_holds(windows[j], t) by {
                    assert(rest[j] == windows[j]);
                }
            },
        }
    }
}

/// The clip whose value a parameter takes at tick `t` when several clips
/// automate it: last writer wins.
pub fn layered_winner(windows: &[(u64, u64)], t: u64) -> (r: Option<usize>)
    ensures
        match layered_winner_spec(windows@, t) {
            Some(k) => r == Some(k as usize),
            None => r is None,
        },
{
    let mut winner: Option<usize> = None;
    let mut i: usize = 0;
    while i < windows.len()
        invariant
            0 <= i <= windows@.len(),
            match layered_winner_spec(windows@.take(i as int), t) {
                Some(k) => winner == Some(k as usize) && 0 <= k < i,
                None => winner is None,
            },
        decreases windows@.len() - i,
    {
        proof {
            assert(windows@.take(i as int + 1).drop_last() =~= windows@.take(i as int));
            assert(windows@.take(i as int + 1).last() == windows@[i as int]);
            if let Some(k) = layered_winner_spec(windows@.take(i as int), t) {
                assert(windows@.take(i as int + 1)[k] == windows@[k]);
            }
        }
        let (start, length) = windows[i];
        if timeline_tick_to_clip(start, length, t).is_some() {
            match winner {
                None => winner = Some(i),
                Some(w) => {
                    if start > windows[w].0 {
                        winner = Some(i);
                    }
                },
            }
        }
        i = i + 1;
    }
    assert(windows@.take(i as int) =~= windows@);
    winner
}

/// The clip-local ticks at which `samples` values are drawn across a clip
/// of `length` ticks: evenly from its first tick to its last.
pub open spec fn curve_tick(i: nat, length: u64, samples: nat) -> int {
    let span = if samples >= 2 { samples - 1 } else { 1 };
    let scaled = if i * (length - 1) > u64::MAX { u64::MAX as int } else { i * (length - 1) };
    scaled / (span as int)
}

/// The ticks a clip's filled curve is drawn at; none for no samples or an
/// empty clip.
pub fn curve_sample_ticks(length: u64, samples: usize) -> (ticks: Vec<u64>)
    ensures
        (samples == 0 || length == 0) ==> ticks@.len() == 0,
        !(samples == 0 || length == 0) ==> {
            &&& ticks@.len() == samples
            &&& forall|i: int| 0 <= i < samples ==> ticks@[i] == curve_tick(i as nat, length, samples as nat)
        },
{
    let mut ticks: Vec<u64> = Vec::new();
    if samples == 0 || length == 0 {
        return ticks;
    }
    let span: u64 = if samples as u64 >= 2 { samples as u64 - 1 } else { 1 };
    let mut i: usize = 0;
    while i < samples
        invariant
            0 <= i <= samples,
            length > 0,
            span == (if samples >= 2 { samples - 1 } else { 1 }),
            ticks@.len() == i,
            forall|k: int| 0 <= k < i ==> ticks@[k] == curve_tick(k as nat, length, samples as nat),
        decreases samples - i,
    {
        let scaled = match (i as u64).checked_mul(length - 1) {
            Some(v) => v,
            None => u64::MAX,
        };
        ticks.push(scaled / span);
        i = i + 1;
    }
    ticks
}

/// Law: a clip's curve is drawn from its first tick to its last. With at
/// least two samples (and no overflow in the spacing), the first sample is
/// at tick 0, the last at tick `length - 1`, and in between the ticks never
/// go back and never leave the clip.
pub proof fn lemma_curve_spans_the_clip(length: u64, samples: nat)
    requires
        samples >= 2,
        length >= 1,
        (samples - 1) * (length - 1) <= u64::MAX,
    ensures
        curve_tick(0, length, samples) == 0,
        curve_tick((samples - 1) as nat, length, samples) == length - 1,
        forall|i: nat, j: nat| i <= j < samples ==> 0 <= #[trigger] curve_tick(i, length, samples) <= #[trigger] curve_tick(j, length, samples) <= length - 1,
{
    let span: int = samples - 1;
    vstd::arithmetic::div_mod::lemma_div_by_multiple((length - 1) as int, span);
    assert((samples - 1) * (length - 1) == (length - 1) * span) by (nonlinear_arith)
        requires
            span == samples - 1,
    ;
    assert forall|i: nat, j: nat| i <= j < samples implies 0 <= #[trigger] curve_tick(i, length, samples) <= #[trigger] curve_tick(j, length, samples) <= length - 1 by {
        assert(i * (length - 1) <= j * (length - 1)) by (nonlinear_arith)
            requires
                i <= j,
                length >= 1,
        ;
        assert(j * (length - 1) <= (samples - 1) * (length - 1)) by (nonlinear_arith)
            requires
                j <= samples - 1,
                length >= 1,
        ;
        assert(0 <= i * (length - 1)) by (nonlinear_arith)
            requires
                length >= 1,
        ;
        vstd::arithmetic::div_mod::lemma_div_is_ordered(i * (length - 1), j * (length - 1), span);
        vstd::arithmetic::div_mod::lemma_div_is_ordered(j * (length - 1), (length - 1) * span, span);
        vstd::arithmetic::div_mod::lemma_div_pos_is_pos(i * (length - 1), span);
    }
}

/// Ticks strictly increasing: no two points share a tick.
pub open spec fn ticks_strictly_sorted<P>(s: Seq<(u64, P)>) -> bool {
    forall|i: int, j: int| 0 <= i < j < s.len() ==> (#[trigger] s[i]).0 < (#[trigger] s[j]).0
}

/// Adds a point to a clip of `length` ticks, its tick held within the
/// clip: a point already at that tick is overwritten, otherwise the new
/// one goes where its tick keeps the list in order.
pub fn insert_point<P>(points: &mut Vec<(u64, P)>, length: u64, tick: u64, payload: P)
    requires
        ticks_strictly_sorted(old(points)@),
    ensures
        ticks_strictly_sorted(final(points)@),
        ({
            let t = if tick < length { tick } else { length };
            match first_match_tick(old(points)@, t) {
                Some(k) => final(points)@ == old(points)@.update(k, (t, payload)),
                None => final(points)@ == old(points)@.insert(insert_pos(old(points)@, t), (t, payload)),
            }
        }),
{
    let t = if tick < length { tick } else { length };
    let ghost before = points@;
    let n = points.len();
    let mut i: usize = 0;
    while i < n && points[i].0 < t
        invariant
            n == points@.len(),
            points@ == before,
            0 <= i <= n,
            forall|k: int| 0 <= k < i ==> (#[trigger] points@[k]).0 < t,
        decreases n - i,
    {
        i = i + 1;
    }
    if i < n && points[i].0 == t {
        proof {
            crate::seqs::lemma_first_match_at(before, at_tick(t), i as int);
        }
        points.set(i, (t, payload));
        assert(first_match_tick(before, t) == Some(i as int));
        assert(points@ == before.update(i as int, (t, payload)));
        assert(ticks_strictly_sorted(points@)) by {
            assert forall|a: int, b: int| 0 <= a < b < points@.len() implies (#[trigger] points@[a]).0 < (#[trigger] points@[b]).0 by {
                assert(before[a].0 < before[b].0);
            }
        }
    } else {
        proof {
            assert forall|k: int| 0 <= k < before.len() implies (#[trigger] before[k]).0 != t by {
                if k > i {
                    assert(before[i as int].0 < before[k].0);
                }
            }
            crate::seqs::lemma_first_match_none(before, at_tick(t));
        }
        points.insert(i, (t, payload));
        assert(first_match_tick(before, t) is None);
        proof {
            if i < n {
                crate::seqs::lemma_first_match_at(before, at_or_after(t), i as int);
            } else {
                crate::seqs::lemma_first_match_none(before, at_or_after(t));
            }
        }
        assert(insert_pos(before, t) == i);
        assert(points@ == before.insert(i as int, (t, payload)));
        assert(ticks_strictly_sorted(points@)) by {
            let after = points@;
            assert forall|a: int, b: int| 0 <= a < b < after.len() implies (#[trigger] after[a]).0 < (#[trigger] after[b]).0 by {
                if b < i {
                    assert(before[a].0 < before[b].0);
                } else if b == i {
                    assert(before[a].0 < t);
                } else if a < i {
                    assert(before[a].0 < before[b - 1].0);
                } else if a == i {
                    assert(before[b - 1].0 > t || before[b - 1].0 == t);
                } else {
                    assert(before[a - 1].0 < before[b - 1].0);
                }
            }
        }
    }
}

/// Items at tick `t` or later.
pub open spec fn at_or_after<P>(t: u64) -> spec_fn((u64, P)) -> bool {
    |x: (u64, P)| x.0 >= t
}

/// Where a point at tick `t` goes: before the first point at or after `t`,
/// or at the end.
pub open spec fn insert_pos<P>(s: Seq<(u64, P)>, t: u64) -> int {
    match crate::seqs::first_match(s, at_or_after(t)) {
        Some(k) => k,
        None => s.len() as int,
    }
}

/// The index of the point at tick `t`, if any.
pub open spec fn first_match_tick<P>(s: Seq<(u64, P)>, t: u64) -> Option<int> {
    crate::seqs::first_match(s, at_tick(t))
}

/// Removes the point at `idx`, when there is one.
pub fn remove_point<P>(points: &mut Vec<(u64, P)>, idx: usize) -> (r: Option<(u64, P)>)
    ensures
        idx < old(points)@.len() ==> r == Some(old(points)@[idx as int]) && final(points)@ == old(points)@.remove(idx as int),
        idx >= old(points)@.len() ==> r is None && final(points)@ == old(points)@,
{
    if idx < points.len() {
        Some(points.remove(idx))
    } else {
        None
    }
}

/// Drags the point at `idx` to `new_tick` (held within a clip of `length`
/// ticks) with its new payload, then re-sorts by tick, points at one tick
/// keeping their order; `false`, and nothing changes, when there is no
/// such point.
pub fn move_point<P>(points: &mut Vec<(u64, P)>, length: u64, idx: usize, new_tick: u64, payload: P) -> (moved: bool)
    ensures
        moved == (idx < old(points)@.len()),
        !moved ==> final(points)@ == old(points)@,
        moved ==> stably_sorted(
            old(points)@.update(idx as int, (if new_tick < length { new_tick } else { length }, payload)),
            final(points)@,
        ),
{
    if idx >= points.len() {
        return false;
    }
    let t = if new_tick < length { new_tick } else { length };
    points.set(idx, (t, payload));
    let mut all: Vec<(u64, P)> = Vec::new();
    std::mem::swap(&mut all, points);
    *points = sort_by_tick(all);
    true
}

} // verus!
