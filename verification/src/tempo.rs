//! The bar grid of a project: ticks per beat and bar for a signature, where
//! the signature changes, which signature is in force at a tick, and which
//! bar a tick falls in, counted from the start of the song.

use vstd::prelude::*;
use crate::text::str_eq;

verus! {

/// Ticks per quarter note.
pub const PPQ: u64 = 960;

/// How the tempo moves from one entry to the next.
#[derive(Debug, Clone, Copy, PartialEq, Eq, Structural)]
pub enum TempoRamp {
    Instant,
    Linear,
}

/// The name the UI uses for a ramp.
pub fn ramp_to_str(r: TempoRamp) -> (s: String)
    ensures
        s@ == (match r {
            TempoRamp::Instant => "instant"@,
            TempoRamp::Linear => "linear"@,
        }),
{
    match r {
        TempoRamp::Instant => String::from_str("instant"),
        TempoRamp::Linear => String::from_str("linear"),
    }
}

/// The ramp a name stands for; anything but `linear` is `Instant`.
pub fn ramp_from_str(s: &str) -> (r: TempoRamp)
    ensures
        r == (if s@ == "linear"@ { TempoRamp::Linear } else { TempoRamp::Instant }),
{
    if str_eq(s, "linear") {
        TempoRamp::Linear
    } else {
        TempoRamp::Instant
    }
}

/// Ticks in one beat of a signature's denominator: a quarter note for /4,
/// an eighth for /8; a zero denominator counts quarters.
pub open spec fn ticks_per_beat_spec(den: u32) -> int {
    if den == 0 { PPQ as int } else { (PPQ * 4) as int / den as int }
}

/// Ticks in one bar of a signature, never less than one.
pub open spec fn ticks_per_bar_spec(num: u32, den: u32) -> int {
    let t = ticks_per_beat_spec(den) * (if num == 0 { 1 } else { num as int });
    if t < 1 { 1 } else { t }
}

/// Ticks in one beat for a signature's denominator.
pub fn ticks_per_beat(den: u32) -> (t: u64)
    ensures
        t == ticks_per_beat_spec(den),
        t <= PPQ * 4,
{
    if den == 0 {
        PPQ
    } else {
        (PPQ * 4) / den as u64
    }
}

/// Ticks in one bar of a signature.
pub fn ticks_per_bar(num: u32, den: u32) -> (t: u64)
    ensures
        t == ticks_per_bar_spec(num, den),
        t >= 1,
{
    let beat = ticks_per_beat(den);
    let n: u64 = if num == 0 { 1 } else { num as u64 };
    assert(beat * n <= 3840 * 0xFFFF_FFFFu64) by (nonlinear_arith)
        requires beat <= 3840, n <= 0xFFFF_FFFFu64;
    let t = beat * n;
    if t < 1 { 1 } else { t }
}

/// Where a signature is set: the tick and the signature from there on.
#[derive(Debug, Clone, Copy, PartialEq, Eq, Structural)]
pub struct MeterMark {
    pub tick: u64,
    pub time_sig_num: u32,
    pub time_sig_den: u32,
}

/// A signature with zero parts raised to one.
pub open spec fn sig_of(m: MeterMark) -> (u32, u32) {
    (if m.time_sig_num == 0 { 1 } else { m.time_sig_num }, if m.time_sig_den == 0 { 1 } else { m.time_sig_den })
}

/// The last mark at or before `tick`, or the first mark when none is.
pub open spec fn mark_at(marks: Seq<MeterMark>, tick: u64) -> int
    decreases marks.len(),
{
    if marks.len() <= 1 {
        0
    } else if marks.last().tick <= tick {
        marks.len() - 1
    } else {
        mark_at(marks.drop_last(), tick)
    }
}

/// The signature in force at a tick: that of the last mark at or before
/// it (the first mark's before any), with zero parts raised to one.
pub fn time_sig_at(marks: &Vec<MeterMark>, tick: u64) -> (sig: (u32, u32))
    requires
        marks@.len() > 0,
    ensures
        0 <= mark_at(marks@, tick) < marks@.len(),
        sig == sig_of(marks@[mark_at(marks@, tick)]),
{
    let mut i: usize = marks.len();
    assert(marks@.take(i as int) =~= marks@);
    while i > 1
        invariant
            1 <= i <= marks@.len(),
            mark_at(marks@, tick) == mark_at(marks@.take(i as int), tick),
        ensures
            1 <= i <= marks@.len(),
            mark_at(marks@, tick) == mark_at(marks@.take(i as int), tick),
            i == 1 || marks@[i - 1].tick <= tick,
        decreases i,
    {
        if marks[i - 1].tick <= tick {
            assert(marks@.take(i as int).last() == marks@[i - 1]);
            break;
        }
        assert(marks@.take(i as int).drop_last() =~= marks@.take(i - 1));
        i = i - 1;
    }
    proof {
        let t = marks@.take(i as int);
        assert(t.len() == i);
        if i > 1 {
            assert(t.last() == marks@[i - 1]);
        }
    }
    let m = marks[i - 1];
    (if m.time_sig_num == 0 { 1 } else { m.time_sig_num }, if m.time_sig_den == 0 { 1 } else { m.time_sig_den })
}

/// The bar segments of a mark list: a segment starts at every mark whose
/// signature differs from the previous one, with its bar length.
pub open spec fn segments_from(marks: Seq<MeterMark>) -> Seq<(u64, u64)>
    decreases marks.len(),
{
    if marks.len() == 0 {
        seq![]
    } else {
        let prev = segments_from(marks.drop_last());
        let m = marks.last();
        if marks.len() > 1 && sig_of(marks[marks.len() - 2]) == sig_of(m) {
            prev
        } else {
            prev.push((m.tick, ticks_per_bar_spec(sig_of(m).0, sig_of(m).1) as u64))
        }
    }
}

/// Where bars restart, as (tick, ticks per bar): one segment per signature
/// change, the first always counted from tick 0, and a 4/4 segment when
/// there are no marks. A tempo change alone never moves a bar line.
pub open spec fn meter_segments_spec(marks: Seq<MeterMark>) -> Seq<(u64, u64)> {
    let s = segments_from(marks);
    if s.len() == 0 {
        seq![(0u64, ticks_per_bar_spec(4, 4) as u64)]
    } else {
        s.update(0, (0u64, s[0].1))
    }
}

/// The bar segments of a mark list.
pub fn meter_segments(marks: &Vec<MeterMark>) -> (out: Vec<(u64, u64)>)
    ensures
        out@ == meter_segments_spec(marks@),
{
    let mut out: Vec<(u64, u64)> = Vec::new();
    let mut i: usize = 0;
    while i < marks.len()
        invariant
            0 <= i <= marks@.len(),
            out@ == segments_from(marks@.take(i as int)),
        decreases marks@.len() - i,
    {
        let m = marks[i];
        let sig = (if m.time_sig_num == 0 { 1 } else { m.time_sig_num }, if m.time_sig_den == 0 { 1 } else { m.time_sig_den });
        let same = if i > 0 {
            let p = marks[i - 1];
            let psig = (if p.time_sig_num == 0 { 1 } else { p.time_sig_num }, if p.time_sig_den == 0 { 1 } else { p.time_sig_den });
            psig.0 == sig.0 && psig.1 == sig.1
        } else {
            false
        };
        proof {
            let t = marks@.take(i as int + 1);
            assert(t.drop_last() =~= marks@.take(i as int));
            assert(t.last() == marks@[i as int]);
            if i > 0 {
                assert(t[t.len() - 2] == marks@[i - 1]);
            }
        }
        if !same {
            let per = ticks_per_bar(sig.0, sig.1);
            out.push((m.tick, per));
        }
        i = i + 1;
    }
    assert(marks@.take(i as int) =~= marks@);
    if out.len() == 0 {
        let per = ticks_per_bar(4, 4);
        out.push((0, per));
        assert(out@ =~= seq![(0u64, ticks_per_bar_spec(4, 4) as u64)]);
    } else {
        let first = out[0];
        out.set(0, (0, first.1));
    }
    out
}

/// Every segment list holds at least one segment and starts at tick 0.
pub proof fn lemma_segments_start_at_zero(marks: Seq<MeterMark>)
    ensures
        meter_segments_spec(marks).len() >= 1,
        meter_segments_spec(marks)[0].0 == 0,
{
}

/// `a` minus `b`, or zero.
pub open spec fn sat_sub(a: u64, b: u64) -> int {
    if a >= b { a - b } else { 0 }
}

/// Bars a span fills, counting a part-bar as a whole one.
pub open spec fn bars_in(span: int, per_bar: int) -> int {
    span / per_bar + (if span % per_bar == 0 { 0int } else { 1int })
}

/// The bar a tick falls in and how far into it, walking the segments from
/// segment `i` with `bar` bars counted so far: a segment cut short by the
/// next one still uses up the bar it started.
pub open spec fn bar_walk(segs: Seq<(u64, u64)>, tick: u64, i: int, bar: int) -> (int, int)
    decreases segs.len() - i,
{
    if i < 0 || i >= segs.len() {
        (bar, 0)
    } else {
        let start = segs[i].0;
        let per = segs[i].1 as int;
        if i + 1 >= segs.len() || tick < segs[i + 1].0 {
            (bar + sat_sub(tick, start) / per, sat_sub(tick, start) % per)
        } else {
            bar_walk(segs, tick, i + 1, bar + bars_in(sat_sub(segs[i + 1].0, start), per))
        }
    }
}

/// Bars used up by the segments from `i` to the last one (the last segment
/// is open-ended and uses none).
pub open spec fn bars_from(segs: Seq<(u64, u64)>, i: int) -> int
    decreases segs.len() - i,
{
    if i < 0 || i + 1 >= segs.len() {
        0
    } else {
        bars_in(sat_sub(segs[i + 1].0, segs[i].0), segs[i].1 as int) + bars_from(segs, i + 1)
    }
}

/// Where a tick sits on the bar grid.
#[derive(Debug, Clone, Copy, PartialEq, Eq, Structural)]
pub struct BarPosition {
    /// The bar, counted from 1 at the song start across every change.
    pub bar: u32,
    /// Ticks from the start of that bar.
    pub ticks_into_bar: u64,
    /// Ticks per beat of the signature in force, at least one.
    pub ticks_per_beat: u64,
}

/// The bar a tick falls in (1-based, counted across every signature change),
/// how far into the bar it is, and the beat length there. The beat number
/// is `ticks_into_bar / ticks_per_beat + 1`.
pub fn bar_position(marks: &Vec<MeterMark>, tick: u64) -> (p: BarPosition)
    requires
        marks@.len() > 0,
        1 + bars_from(meter_segments_spec(marks@), 0) + tick <= u64::MAX,
    ensures
        p.bar == bar_walk(meter_segments_spec(marks@), tick, 0, 1).0 as u32,
        p.ticks_into_bar == bar_walk(meter_segments_spec(marks@), tick, 0, 1).1,
        p.ticks_per_beat == (if ticks_per_beat_spec(sig_of(marks@[mark_at(marks@, tick)]).1) < 1 { 1 } else {
            ticks_per_beat_spec(sig_of(marks@[mark_at(marks@, tick)]).1)
        }),
{
    let segs = meter_segments(marks);
    let sig = time_sig_at(marks, tick);
    let pb = ticks_per_beat(sig.1);
    let per_beat = if pb < 1 { 1 } else { pb };
    let mut bar: u64 = 1;
    let mut i: usize = 0;
    proof {
        lemma_segments_per_bar_positive(marks@);
        lemma_segments_start_at_zero(marks@);
        lemma_ticks_per_bar_bounds(4, 4);
        lemma_bars_from_nonneg(meter_segments_spec(marks@), 0);
    }
    let nsegs = segs.len();
    loop
        invariant
            segs@ == meter_segments_spec(marks@),
            1 + bars_from(segs@, 0) + tick <= u64::MAX,
            bars_from(segs@, i as int) >= 0,
            forall|k: int| 0 <= k < segs@.len() ==> (#[trigger] segs@[k]).1 >= 1,
            0 <= i <= segs@.len(),
            segs@.len() >= 1,
            segs@[0].0 == 0,
            i < segs@.len(),
            bar == 1 + bars_from(segs@, 0) - bars_from(segs@, i as int),
            nsegs == segs@.len(),
            0 <= mark_at(marks@, tick) < marks@.len(),
            per_beat == (if ticks_per_beat_spec(sig_of(marks@[mark_at(marks@, tick)]).1) < 1 { 1 } else {
                ticks_per_beat_spec(sig_of(marks@[mark_at(marks@, tick)]).1)
            }),
            segs@[i as int].0 <= tick,
            bar_walk(segs@, tick, 0, 1) == bar_walk(segs@, tick, i as int, bar as int),
        decreases segs@.len() - i,
    {
        let start = segs[i].0;
        let per = segs[i].1;
        let within = i + 1 >= nsegs || tick < segs[i + 1].0;
        if within {
            let into = if tick >= start { tick - start } else { 0 };
            assert(into / per <= into) by (nonlinear_arith)
                requires per >= 1;
            assert(bar_walk(segs@, tick, i as int, bar as int) == (bar + into / per, (into % per) as int));
            let b = bar + into / per;
            return BarPosition { bar: b as u32, ticks_into_bar: into % per, ticks_per_beat: per_beat };
        }
        let next = segs[i + 1].0;
        let span = if next >= start { next - start } else { 0 };
        assert((span as int) / (per as int) >= 0) by (nonlinear_arith)
            requires per >= 1;
        assert(bars_from(segs@, i as int) == bars_in(span as int, per as int) + bars_from(segs@, i + 1));
        proof {
            lemma_bars_from_nonneg(segs@, i + 1);
        }
        let whole = span / per;
        let part: u64 = if span % per == 0 { 0 } else { 1 };
        bar = bar + whole + part;
        i = i + 1;
    }
}

proof fn lemma_bars_from_nonneg(segs: Seq<(u64, u64)>, i: int)
    requires
        forall|k: int| 0 <= k < segs.len() ==> (#[trigger] segs[k]).1 >= 1,
    ensures
        bars_from(segs, i) >= 0,
    decreases segs.len() - i,
{
    if !(i < 0 || i + 1 >= segs.len()) {
        lemma_bars_from_nonneg(segs, i + 1);
        let span = sat_sub(segs[i + 1].0, segs[i].0);
        let per = segs[i].1 as int;
        assert(span / per >= 0) by (nonlinear_arith)
            requires per >= 1, span >= 0;
    }
}

proof fn lemma_segments_per_bar_positive(marks: Seq<MeterMark>)
    ensures
        forall|k: int| 0 <= k < meter_segments_spec(marks).len() ==> (#[trigger] meter_segments_spec(marks)[k]).1 >= 1,
{
    lemma_segments_from_positive(marks);
}

proof fn lemma_ticks_per_bar_bounds(num: u32, den: u32)
    ensures
        1 <= ticks_per_bar_spec(num, den) <= 3840 * 0xFFFF_FFFF,
        0 <= ticks_per_beat_spec(den) <= 3840,
{
    if den != 0 {
        assert(3840int / (den as int) <= 3840 && 3840int / (den as int) >= 0) by (nonlinear_arith)
            requires den >= 1;
    }
    let b = ticks_per_beat_spec(den);
    let n: int = if num == 0 { 1 } else { num as int };
    assert(b * n <= 3840 * 0xFFFF_FFFF) by (nonlinear_arith)
        requires 0 <= b <= 3840, 1 <= n <= 0xFFFF_FFFF;
}

proof fn lemma_segments_from_positive(marks: Seq<MeterMark>)
    ensures
        forall|k: int| 0 <= k < segments_from(marks).len() ==> (#[trigger] segments_from(marks)[k]).1 >= 1,
    decreases marks.len(),
{
    if marks.len() > 0 {
        lemma_segments_from_positive(marks.drop_last());
        let m = marks.last();
        lemma_ticks_per_bar_bounds(sig_of(m).0, sig_of(m).1);
        let prev = segments_from(marks.drop_last());
        let cur = segments_from(marks);
        assert(cur == prev || cur == prev.push((m.tick, ticks_per_bar_spec(sig_of(m).0, sig_of(m).1) as u64)));
        assert forall|k: int| 0 <= k < cur.len() implies (#[trigger] cur[k]).1 >= 1 by {
            if k < prev.len() {
                assert(cur[k] == prev[k]);
            }
        }
    }
}

} // verus!
