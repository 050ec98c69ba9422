//! Clip-level types: ids, fade curves and their names, warp anchors, and
//! how a clip splits in two.

use vstd::prelude::*;
use crate::text::{decimal, push_decimal, str_eq};

verus! {

/// Clips are referred to by id.
pub type ClipId = String;

/// Shape of a clip's fade in or fade out.
#[derive(Debug, Clone, Copy, PartialEq, Eq, Structural)]
pub enum FadeCurve {
    Linear,
    EqualPower,
    SCurve,
    Logarithmic,
}

impl Default for FadeCurve {
    fn default() -> (c: FadeCurve)
        ensures
            c == FadeCurve::Linear,
    {
        FadeCurve::Linear
    }
}

/// One warp anchor: a tick relative to the clip start pinned to a sample
/// of the source file.
#[derive(Debug, Clone, Copy, PartialEq, Eq, Structural)]
pub struct WarpMarker {
    pub clip_tick: u64,
    pub source_sample: u64,
}

/// The name the UI uses for a fade curve.
pub open spec fn fade_curve_name_spec(c: FadeCurve) -> Seq<char> {
    match c {
        FadeCurve::Linear => "linear"@,
        FadeCurve::EqualPower => "equal_power"@,
        FadeCurve::SCurve => "s_curve"@,
        FadeCurve::Logarithmic => "logarithmic"@,
    }
}

/// The name of a fade curve.
pub fn fade_curve_name(curve: FadeCurve) -> (s: String)
    ensures
        s@ == fade_curve_name_spec(curve),
{
    match curve {
        FadeCurve::Linear => String::from_str("linear"),
        FadeCurve::EqualPower => String::from_str("equal_power"),
        FadeCurve::SCurve => String::from_str("s_curve"),
        FadeCurve::Logarithmic => String::from_str("logarithmic"),
    }
}

/// The curve a name stands for, or `None` for an unknown name.
pub open spec fn fade_curve_of_name(name: Seq<char>) -> Option<FadeCurve> {
    if name == "linear"@ {
        Some(FadeCurve::Linear)
    } else if name == "equal_power"@ {
        Some(FadeCurve::EqualPower)
    } else if name == "s_curve"@ {
        Some(FadeCurve::SCurve)
    } else if name == "logarithmic"@ {
        Some(FadeCurve::Logarithmic)
    } else {
        None
    }
}

/// Parses a fade-curve name; an unknown name is refused with
/// `Unknown fade curve: <name>`.
pub fn fade_curve_from_name(name: &str) -> (r: Result<FadeCurve, String>)
    ensures
        match fade_curve_of_name(name@) {
            Some(c) => r == Ok::<FadeCurve, String>(c),
            None => r is Err && r->Err_0@ == "Unknown fade curve: "@ + name@,
        },
{
    if str_eq(name, "linear") {
        Ok(FadeCurve::Linear)
    } else if str_eq(name, "equal_power") {
        Ok(FadeCurve::EqualPower)
    } else if str_eq(name, "s_curve") {
        Ok(FadeCurve::SCurve)
    } else if str_eq(name, "logarithmic") {
        Ok(FadeCurve::Logarithmic)
    } else {
        let mut msg = String::from_str("Unknown fade curve: ");
        msg.append(name);
        Err(msg)
    }
}

/// Every curve's name parses back to that curve.
pub proof fn lemma_fade_curve_name_round_trip(c: FadeCurve)
    ensures
        fade_curve_of_name(fade_curve_name_spec(c)) == Some(c),
{
    reveal_strlit("linear");
    reveal_strlit("equal_power");
    reveal_strlit("s_curve");
    reveal_strlit("logarithmic");
    assert("linear"@.len() == 6 && "equal_power"@.len() == 11 && "s_curve"@.len() == 7
        && "logarithmic"@.len() == 11);
    assert("equal_power"@[0] != "logarithmic"@[0]);
}

/// How a clip splits at a timeline tick: the left half's length, where the
/// right half starts and how long it is, and (for audio) where in the
/// source the right half starts.
#[derive(Debug, Clone, Copy, PartialEq, Eq, Structural)]
pub struct SplitPlan {
    pub left_length: u64,
    pub right_position: u64,
    pub right_length: u64,
    pub right_source_start: u64,
}

/// The message for a split outside the clip.
pub open spec fn split_error_spec(at: u64, start: u64, end: int) -> Seq<char> {
    "split position "@ + decimal(at as nat) + " outside clip ["@ + decimal(start as nat) + ", "@
        + decimal(end as nat) + ")"@
}

/// Splitting a clip at `position` of `length` ticks (its audio source
/// running from `source_start` to `source_end` samples) at tick `at`: the
/// tick must fall strictly inside the clip; the right half's source start
/// moves forward in proportion to the left half's share of the clip.
pub open spec fn split_plan_spec(position: u64, length: u64, source_start: u64, source_end: u64, at: u64) -> Option<SplitPlan> {
    let end = position + length;
    if at <= position || at >= end {
        None
    } else {
        let first = (at - position) as u64;
        let total = if source_end > source_start { source_end - source_start } else { 0 };
        let offset = (total * first / (if length > 0 { length as int } else { 1 })) as u64;
        Some(SplitPlan {
            left_length: first,
            right_position: at,
            right_length: (end - at) as u64,
            right_source_start: if source_start + offset > u64::MAX { u64::MAX } else { (source_start + offset) as u64 },
        })
    }
}

/// Plans a split of a clip at tick `at`, or gives the message for a tick
/// outside it.
pub fn split_plan(position: u64, length: u64, source_start: u64, source_end: u64, at: u64) -> (r: Result<SplitPlan, String>)
    requires
        position + length <= u64::MAX,
    ensures
        match split_plan_spec(position, length, source_start, source_end, at) {
            Some(p) => r == Ok::<SplitPlan, String>(p),
            None => r matches Err(m) && m@ == split_error_spec(at, position, position + length),
        },
{
    let end = position + length;
    if at <= position || at >= end {
        let mut m = String::from_str("split position ");
        push_decimal(&mut m, at);
        m.append(" outside clip [");
        push_decimal(&mut m, position);
        m.append(", ");
        push_decimal(&mut m, end);
        m.append(")");
        return Err(m);
    }
    let first = at - position;
    let total: u64 = if source_end > source_start { source_end - source_start } else { 0 };
    let divisor: u64 = if length > 0 { length } else { 1 };
    assert(total as int * first as int <= u64::MAX as int * u64::MAX as int) by (nonlinear_arith)
        requires
            total <= u64::MAX,
            first <= u64::MAX,
    ;
    let product: u128 = total as u128 * first as u128;
    let offset = (product / divisor as u128) as u64;
    assert(offset as int == (total * first / (divisor as int)) as u64);
    let start = match source_start.checked_add(offset) {
        Some(v) => v,
        None => u64::MAX,
    };
    Ok(SplitPlan { left_length: first, right_position: at, right_length: end - at, right_source_start: start })
}

/// The halves of a split clip meet at the split tick and together cover
/// the clip exactly.
pub proof fn lemma_split_halves_cover_the_clip(position: u64, length: u64, source_start: u64, source_end: u64, at: u64)
    ensures
        split_plan_spec(position, length, source_start, source_end, at) matches Some(p) ==> {
            &&& p.left_length > 0 && p.right_length > 0
            &&& position + p.left_length == p.right_position
            &&& p.left_length + p.right_length == length
        },
{
}


/// Law: the right half of a split plays its source from where the left half
/// stopped. Inside the clip, with the source running forward, the right
/// half's source start lies within the source, at or after its start, and
/// its offset from the start is the left half's share of the source,
/// rounded down: `offset * length <= (source_end - source_start) * (at -
/// position) < (offset + 1) * length`. A backwards source has no length,
/// so the right half starts where the source starts.
pub proof fn lemma_split_source_follows_the_cut(position: u64, length: u64, source_start: u64, source_end: u64, at: u64)
    requires
        position + length <= u64::MAX,
        position < at < position + length,
    ensures
        split_plan_spec(position, length, source_start, source_end, at) matches Some(p) && ({
            let offset = p.right_source_start - source_start;
            &&& source_start <= p.right_source_start
            &&& source_start <= source_end ==> p.right_source_start <= source_end
                && offset * length <= (source_end - source_start) * (at - position)
                && (source_end - source_start) * (at - position) < (offset + 1) * length
            &&& source_end < source_start ==> p.right_source_start == source_start
        }),
{
    let first: int = at - position;
    let total: int = if source_end > source_start { source_end - source_start } else { 0 };
    let q = total * first / (length as int);
    assert(0 <= total * first) by (nonlinear_arith)
        requires
            0 <= total,
            0 <= first,
    ;
    vstd::arithmetic::div_mod::lemma_fundamental_div_mod(total * first, length as int);
    vstd::arithmetic::div_mod::lemma_mod_pos_bound(total * first, length as int);
    assert(total * first <= total * length) by (nonlinear_arith)
        requires
            0 <= total,
            first < length,
    ;
    vstd::arithmetic::div_mod::lemma_div_is_ordered(total * first, total * length, length as int);
    vstd::arithmetic::div_mod::lemma_div_by_multiple(total, length as int);
    assert(q <= total);
    assert(0 <= q) by {
        vstd::arithmetic::div_mod::lemma_div_pos_is_pos(total * first, length as int);
    }
    assert(q * length == length * q) by (nonlinear_arith);
    assert((q + 1) * length == q * length + length) by (nonlinear_arith);
}

} // verus!
