//! MIDI Learn: the store of controller-to-parameter bindings, learning a
//! binding from the next controller moved, and which bindings a controller
//! message drives.

use vstd::prelude::*;
use crate::text::str_eq;

verus! {

/// What a controller drives.
#[derive(Debug)]
pub enum MidiMapTarget {
    MasterVolume,
    TrackVolume { track_id: String },
    TrackPan { track_id: String },
    TrackMute { track_id: String },
}

/// A target by the characters of its track id.
pub enum MidiMapTargetView {
    MasterVolume,
    TrackVolume { track_id: Seq<char> },
    TrackPan { track_id: Seq<char> },
    TrackMute { track_id: Seq<char> },
}

impl View for MidiMapTarget {
    type V = MidiMapTargetView;

    open spec fn view(&self) -> MidiMapTargetView {
        match self {
            MidiMapTarget::MasterVolume => MidiMapTargetView::MasterVolume,
            MidiMapTarget::TrackVolume { track_id } => MidiMapTargetView::TrackVolume { track_id: track_id@ },
            MidiMapTarget::TrackPan { track_id } => MidiMapTargetView::TrackPan { track_id: track_id@ },
            MidiMapTarget::TrackMute { track_id } => MidiMapTargetView::TrackMute { track_id: track_id@ },
        }
    }
}

impl Clone for MidiMapTarget {
    fn clone(&self) -> (r: Self)
        ensures
            r@ == self@,
    {
        match self {
            MidiMapTarget::MasterVolume => MidiMapTarget::MasterVolume,
            MidiMapTarget::TrackVolume { track_id } => MidiMapTarget::TrackVolume { track_id: track_id.clone() },
            MidiMapTarget::TrackPan { track_id } => MidiMapTarget::TrackPan { track_id: track_id.clone() },
            MidiMapTarget::TrackMute { track_id } => MidiMapTarget::TrackMute { track_id: track_id.clone() },
        }
    }
}

/// Whether two targets are the same parameter.
pub fn same_target(a: &MidiMapTarget, b: &MidiMapTarget) -> (r: bool)
    ensures
        r == (a@ == b@),
{
    match (a, b) {
        (MidiMapTarget::MasterVolume, MidiMapTarget::MasterVolume) => true,
        (MidiMapTarget::TrackVolume { track_id: x }, MidiMapTarget::TrackVolume { track_id: y }) => str_eq(x, y),
        (MidiMapTarget::TrackPan { track_id: x }, MidiMapTarget::TrackPan { track_id: y }) => str_eq(x, y),
        (MidiMapTarget::TrackMute { track_id: x }, MidiMapTarget::TrackMute { track_id: y }) => str_eq(x, y),
        _ => false,
    }
}

/// A binding: controller number, channel (`None` listens on every
/// channel), and target.
#[derive(Debug)]
pub struct MidiMapping {
    pub id: u32,
    pub cc: u8,
    pub channel: Option<u8>,
    pub target: MidiMapTarget,
}

/// A binding by its target's view.
pub struct MappingView {
    pub id: u32,
    pub cc: u8,
    pub channel: Option<u8>,
    pub target: MidiMapTargetView,
}

impl View for MidiMapping {
    type V = MappingView;

    open spec fn view(&self) -> MappingView {
        MappingView { id: self.id, cc: self.cc, channel: self.channel, target: self.target@ }
    }
}

impl Clone for MidiMapping {
    fn clone(&self) -> (r: Self)
        ensures
            r@ == self@,
    {
        MidiMapping { id: self.id, cc: self.cc, channel: self.channel, target: self.target.clone() }
    }
}

/// Bindings by their views.
pub open spec fn mapping_views(s: Seq<MidiMapping>) -> Seq<MappingView> {
    s.map_values(|m: MidiMapping| m@)
}

/// Bindings other than the one for (cc, channel, target).
pub open spec fn not_binding(cc: u8, channel: Option<u8>, target: MidiMapTargetView) -> spec_fn(MappingView) -> bool {
    |m: MappingView| !(m.cc == cc && m.channel == channel && m.target == target)
}

/// Bindings other than the one with this id.
pub open spec fn not_id(id: u32) -> spec_fn(MappingView) -> bool {
    |m: MappingView| m.id != id
}

/// Bindings a controller message drives: same controller number, and a
/// channel that is unset or equal to the message's.
pub open spec fn drives(cc: u8, channel: u8) -> spec_fn(MappingView) -> bool {
    |m: MappingView| m.cc == cc && (m.channel is None || m.channel == Some(channel))
}

/// The binding store, with the target waiting to be learned and the
/// binding learned last.
#[derive(Debug)]
pub struct MidiMappings {
    pub mappings: Vec<MidiMapping>,
    pub learn: Option<MidiMapTarget>,
    pub last_learned: Option<MidiMapping>,
}

/// Whether a binding survives the removal rule: an identical binding to
/// (cc, channel, target) when `by_id` is false, the binding with `id`
/// otherwise.
pub open spec fn survives(by_id: bool, id: u32, cc: u8, channel: Option<u8>, target: MidiMapTargetView) -> spec_fn(MappingView) -> bool {
    if by_id { not_id(id) } else { not_binding(cc, channel, target) }
}

fn keep_where(list: &mut Vec<MidiMapping>, by_id: bool, id: u32, cc: u8, channel: Option<u8>, target: &MidiMapTarget)
    ensures
        mapping_views(final(list)@) == mapping_views(old(list)@).filter(survives(by_id, id, cc, channel, target@)),
{
    let ghost p = survives(by_id, id, cc, channel, target@);
    let ghost all = mapping_views(list@);
    let mut rest: Vec<MidiMapping> = Vec::new();
    std::mem::swap(&mut rest, list);
    let ghost rest0 = rest@;
    let n = rest.len();
    let mut i: usize = 0;
    while rest.len() > 0
        invariant
            all.len() == n,
            all == mapping_views(rest0),
            i + rest@.len() == n,
            rest@ == rest0.skip(i as int),
            p == survives(by_id, id, cc, channel, target@),
            mapping_views(list@) == all.take(i as int).filter(p),
        decreases rest@.len(),
    {
        let m = rest.remove(0);
        assert(m@ == all[i as int]);
        proof {
            reveal_with_fuel(Seq::filter, 1);
            assert(all.take(i as int + 1).drop_last() =~= all.take(i as int));
        }
        let keep = if by_id {
            m.id != id
        } else {
            !(m.cc == cc && m.channel == channel && same_target(&m.target, target))
        };
        if keep {
            let ghost before = mapping_views(list@);
            let ghost mv = m@;
            list.push(m);
            assert(mapping_views(list@) =~= before.push(mv));
        }
        assert(rest@ =~= rest0.skip(i as int + 1));
        i = i + 1;
    }
    assert(all.take(i as int) =~= all);
}

impl MidiMappings {
    /// An empty store, learning nothing.
    pub fn new() -> (m: MidiMappings)
        ensures
            m.mappings@.len() == 0,
            m.learn is None,
            m.last_learned is None,
    {
        MidiMappings { mappings: Vec::new(), learn: None, last_learned: None }
    }

    /// Binds controller `cc` on `channel` to `target` under id `id`,
    /// replacing an identical binding, and returns the new binding.
    pub fn add(&mut self, cc: u8, channel: Option<u8>, target: MidiMapTarget, id: u32) -> (m: MidiMapping)
        ensures
            m@ == (MappingView { id, cc, channel, target: target@ }),
            mapping_views(final(self).mappings@) == mapping_views(old(self).mappings@).filter(
                not_binding(cc, channel, target@),
            ).push(m@),
            final(self).learn == old(self).learn,
            final(self).last_learned == old(self).last_learned,
    {
        keep_where(&mut self.mappings, false, 0, cc, channel, &target);
        let m = MidiMapping { id, cc, channel, target };
        let ghost before = mapping_views(self.mappings@);
        self.mappings.push(m.clone());
        assert(mapping_views(self.mappings@) =~= before.push(m@));
        m
    }

    /// Removes the binding with id `id`; `true` when one was removed.
    pub fn remove(&mut self, id: u32) -> (removed: bool)
        ensures
            mapping_views(final(self).mappings@) == mapping_views(old(self).mappings@).filter(not_id(id)),
            removed == (final(self).mappings@.len() != old(self).mappings@.len()),
            final(self).learn == old(self).learn,
            final(self).last_learned == old(self).last_learned,
    {
        let before = self.mappings.len();
        keep_where(&mut self.mappings, true, id, 0, None, &MidiMapTarget::MasterVolume);
        self.mappings.len() != before
    }

    /// Removes every binding.
    pub fn clear(&mut self)
        ensures
            final(self).mappings@.len() == 0,
            final(self).learn == old(self).learn,
            final(self).last_learned == old(self).last_learned,
    {
        self.mappings.clear();
    }

    /// When a target is waiting to be learned, the controller just moved
    /// becomes its binding (on any channel, under id `id`): the target
    /// stops waiting, the binding is stored and remembered as the last
    /// learned, and returned. Otherwise nothing changes.
    pub fn capture_learned(&mut self, cc: u8, id: u32) -> (r: Option<MidiMapping>)
        ensures
            match old(self).learn {
                Some(t) => {
                    &&& r matches Some(m)
                    &&& r->0@ == (MappingView { id, cc, channel: None, target: t@ })
                    &&& final(self).learn is None
                    &&& final(self).last_learned matches Some(l)
                    &&& final(self).last_learned->0@ == r->0@
                    &&& mapping_views(final(self).mappings@) == mapping_views(old(self).mappings@).filter(
                        not_binding(cc, None, t@),
                    ).push(r->0@)
                },
                None => r is None && final(self).mappings@ == old(self).mappings@ && final(self).learn is None
                    && final(self).last_learned == old(self).last_learned,
            },
    {
        match self.learn.take() {
            Some(target) => {
                let m = self.add(cc, None, target, id);
                self.last_learned = Some(m.clone());
                Some(m)
            },
            None => None,
        }
    }

    /// The targets a controller message drives, in binding order.
    pub fn applicable_targets(&self, cc: u8, channel: u8) -> (ts: Vec<MidiMapTarget>)
        ensures
            ts@.map_values(|t: MidiMapTarget| t@) == mapping_views(self.mappings@).filter(drives(cc, channel)).map_values(
                |m: MappingView| m.target,
            ),
    {
        let ghost all = mapping_views(self.mappings@);
        let mut ts: Vec<MidiMapTarget> = Vec::new();
        let mut i: usize = 0;
        while i < self.mappings.len()
            invariant
                0 <= i <= self.mappings@.len(),
                all == mapping_views(self.mappings@),
                all.len() == self.mappings@.len(),
                ts@.map_values(|t: MidiMapTarget| t@) == all.take(i as int).filter(drives(cc, channel)).map_values(
                    |m: MappingView| m.target,
                ),
            decreases self.mappings@.len() - i,
        {
            proof {
                reveal_with_fuel(Seq::filter, 1);
                assert(all.take(i as int + 1).drop_last() =~= all.take(i as int));
            }
            let m = &self.mappings[i];
            let applies = m.cc == cc && match m.channel {
                None => true,
                Some(c) => c == channel,
            };
            if applies {
                let ghost before = ts@.map_values(|t: MidiMapTarget| t@);
                let t = m.target.clone();
                ts.push(t);
                proof {
                    let f = all.take(i as int).filter(drives(cc, channel));
                    assert(all.take(i as int + 1).filter(drives(cc, channel)) == f.push(all[i as int]));
                    assert(f.push(all[i as int]).map_values(|m: MappingView| m.target) =~= f.map_values(
                        |m: MappingView| m.target,
                    ).push(all[i as int].target));
                    assert(ts@.map_values(|t: MidiMapTarget| t@) =~= before.push(all[i as int].target));
                }
            }
            i = i + 1;
        }
        assert(all.take(i as int) =~= all);
        ts
    }
}

/// The id the next binding gets after loading a list: one more than the
/// largest id present, or 1 for an empty list.
pub open spec fn next_id_spec(s: Seq<MappingView>) -> int
    decreases s.len(),
{
    if s.len() == 0 {
        1
    } else {
        let rest = next_id_spec(s.drop_last());
        if s.last().id + 1 > rest { s.last().id + 1 } else { rest }
    }
}

/// The first free id after loading `mappings`.
pub fn next_id_after(mappings: &Vec<MidiMapping>) -> (n: u32)
    requires
        forall|k: int| 0 <= k < mappings@.len() ==> (#[trigger] mappings@[k]).id < u32::MAX,
    ensures
        n == next_id_spec(mapping_views(mappings@)),
{
    let ghost all = mapping_views(mappings@);
    let mut max_id: u32 = 0;
    let mut i: usize = 0;
    while i < mappings.len()
        invariant
            0 <= i <= mappings@.len(),
            all == mapping_views(mappings@),
            all.len() == mappings@.len(),
            forall|k: int| 0 <= k < mappings@.len() ==> (#[trigger] mappings@[k]).id < u32::MAX,
            max_id + 1 == next_id_spec(all.take(i as int)),
            max_id < u32::MAX,
        decreases mappings@.len() - i,
    {
        proof {
            assert(all.take(i as int + 1).drop_last() =~= all.take(i as int));
            assert(all.take(i as int + 1).last() == all[i as int]);
        }
        if mappings[i].id > max_id {
            max_id = mappings[i].id;
        }
        i = i + 1;
    }
    assert(all.take(i as int) =~= all);
    max_id + 1
}

} // verus!
