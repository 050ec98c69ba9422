//! Sidechain routing: which mixer track feeds which plug-in sidechain input,
//! kept as a table of edges with at most one edge per
//! (source, target, input) triple.

use vstd::prelude::*;
use crate::text::str_eq;

verus! {

/// One edge: a mixer track's audio into a plug-in's sidechain input.
#[derive(Debug)]
pub struct SidechainRoute {
    pub source_track_id: String,
    pub target_plugin_id: String,
    pub target_input_index: u8,
    pub send_level_db: i16,
}

impl Clone for SidechainRoute {
    fn clone(&self) -> (r: Self)
        ensures
            r == *self,
    {
        SidechainRoute {
            source_track_id: self.source_track_id.clone(),
            target_plugin_id: self.target_plugin_id.clone(),
            target_input_index: self.target_input_index,
            send_level_db: self.send_level_db,
        }
    }
}

/// Whether a route is the edge (source, target, input).
pub open spec fn is_edge(r: SidechainRoute, source: Seq<char>, target: Seq<char>, input: u8) -> bool {
    r.source_track_id@ == source && r.target_plugin_id@ == target && r.target_input_index == input
}

/// Two routes are the same edge: same source, target and input.
pub open spec fn same_triple(a: SidechainRoute, b: SidechainRoute) -> bool {
    a.source_track_id@ == b.source_track_id@ && a.target_plugin_id@ == b.target_plugin_id@
        && a.target_input_index == b.target_input_index
}

/// No two routes of a table are the same edge.
pub open spec fn edges_unique(routes: Seq<SidechainRoute>) -> bool {
    crate::seqs::pairwise_apart(routes, |a: SidechainRoute, b: SidechainRoute| same_triple(a, b))
}

/// The routing table the engine reads when it wires the graph.
#[derive(Debug)]
pub struct SidechainRoutingTable {
    routes: Vec<SidechainRoute>,
}

impl SidechainRoutingTable {
    /// A table never holds the same edge twice.
    #[verifier::type_invariant]
    spec fn unique_edges(self) -> bool {
        edges_unique(self.routes@)
    }
}

impl View for SidechainRoutingTable {
    type V = Seq<SidechainRoute>;

    closed spec fn view(&self) -> Seq<SidechainRoute> {
        self.routes@
    }
}

/// Routes that do not feed `plugin`.
pub open spec fn not_into(plugin: Seq<char>) -> spec_fn(SidechainRoute) -> bool {
    |r: SidechainRoute| r.target_plugin_id@ != plugin
}

/// Routes that are not fed by `track`.
pub open spec fn not_from(track: Seq<char>) -> spec_fn(SidechainRoute) -> bool {
    |r: SidechainRoute| r.source_track_id@ != track
}

/// Routes other than the edge (source, target, input).
pub open spec fn not_edge(source: Seq<char>, target: Seq<char>, input: u8) -> spec_fn(SidechainRoute) -> bool {
    |r: SidechainRoute| !is_edge(r, source, target, input)
}

/// Routes that feed `plugin`.
pub open spec fn into(plugin: Seq<char>) -> spec_fn(SidechainRoute) -> bool {
    |r: SidechainRoute| r.target_plugin_id@ == plugin
}

/// Routes fed by `track`.
pub open spec fn from(track: Seq<char>) -> spec_fn(SidechainRoute) -> bool {
    |r: SidechainRoute| r.source_track_id@ == track
}

/// The index of the edge (source, target, input) in `routes`, if present.
pub open spec fn edge_index(routes: Seq<SidechainRoute>, source: Seq<char>, target: Seq<char>, input: u8) -> Option<int> {
    crate::seqs::first_match(routes, |r: SidechainRoute| is_edge(r, source, target, input))
}

fn matches_edge(r: &SidechainRoute, source: &str, target: &str, input: u8) -> (b: bool)
    ensures
        b == is_edge(*r, source@, target@, input),
{
    str_eq(r.source_track_id.as_str(), source) && str_eq(r.target_plugin_id.as_str(), target)
        && r.target_input_index == input
}

impl SidechainRoutingTable {
    /// An empty table.
    pub fn new() -> (t: SidechainRoutingTable)
        ensures
            t@ == Seq::<SidechainRoute>::empty(),
    {
        SidechainRoutingTable { routes: Vec::new() }
    }

    /// Connects a track to a plug-in sidechain input. An existing edge with
    /// the same source, target and input only gets the new send level and
    /// `false` is returned; otherwise the edge is appended and `true` returned.
    pub fn connect(
        &mut self,
        source_track_id: &str,
        target_plugin_id: &str,
        target_input_index: u8,
        send_level_db: i16,
    ) -> (created: bool)
        ensures
            edges_unique(final(self)@),
            match edge_index(old(self)@, source_track_id@, target_plugin_id@, target_input_index) {
                Some(k) => !created && final(self)@ == old(self)@.update(
                    k,
                    SidechainRoute { send_level_db, ..old(self)@[k] },
                ),
                None => created && final(self)@.len() == old(self)@.len() + 1
                    && final(self)@.drop_last() == old(self)@
                    && is_edge(final(self)@.last(), source_track_id@, target_plugin_id@, target_input_index)
                    && final(self)@.last().send_level_db == send_level_db,
            },
    {
        proof {
            use_type_invariant(&*self);
        }
        let mut routes: Vec<SidechainRoute> = Vec::new();
        std::mem::swap(&mut routes, &mut self.routes);
        let ghost rel = |a: SidechainRoute, b: SidechainRoute| same_triple(a, b);
        let mut i: usize = 0;
        while i < routes.len()
            invariant
                0 <= i <= routes@.len(),
                routes@ == old(self).routes@,
                edges_unique(routes@),
                forall|j: int| 0 <= j < i ==> !is_edge(#[trigger] routes@[j], source_track_id@, target_plugin_id@, target_input_index),
            decreases routes@.len() - i,
        {
            if matches_edge(&routes[i], source_track_id, target_plugin_id, target_input_index) {
                proof {
                    crate::seqs::lemma_first_match_at(routes@, |r: SidechainRoute| is_edge(r, source_track_id@, target_plugin_id@, target_input_index), i as int);
                }
                let old_route = routes[i].clone();
                let updated = SidechainRoute { send_level_db, ..old_route };
                routes.set(i, updated);
                assert(edges_unique(routes@)) by {
                    assert forall|a: int, b: int| 0 <= a < b < routes@.len() implies !same_triple(#[trigger] routes@[a], #[trigger] routes@[b]) by {
                        assert(!same_triple(old(self).routes@[a], old(self).routes@[b]));
                    }
                }
                self.routes = routes;
                return false;
            }
            i = i + 1;
        }
        proof {
            crate::seqs::lemma_first_match_none(routes@, |r: SidechainRoute| is_edge(r, source_track_id@, target_plugin_id@, target_input_index));
        }
        routes.push(SidechainRoute {
            source_track_id: String::from_str(source_track_id),
            target_plugin_id: String::from_str(target_plugin_id),
            target_input_index,
            send_level_db,
        });
        assert(routes@.drop_last() =~= old(self).routes@);
        assert(edges_unique(routes@)) by {
            assert forall|a: int, b: int| 0 <= a < b < routes@.len() implies !same_triple(#[trigger] routes@[a], #[trigger] routes@[b]) by {
                if b < routes@.len() - 1 {
                    assert(!same_triple(old(self).routes@[a], old(self).routes@[b]));
                } else {
                    assert(!is_edge(old(self).routes@[a], source_track_id@, target_plugin_id@, target_input_index));
                }
            }
        }
        self.routes = routes;
        true
    }

    /// Removes the edge (source, target, input); `true` when one was removed.
    pub fn disconnect(&mut self, source_track_id: &str, target_plugin_id: &str, target_input_index: u8) -> (removed: bool)
        ensures
            final(self)@ == old(self)@.filter(not_edge(source_track_id@, target_plugin_id@, target_input_index)),
            removed == (final(self)@.len() != old(self)@.len()),
    {
        proof {
            use_type_invariant(&*self);
        }
        let mut kept: Vec<SidechainRoute> = Vec::new();
        let mut i: usize = 0;
        while i < self.routes.len()
            invariant
                0 <= i <= self.routes@.len(),
                self.routes@ == old(self).routes@,
                kept@ == self.routes@.take(i as int).filter(not_edge(source_track_id@, target_plugin_id@, target_input_index)),
            decreases self.routes@.len() - i,
        {
            proof {
                assert(self.routes@.take(i as int + 1).drop_last() =~= self.routes@.take(i as int));
                assert(self.routes@.take(i as int + 1).last() == self.routes@[i as int]);
                reveal_with_fuel(Seq::filter, 1);
            }
            if !matches_edge(&self.routes[i], source_track_id, target_plugin_id, target_input_index) {
                kept.push(self.routes[i].clone());
            }
            i = i + 1;
        }
        assert(self.routes@.take(i as int) =~= self.routes@);
        proof {
            crate::seqs::lemma_filter_keeps_apart(self.routes@, not_edge(source_track_id@, target_plugin_id@, target_input_index), |a: SidechainRoute, b: SidechainRoute| same_triple(a, b));
        }
        let before = self.routes.len();
        self.routes = kept;
        self.routes.len() != before
    }

    /// Removes every edge into `plugin_id` (the plug-in was deleted).
    pub fn clear_target(&mut self, plugin_id: &str)
        ensures
            edges_unique(final(self)@),
            final(self)@ == old(self)@.filter(not_into(plugin_id@)),
    {
        proof {
            use_type_invariant(&*self);
        }
        let mut kept: Vec<SidechainRoute> = Vec::new();
        let mut i: usize = 0;
        while i < self.routes.len()
            invariant
                0 <= i <= self.routes@.len(),
                self.routes@ == old(self).routes@,
                kept@ == self.routes@.take(i as int).filter(not_into(plugin_id@)),
            decreases self.routes@.len() - i,
        {
            proof {
                assert(self.routes@.take(i as int + 1).drop_last() =~= self.routes@.take(i as int));
                assert(self.routes@.take(i as int + 1).last() == self.routes@[i as int]);
                reveal_with_fuel(Seq::filter, 1);
            }
            if !str_eq(self.routes[i].target_plugin_id.as_str(), plugin_id) {
                kept.push(self.routes[i].clone());
            }
            i = i + 1;
        }
        assert(self.routes@.take(i as int) =~= self.routes@);
        proof {
            crate::seqs::lemma_filter_keeps_apart(self.routes@, not_into(plugin_id@), |a: SidechainRoute, b: SidechainRoute| same_triple(a, b));
        }
        self.routes = kept;
    }

    /// Removes every edge fed by `track_id` (the track was deleted).
    pub fn clear_source(&mut self, track_id: &str)
        ensures
            edges_unique(final(self)@),
            final(self)@ == old(self)@.filter(not_from(track_id@)),
    {
        proof {
            use_type_invariant(&*self);
        }
        let mut kept: Vec<SidechainRoute> = Vec::new();
        let mut i: usize = 0;
        while i < self.routes.len()
            invariant
                0 <= i <= self.routes@.len(),
                self.routes@ == old(self).routes@,
                kept@ == self.routes@.take(i as int).filter(not_from(track_id@)),
            decreases self.routes@.len() - i,
        {
            proof {
                assert(self.routes@.take(i as int + 1).drop_last() =~= self.routes@.take(i as int));
                assert(self.routes@.take(i as int + 1).last() == self.routes@[i as int]);
                reveal_with_fuel(Seq::filter, 1);
            }
            if !str_eq(self.routes[i].source_track_id.as_str(), track_id) {
                kept.push(self.routes[i].clone());
            }
            i = i + 1;
        }
        assert(self.routes@.take(i as int) =~= self.routes@);
        proof {
            crate::seqs::lemma_filter_keeps_apart(self.routes@, not_from(track_id@), |a: SidechainRoute, b: SidechainRoute| same_triple(a, b));
        }
        self.routes = kept;
    }

    /// The edges into `plugin_id`, in table order.
    pub fn routes_to(&self, plugin_id: &str) -> (out: Vec<SidechainRoute>)
        ensures
            out@ == self@.filter(into(plugin_id@)),
    {
        let mut out: Vec<SidechainRoute> = Vec::new();
        let mut i: usize = 0;
        while i < self.routes.len()
            invariant
                0 <= i <= self.routes@.len(),
                out@ == self.routes@.take(i as int).filter(into(plugin_id@)),
            decreases self.routes@.len() - i,
        {
            proof {
                assert(self.routes@.take(i as int + 1).drop_last() =~= self.routes@.take(i as int));
                assert(self.routes@.take(i as int + 1).last() == self.routes@[i as int]);
                reveal_with_fuel(Seq::filter, 1);
            }
            if str_eq(self.routes[i].target_plugin_id.as_str(), plugin_id) {
                out.push(self.routes[i].clone());
            }
            i = i + 1;
        }
        assert(self.routes@.take(i as int) =~= self.routes@);
        out
    }

    /// The edges fed by `track_id`, in table order.
    pub fn routes_from(&self, track_id: &str) -> (out: Vec<SidechainRoute>)
        ensures
            out@ == self@.filter(from(track_id@)),
    {
        let mut out: Vec<SidechainRoute> = Vec::new();
        let mut i: usize = 0;
        while i < self.routes.len()
            invariant
                0 <= i <= self.routes@.len(),
                out@ == self.routes@.take(i as int).filter(from(track_id@)),
            decreases self.routes@.len() - i,
        {
            proof {
                assert(self.routes@.take(i as int + 1).drop_last() =~= self.routes@.take(i as int));
                assert(self.routes@.take(i as int + 1).last() == self.routes@[i as int]);
                reveal_with_fuel(Seq::filter, 1);
            }
            if str_eq(self.routes[i].source_track_id.as_str(), track_id) {
                out.push(self.routes[i].clone());
            }
            i = i + 1;
        }
        assert(self.routes@.take(i as int) =~= self.routes@);
        out
    }

    /// Every edge, in table order.
    pub fn all(&self) -> (s: &[SidechainRoute])
        ensures
            edges_unique(s@),
            s@ == self@,
    {
        proof {
            use_type_invariant(self);
        }
        self.routes.as_slice()
    }
}

} // verus!
