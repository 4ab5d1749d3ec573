//! The transport network: nodes, carrier edges and the directed graph.
//!
//! Monetary fields are in ten-thousandths of a US dollar, coordinates in
//! micro-degrees, carbon intensity in grams of CO2 per tonne-kilometre,
//! durations in whole hours.

use vstd::prelude::*;
use petgraph::graph::DiGraph;

pub use crate::modes::TransportMode;
use crate::digraph::graph_edges;
use crate::digraph::graph_nodes;
use crate::digraph::pg_add_edge;
use crate::digraph::pg_add_node;
use crate::digraph::pg_edge_count;
use crate::digraph::pg_edge_weight;
use crate::digraph::pg_new;
use crate::digraph::pg_node_count;
use crate::digraph::pg_node_ref;
use crate::digraph::pg_out_edges;
use crate::text::str_eq;

verus! {

/// A node of the transport network: a port, terminal or hub.
/// `lat` and `lon` are in micro-degrees.
#[derive(Debug)]
pub struct TransportNode {
    pub id: String,
    pub code: String,
    pub name: String,
    pub country_code: String,
    pub lat: i64,
    pub lon: i64,
    pub modes: Vec<TransportMode>,
    pub avg_dwell_hours: u64,
}

/// Field-wise equality of two nodes, with strings compared by view.
pub open spec fn node_eq(a: TransportNode, b: TransportNode) -> bool {
    a.id@ == b.id@ && a.code@ == b.code@ && a.name@ == b.name@ && a.country_code@
        == b.country_code@ && a.lat == b.lat && a.lon == b.lon && a.modes@ == b.modes@
        && a.avg_dwell_hours == b.avg_dwell_hours
}

fn copy_modes(v: &Vec<TransportMode>) -> (r: Vec<TransportMode>)
    ensures
        r@ == v@,
{
    let mut r: Vec<TransportMode> = Vec::new();
    let mut i: usize = 0;
    while i < v.len()
        invariant
            0 <= i <= v@.len(),
            r@ == v@.take(i as int),
        decreases v@.len() - i,
    {
        r.push(v[i]);
        proof {
            assert(v@.take(i + 1) =~= v@.take(i as int).push(v@[i as int]));
        }
        i += 1;
    }
    proof {
        assert(v@.take(v@.len() as int) =~= v@);
    }
    r
}

impl Clone for TransportNode {
    fn clone(&self) -> (r: Self)
        ensures
            node_eq(r, *self),
    {
        TransportNode {
            id: self.id.clone(),
            code: self.code.clone(),
            name: self.name.clone(),
            country_code: self.country_code.clone(),
            lat: self.lat,
            lon: self.lon,
            modes: copy_modes(&self.modes),
            avg_dwell_hours: self.avg_dwell_hours,
        }
    }
}

/// An edge of the network: a carrier-operated leg between two nodes.
///
/// `base_cost_usd` and `cost_per_kg` are in ten-thousandths of a US dollar,
/// `carbon_per_tonne_km` in grams of CO2 per tonne-kilometre,
/// `transit_hours` in whole hours and `carrier_wage_cents` in cents per
/// hour.
#[derive(Debug)]
pub struct TransportEdge {
    pub id: String,
    pub code: String,
    pub mode: TransportMode,
    pub carrier_code: String,
    pub carrier_name: String,
    pub distance_km: u64,
    pub base_cost_usd: u64,
    pub cost_per_kg: u64,
    pub transit_hours: u64,
    pub carbon_per_tonne_km: u64,
    pub carrier_wage_cents: u32,
    pub carrier_safety_rating: u32,
    pub carrier_unionized: bool,
    pub carrier_sanctioned: bool,
    pub active: bool,
}

/// Field-wise equality of two edges, with strings compared by view.
pub open spec fn edge_eq(a: TransportEdge, b: TransportEdge) -> bool {
    a.id@ == b.id@ && a.code@ == b.code@ && a.mode == b.mode && a.carrier_code@ == b.carrier_code@
        && a.carrier_name@ == b.carrier_name@ && a.distance_km == b.distance_km && a.base_cost_usd
        == b.base_cost_usd && a.cost_per_kg == b.cost_per_kg && a.transit_hours == b.transit_hours
        && a.carbon_per_tonne_km == b.carbon_per_tonne_km && a.carrier_wage_cents
        == b.carrier_wage_cents && a.carrier_safety_rating == b.carrier_safety_rating
        && a.carrier_unionized == b.carrier_unionized && a.carrier_sanctioned
        == b.carrier_sanctioned && a.active == b.active
}

impl Clone for TransportEdge {
    fn clone(&self) -> (r: Self)
        ensures
            edge_eq(r, *self),
    {
        TransportEdge {
            id: self.id.clone(),
            code: self.code.clone(),
            mode: self.mode,
            carrier_code: self.carrier_code.clone(),
            carrier_name: self.carrier_name.clone(),
            distance_km: self.distance_km,
            base_cost_usd: self.base_cost_usd,
            cost_per_kg: self.cost_per_kg,
            transit_hours: self.transit_hours,
            carbon_per_tonne_km: self.carbon_per_tonne_km,
            carrier_wage_cents: self.carrier_wage_cents,
            carrier_safety_rating: self.carrier_safety_rating,
            carrier_unionized: self.carrier_unionized,
            carrier_sanctioned: self.carrier_sanctioned,
            active: self.active,
        }
    }
}

/// Monetary cost of carrying `weight_kg` kilograms over an edge, in
/// ten-thousandths of a US dollar: base cost plus per-kilogram cost.
pub open spec fn cost_of(e: TransportEdge, weight_kg: u64) -> int {
    e.base_cost_usd + e.cost_per_kg * weight_kg
}

/// Carbon emitted carrying `weight_kg` kilograms over an edge, in
/// milligrams of CO2: distance times tonnage times intensity.
pub open spec fn carbon_of(e: TransportEdge, weight_kg: u64) -> int {
    e.distance_km * weight_kg * e.carbon_per_tonne_km
}

/// Labor score of an edge in ten-thousandths, against a country minimum
/// wage in cents per hour: 0.4 wage + 0.4 safety + 0.2 unionization,
/// where the wage part is the carrier wage against twice the country
/// minimum, capped at one (one half when the minimum is zero), the safety
/// part is the rating out of five, and the union part is one when
/// unionized, one half otherwise.
pub open spec fn labor_of(e: TransportEdge, country_min_wage: u32) -> int {
    let wage_part: int = if country_min_wage == 0 {
        5000
    } else {
        let w = e.carrier_wage_cents * 10000 / ((2 * country_min_wage) as int);
        if w < 10000 {
            w
        } else {
            10000
        }
    };
    let safety_part: int = e.carrier_safety_rating * 2000;
    let union_part: int = if e.carrier_unionized {
        10000
    } else {
        5000
    };
    (4 * wage_part + 4 * safety_part + 2 * union_part) / 10
}

impl TransportEdge {
    /// Cost for the given shipment weight; `None` when the exact value
    /// does not fit the monetary range.
    pub fn calculate_cost(&self, weight_kg: u64) -> (r: Option<u64>)
        ensures
            r is Some <==> cost_of(*self, weight_kg) <= u64::MAX,
            r is Some ==> r->Some_0 == cost_of(*self, weight_kg),
    {
        match self.cost_per_kg.checked_mul(weight_kg) {
            Some(v) => self.base_cost_usd.checked_add(v),
            None => None,
        }
    }

    /// Carbon emissions for the given shipment weight; `None` when the
    /// exact value does not fit the range.
    pub fn calculate_carbon(&self, weight_kg: u64) -> (r: Option<u64>)
        ensures
            r is Some <==> carbon_of(*self, weight_kg) <= u64::MAX,
            r is Some ==> r->Some_0 == carbon_of(*self, weight_kg),
    {
        if self.carbon_per_tonne_km == 0 {
            return Some(0);
        }
        match self.distance_km.checked_mul(weight_kg) {
            Some(dw) => dw.checked_mul(self.carbon_per_tonne_km),
            None => {
                proof {
                    let d = self.distance_km as int;
                    let w = weight_kg as int;
                    let g = self.carbon_per_tonne_km as int;
                    assert(d * w * g >= d * w) by (nonlinear_arith)
                        requires
                            g >= 1,
                            d * w > u64::MAX,
                    ;
                }
                None
            },
        }
    }

    /// Labor score of the edge against a country minimum wage, in
    /// ten-thousandths.
    pub fn labor_score(&self, country_min_wage: u32) -> (r: u64)
        ensures
            r == labor_of(*self, country_min_wage),
    {
        let wage_part: u64 = if country_min_wage > 0 {
            let w = (self.carrier_wage_cents as u64) * 10000 / (2 * (country_min_wage as u64));
            if w < 10000 {
                w
            } else {
                10000
            }
        } else {
            5000
        };
        let safety_part: u64 = (self.carrier_safety_rating as u64) * 2000;
        let union_part: u64 = if self.carrier_unionized {
            10000
        } else {
            5000
        };
        (4 * wage_part + 4 * safety_part + 2 * union_part) / 10
    }
}

/// Index of the binding a code resolves to: the most recently added node
/// with that code, as a later insertion replaces an earlier one.
pub open spec fn code_lookup(nodes: Seq<TransportNode>, code: Seq<char>) -> Option<int>
    decreases nodes.len(),
{
    if nodes.len() == 0 {
        None
    } else if nodes.last().code@ == code {
        Some(nodes.len() - 1)
    } else {
        code_lookup(nodes.drop_last(), code)
    }
}

pub proof fn lemma_code_lookup_valid(nodes: Seq<TransportNode>, code: Seq<char>)
    ensures
        match code_lookup(nodes, code) {
            Some(i) => 0 <= i < nodes.len() && nodes[i].code@ == code,
            None => forall|i: int| 0 <= i < nodes.len() ==> nodes[i].code@ != code,
        },
    decreases nodes.len(),
{
    if nodes.len() > 0 {
        lemma_code_lookup_valid(nodes.drop_last(), code);
        if nodes.last().code@ != code {
            match code_lookup(nodes.drop_last(), code) {
                Some(i) => {
                    assert(nodes.drop_last()[i] == nodes[i]);
                },
                None => {
                    assert forall|i: int| 0 <= i < nodes.len() implies nodes[i].code@ != code by {
                        if i < nodes.len() - 1 {
                            assert(nodes.drop_last()[i] == nodes[i]);
                        }
                    }
                },
            }
        }
    }
}

/// Edge counts of a graph, split by transport mode.
#[derive(Debug, Clone, Copy, PartialEq, Eq, Structural)]
pub struct ModeCounts {
    pub maritime: usize,
    pub rail: usize,
    pub road: usize,
    pub air: usize,
}

/// Number of edges among `s` with mode `m`.
pub open spec fn count_mode(s: Seq<(usize, usize, TransportEdge)>, m: TransportMode) -> int
    decreases s.len(),
{
    if s.len() == 0 {
        0
    } else {
        count_mode(s.drop_last(), m) + if s.last().2.mode == m {
            1int
        } else {
            0int
        }
    }
}

/// One returned neighbor pair corresponds to an out-edge of node `a`:
/// some edge with source `a` whose target node and data the pair copies.
pub open spec fn out_pair_ok(
    p: (TransportNode, TransportEdge),
    a: usize,
    nodes: Seq<TransportNode>,
    edges: Seq<(usize, usize, TransportEdge)>,
) -> bool {
    exists|j: int|
        #![trigger edges[j]]
        0 <= j < edges.len() && edges[j].0 == a && edges[j].1 < nodes.len() && node_eq(
            p.0,
            nodes[edges[j].1 as int],
        ) && edge_eq(p.1, edges[j].2)
}

/// Every in-range out-edge of node `a` is represented among the
/// returned pairs: for each edge with source `a` whose target is a node
/// of the graph, some pair copies that target node and edge.
pub open spec fn edges_from_complete(
    r: Seq<(TransportNode, TransportEdge)>,
    a: usize,
    nodes: Seq<TransportNode>,
    edges: Seq<(usize, usize, TransportEdge)>,
) -> bool {
    forall|j: int|
        #![trigger edges[j]]
        0 <= j < edges.len() && edges[j].0 == a && (edges[j].1 as int) < nodes.len()
            ==> exists|q: int|
            #![trigger r[q]]
            0 <= q < r.len() && node_eq(r[q].0, nodes[edges[j].1 as int]) && edge_eq(
                r[q].1,
                edges[j].2,
            )
}

/// The transport graph: a directed multigraph of nodes and carrier edges,
/// looked up by node code. `loaded_at` is in hours since the Unix epoch,
/// `load_time_ms` in milliseconds.
pub struct TransportGraph {
    graph: DiGraph<TransportNode, TransportEdge>,
    pub loaded_at: u64,
    pub load_time_ms: u64,
}

impl TransportGraph {
    /// When the graph was loaded, in hours since the Unix epoch.
    pub closed spec fn spec_loaded_at(&self) -> u64 {
        self.loaded_at
    }

    /// How long the load took, in milliseconds.
    pub closed spec fn spec_load_time_ms(&self) -> u64 {
        self.load_time_ms
    }

    /// Records when the graph was loaded and how long the load took.
    pub fn set_load_info(&mut self, loaded_at: u64, load_time_ms: u64)
        ensures
            final(self).nodes_seq() == old(self).nodes_seq(),
            final(self).edges_seq() == old(self).edges_seq(),
            final(self).spec_loaded_at() == loaded_at,
            final(self).spec_load_time_ms() == load_time_ms,
    {
        self.loaded_at = loaded_at;
        self.load_time_ms = load_time_ms;
    }

    /// The nodes the graph holds, in insertion order.
    pub closed spec fn nodes_seq(&self) -> Seq<TransportNode> {
        graph_nodes(self.graph)
    }

    /// The edges the graph holds, in insertion order, as
    /// (source index, target index, edge data).
    pub closed spec fn edges_seq(&self) -> Seq<(usize, usize, TransportEdge)> {
        graph_edges(self.graph)
    }

    /// Creates an empty graph.
    pub fn new() -> (r: Self)
        ensures
            r.nodes_seq().len() == 0,
            r.edges_seq().len() == 0,
            r.spec_loaded_at() == 0,
            r.spec_load_time_ms() == 0,
    {
        TransportGraph { graph: pg_new(), loaded_at: 0, load_time_ms: 0 }
    }

    /// Appends a node and returns its index. A node with an already bound
    /// code replaces the earlier binding for lookups by code.
    pub fn add_node(&mut self, node: TransportNode) -> (r: usize)
        requires
            old(self).nodes_seq().len() < 0xffff_ffff,
        ensures
            final(self).nodes_seq() == old(self).nodes_seq().push(node),
            final(self).edges_seq() == old(self).edges_seq(),
            final(self).spec_loaded_at() == old(self).spec_loaded_at(),
            final(self).spec_load_time_ms() == old(self).spec_load_time_ms(),
            r == old(self).nodes_seq().len(),
    {
        pg_add_node(&mut self.graph, node)
    }

    /// Adds an edge between the nodes bound to the two codes; returns
    /// false, without mutation, when either code is unknown.
    pub fn add_edge(&mut self, from_code: &str, to_code: &str, edge: TransportEdge) -> (r: bool)
        requires
            old(self).edges_seq().len() < 0xffff_ffff,
        ensures
            final(self).nodes_seq() == old(self).nodes_seq(),
            final(self).spec_loaded_at() == old(self).spec_loaded_at(),
            final(self).spec_load_time_ms() == old(self).spec_load_time_ms(),
            (match (
                code_lookup(old(self).nodes_seq(), from_code@),
                code_lookup(old(self).nodes_seq(), to_code@),
            ) {
                (Some(a), Some(b)) => r && final(self).edges_seq() == old(self).edges_seq().push(
                    (a as usize, b as usize, edge),
                ),
                _ => !r && final(self).edges_seq() == old(self).edges_seq(),
            }),
    {
        proof {
            lemma_code_lookup_valid(self.nodes_seq(), from_code@);
            lemma_code_lookup_valid(self.nodes_seq(), to_code@);
        }
        let fi = self.get_node_index(from_code);
        let ti = self.get_node_index(to_code);
        match (fi, ti) {
            (Some(a), Some(b)) => {
                pg_add_edge(&mut self.graph, a, b, edge);
                true
            },
            _ => false,
        }
    }

    /// Index of the node a code is bound to.
    pub fn get_node_index(&self, code: &str) -> (r: Option<usize>)
        ensures
            match r {
                Some(i) => code_lookup(self.nodes_seq(), code@) == Some(i as int),
                None => code_lookup(self.nodes_seq(), code@) is None,
            },
    {
        let n = pg_node_count(&self.graph);
        proof {
            assert(self.nodes_seq().take(n as int) =~= self.nodes_seq());
        }
        let mut j: usize = n;
        while j > 0
            invariant
                0 <= j <= n,
            n == self.nodes_seq().len(),
                code_lookup(self.nodes_seq(), code@) == code_lookup(
                    self.nodes_seq().take(j as int),
                    code@,
                ),
            decreases j,
        {
            let i = j - 1;
            let node = pg_node_ref(&self.graph, i);
            if str_eq(node.code.as_str(), code) {
                proof {
                    let pre = self.nodes_seq().take(j as int);
                    assert(pre.last() == self.nodes_seq()[i as int]);
                }
                return Some(i);
            }
            proof {
                let pre = self.nodes_seq().take(j as int);
                assert(pre.drop_last() =~= self.nodes_seq().take(j - 1));
            }
            j = i;
        }
        proof {
            assert(self.nodes_seq().take(0) =~= Seq::<TransportNode>::empty());
        }
        None
    }

    /// The node a code is bound to.
    pub fn get_node(&self, code: &str) -> (r: Option<&TransportNode>)
        ensures
            match r {
                Some(node) => {
                    let l = code_lookup(self.nodes_seq(), code@);
                    l is Some && *node == self.nodes_seq()[l->Some_0]
                },
                None => code_lookup(self.nodes_seq(), code@) is None,
            },
    {
        proof {
            lemma_code_lookup_valid(self.nodes_seq(), code@);
        }
        match self.get_node_index(code) {
            Some(i) => Some(pg_node_ref(&self.graph, i)),
            None => None,
        }
    }

    /// Number of nodes.
    pub fn node_count(&self) -> (r: usize)
        ensures
            r == self.nodes_seq().len(),
    {
        pg_node_count(&self.graph)
    }

    /// Number of edges.
    pub fn edge_count(&self) -> (r: usize)
        ensures
            r == self.edges_seq().len(),
    {
        pg_edge_count(&self.graph)
    }

    /// Edge counts split by mode.
    pub fn edge_count_by_mode(&self) -> (r: ModeCounts)
        ensures
            r.maritime == count_mode(self.edges_seq(), TransportMode::Maritime),
            r.rail == count_mode(self.edges_seq(), TransportMode::Rail),
            r.road == count_mode(self.edges_seq(), TransportMode::Road),
            r.air == count_mode(self.edges_seq(), TransportMode::Air),
    {
        let m = pg_edge_count(&self.graph);
        let mut counts = ModeCounts { maritime: 0, rail: 0, road: 0, air: 0 };
        let mut i: usize = 0;
        while i < m
            invariant
                0 <= i <= m,
                m == self.edges_seq().len(),
                counts.maritime == count_mode(self.edges_seq().take(i as int), TransportMode::Maritime),
                counts.rail == count_mode(self.edges_seq().take(i as int), TransportMode::Rail),
                counts.road == count_mode(self.edges_seq().take(i as int), TransportMode::Road),
                counts.air == count_mode(self.edges_seq().take(i as int), TransportMode::Air),
                counts.maritime + counts.rail + counts.road + counts.air <= i,
            decreases m - i,
        {
            let e = pg_edge_weight(&self.graph, i);
            proof {
                assert(self.edges_seq().take(i + 1).drop_last() =~= self.edges_seq().take(i as int));
            }
            match e.mode {
                TransportMode::Maritime => counts.maritime += 1,
                TransportMode::Rail => counts.rail += 1,
                TransportMode::Road => counts.road += 1,
                TransportMode::Air => counts.air += 1,
            }
            i += 1;
        }
        proof {
            assert(self.edges_seq().take(m as int) =~= self.edges_seq());
        }
        counts
    }

    /// The nodes of the graph, in insertion order.
    pub fn nodes(&self) -> (r: Vec<TransportNode>)
        ensures
            r@.len() == self.nodes_seq().len(),
            forall|i: int| 0 <= i < r@.len() ==> node_eq(r@[i], self.nodes_seq()[i]),
    {
        let n = pg_node_count(&self.graph);
        let mut r: Vec<TransportNode> = Vec::new();
        let mut i: usize = 0;
        while i < n
            invariant
                0 <= i <= n,
                n == self.nodes_seq().len(),
                r@.len() == i,
                forall|k: int| 0 <= k < i ==> node_eq(r@[k], self.nodes_seq()[k]),
            decreases n - i,
        {
            r.push(pg_node_ref(&self.graph, i).clone());
            i += 1;
        }
        r
    }

    /// The edges of the graph, in insertion order.
    pub fn edges(&self) -> (r: Vec<TransportEdge>)
        ensures
            r@.len() == self.edges_seq().len(),
            forall|i: int| 0 <= i < r@.len() ==> edge_eq(r@[i], self.edges_seq()[i].2),
    {
        let m = pg_edge_count(&self.graph);
        let mut r: Vec<TransportEdge> = Vec::new();
        let mut i: usize = 0;
        while i < m
            invariant
                0 <= i <= m,
                m == self.edges_seq().len(),
                r@.len() == i,
                forall|k: int| 0 <= k < i ==> edge_eq(r@[k], self.edges_seq()[k].2),
            decreases m - i,
        {
            r.push(pg_edge_weight(&self.graph, i).clone());
            i += 1;
        }
        r
    }

    /// The outgoing edges of the node a code is bound to, each with its
    /// target node: exactly the pairs of the node's out-edges whose
    /// targets are nodes of the graph, and empty when the code is
    /// unknown.
    pub fn edges_from(&self, code: &str) -> (r: Vec<(TransportNode, TransportEdge)>)
        ensures
            (match code_lookup(self.nodes_seq(), code@) {
                Some(a) => forall|k: int|
                    #![trigger r@[k]]
                    0 <= k < r@.len() ==> out_pair_ok(
                        r@[k],
                        a as usize,
                        self.nodes_seq(),
                        self.edges_seq(),
                    ),
                None => r@.len() == 0,
            }),
            (match code_lookup(self.nodes_seq(), code@) {
                Some(a) => edges_from_complete(r@, a as usize, self.nodes_seq(), self.edges_seq()),
                None => true,
            }),
    {
        let Some(a) = self.get_node_index(code) else { return Vec::new() };
        proof {
            lemma_code_lookup_valid(self.nodes_seq(), code@);
        }
        let out = pg_out_edges(&self.graph, a);
        let mut r: Vec<(TransportNode, TransportEdge)> = Vec::new();
        let mut i: usize = 0;
        while i < out.len()
            invariant
                0 <= i <= out@.len(),
                code_lookup(self.nodes_seq(), code@) == Some(a as int),
                forall|k: int| #![trigger out@[k]]
                    0 <= k < out@.len() ==> out@[k].1 < self.edges_seq().len()
                        && self.edges_seq()[out@[k].1 as int].0 == a
                        && self.edges_seq()[out@[k].1 as int].1 == out@[k].0,
                forall|k: int| #![trigger r@[k]]
                    0 <= k < r@.len() ==> out_pair_ok(
                        r@[k],
                        a,
                        self.nodes_seq(),
                        self.edges_seq(),
                    ),
                forall|t: int|
                    #![trigger out@[t]]
                    0 <= t < i && (out@[t].0 as int) < self.nodes_seq().len() ==> exists|q: int|
                        #![trigger r@[q]]
                        0 <= q < r@.len() && node_eq(
                            r@[q].0,
                            self.nodes_seq()[out@[t].0 as int],
                        ) && edge_eq(r@[q].1, self.edges_seq()[out@[t].1 as int].2),
            decreases out@.len() - i,
        {
            let (target, eid) = (out[i].0, out[i].1);
            proof {
                assert(out@[i as int].1 < self.edges_seq().len()
                    && self.edges_seq()[out@[i as int].1 as int].0 == a
                    && self.edges_seq()[out@[i as int].1 as int].1 == out@[i as int].0);
            }
            if target < pg_node_count(&self.graph) {
                let node = pg_node_ref(&self.graph, target).clone();
                let edge = pg_edge_weight(&self.graph, eid).clone();
                let ghost j = out@[i as int].1 as int;
                let ghost prev = r@;
                r.push((node, edge));
                proof {
                    assert(self.edges_seq()[j].0 == a && self.edges_seq()[j].1
                        < self.nodes_seq().len() && node_eq(
                        r@[prev.len() as int].0,
                        self.nodes_seq()[self.edges_seq()[j].1 as int],
                    ) && edge_eq(r@[prev.len() as int].1, self.edges_seq()[j].2));
                    assert(out_pair_ok(
                        r@[prev.len() as int],
                        a,
                        self.nodes_seq(),
                        self.edges_seq(),
                    ));
                    assert(forall|k: int| 0 <= k < prev.len() ==> r@[k] == prev[k]);
                    assert forall|t: int|
                        #![trigger out@[t]]
                        0 <= t < i + 1 && (out@[t].0 as int) < self.nodes_seq().len()
                            implies exists|q: int|
                            #![trigger r@[q]]
                            0 <= q < r@.len() && node_eq(
                                r@[q].0,
                                self.nodes_seq()[out@[t].0 as int],
                            ) && edge_eq(r@[q].1, self.edges_seq()[out@[t].1 as int].2) by {
                        if t == i {
                            assert(r@[prev.len() as int].0 == r@[r@.len() - 1].0);
                        } else {
                            let q = choose|q: int|
                                0 <= q < prev.len() && node_eq(
                                    prev[q].0,
                                    self.nodes_seq()[out@[t].0 as int],
                                ) && edge_eq(prev[q].1, self.edges_seq()[out@[t].1 as int].2);
                            assert(r@[q] == prev[q]);
                        }
                    };
                }
            } else {
                proof {
                    assert forall|t: int|
                        #![trigger out@[t]]
                        0 <= t < i + 1 && (out@[t].0 as int) < self.nodes_seq().len()
                            implies exists|q: int|
                            #![trigger r@[q]]
                            0 <= q < r@.len() && node_eq(
                                r@[q].0,
                                self.nodes_seq()[out@[t].0 as int],
                            ) && edge_eq(r@[q].1, self.edges_seq()[out@[t].1 as int].2) by {
                        assert(t < i);
                    };
                }
            }
            i += 1;
        }
        proof {
            assert forall|j: int|
                #![trigger self.edges_seq()[j]]
                0 <= j < self.edges_seq().len() && self.edges_seq()[j].0 == a as usize
                    && (self.edges_seq()[j].1 as int) < self.nodes_seq().len() implies exists|
                q: int,
            |
                #![trigger r@[q]]
                0 <= q < r@.len() && node_eq(
                    r@[q].0,
                    self.nodes_seq()[self.edges_seq()[j].1 as int],
                ) && edge_eq(r@[q].1, self.edges_seq()[j].2) by {
                let k = choose|k: int| 0 <= k < out@.len() && out@[k].1 == j;
                assert(out@[k].0 == self.edges_seq()[j].1);
            };
            assert(edges_from_complete(r@, a, self.nodes_seq(), self.edges_seq()));
        }
        r
    }

    /// The underlying directed graph.
    pub fn inner(&self) -> (r: &DiGraph<TransportNode, TransportEdge>)
        ensures
            graph_nodes(*r) == self.nodes_seq(),
            graph_edges(*r) == self.edges_seq(),
    {
        &self.graph
    }
}

} // verus!
