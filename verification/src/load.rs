//! Building the transport graph from plain source records.
//!
//! The records mirror what the external graph source yields, with
//! optional fields defaulted here: 24 dwell hours, zero per-kilogram
//! cost, a 1500-cent wage, a safety rating of three, not unionized, not
//! sanctioned, active. A record naming an unknown mode is skipped; an
//! edge whose endpoint codes are not bound is dropped without effect.

use vstd::prelude::*;

use crate::graph::code_lookup;
use crate::graph::TransportEdge;
use crate::graph::TransportGraph;
use crate::graph::TransportNode;
use crate::modes::mode_of_bytes;
use crate::modes::parse_mode;
use crate::modes::TransportMode;

verus! {

use vstd::string::StringSliceAdditionalSpecFns;
use vstd::utf8::encode_utf8;

/// A node as the graph source yields it.
pub struct NodeRecord {
    pub id: String,
    pub code: String,
    pub name: String,
    pub country_code: String,
    pub lat: i64,
    pub lon: i64,
    pub modes: Vec<String>,
    pub avg_dwell_hours: Option<u64>,
}

/// An edge as the graph source yields it.
pub struct EdgeRecord {
    pub id: String,
    pub code: String,
    pub from_code: String,
    pub to_code: String,
    pub carrier_code: String,
    pub carrier_name: String,
    pub mode: String,
    pub distance_km: u64,
    pub base_cost_usd: u64,
    pub cost_per_kg: Option<u64>,
    pub transit_hours: u64,
    pub carbon_per_tonne_km: u64,
    pub wage_cents: Option<u32>,
    pub safety_rating: Option<u32>,
    pub unionized: Option<bool>,
    pub sanctioned: Option<bool>,
    pub active: Option<bool>,
}

/// The mode a name denotes, matched case-insensitively.
pub open spec fn mode_of_name(s: Seq<char>) -> Option<TransportMode> {
    mode_of_bytes(encode_utf8(s))
}

/// The modes a list of names denotes, unknown names skipped.
pub open spec fn parse_modes_spec(names: Seq<String>) -> Seq<TransportMode>
    decreases names.len(),
{
    if names.len() == 0 {
        Seq::empty()
    } else {
        let rest = parse_modes_spec(names.drop_last());
        match mode_of_name(names.last()@) {
            Some(m) => rest.push(m),
            None => rest,
        }
    }
}

/// The node a record denotes, defaults applied.
pub open spec fn node_of_record_ok(n: TransportNode, rec: NodeRecord) -> bool {
    n.id@ == rec.id@ && n.code@ == rec.code@ && n.name@ == rec.name@ && n.country_code@
        == rec.country_code@ && n.lat == rec.lat && n.lon == rec.lon && n.modes@
        == parse_modes_spec(rec.modes@) && n.avg_dwell_hours == (match rec.avg_dwell_hours {
        Some(d) => d,
        None => 24,
    })
}

/// The edge a record denotes for mode `m`, defaults applied.
pub open spec fn edge_of_record_ok(e: TransportEdge, rec: EdgeRecord, m: TransportMode) -> bool {
    e.id@ == rec.id@ && e.code@ == rec.code@ && e.mode == m && e.carrier_code@ == rec.carrier_code@
        && e.carrier_name@ == rec.carrier_name@ && e.distance_km == rec.distance_km
        && e.base_cost_usd == rec.base_cost_usd && e.cost_per_kg == (match rec.cost_per_kg {
        Some(v) => v,
        None => 0,
    }) && e.transit_hours == rec.transit_hours && e.carbon_per_tonne_km == rec.carbon_per_tonne_km
        && e.carrier_wage_cents == (match rec.wage_cents {
        Some(v) => v,
        None => 1500,
    }) && e.carrier_safety_rating == (match rec.safety_rating {
        Some(v) => v,
        None => 3,
    }) && e.carrier_unionized == (match rec.unionized {
        Some(v) => v,
        None => false,
    }) && e.carrier_sanctioned == (match rec.sanctioned {
        Some(v) => v,
        None => false,
    }) && e.active == (match rec.active {
        Some(v) => v,
        None => true,
    })
}

/// An edge record yields a graph edge: its mode parses and both
/// endpoint codes are bound.
pub open spec fn edge_kept(nodes: Seq<TransportNode>, rec: EdgeRecord) -> bool {
    mode_of_name(rec.mode@) is Some && code_lookup(nodes, rec.from_code@) is Some && code_lookup(
        nodes,
        rec.to_code@,
    ) is Some
}

/// How many of the first `i` edge records yield a graph edge.
pub open spec fn kept_count(nodes: Seq<TransportNode>, recs: Seq<EdgeRecord>, i: int) -> int
    decreases i,
{
    if i <= 0 {
        0
    } else {
        kept_count(nodes, recs, i - 1) + if edge_kept(nodes, recs[i - 1]) {
            1int
        } else {
            0int
        }
    }
}

proof fn lemma_kept_count_mono(
    nodes: Seq<TransportNode>,
    recs: Seq<EdgeRecord>,
    a: int,
    b: int,
)
    requires
        0 <= a <= b,
    ensures
        kept_count(nodes, recs, a) <= kept_count(nodes, recs, b),
    decreases b - a,
{
    if a < b {
        lemma_kept_count_mono(nodes, recs, a, b - 1);
    }
}

fn parse_modes(names: &Vec<String>) -> (r: Vec<TransportMode>)
    ensures
        r@ == parse_modes_spec(names@),
{
    let mut r: Vec<TransportMode> = Vec::new();
    let mut i: usize = 0;
    while i < names.len()
        invariant
            0 <= i <= names@.len(),
            r@ == parse_modes_spec(names@.take(i as int)),
        decreases names@.len() - i,
    {
        proof {
            assert(names@.take(i + 1).drop_last() =~= names@.take(i as int));
        }
        if let Some(m) = parse_mode(names[i].as_str()) {
            r.push(m);
        }
        i += 1;
    }
    proof {
        assert(names@.take(names@.len() as int) =~= names@);
    }
    r
}

/// Builds a transport graph from source records: every node record
/// becomes a node in order, and every edge record that names a known
/// mode and two bound endpoint codes becomes an edge, in order, wired
/// to the nodes its codes resolve to.
pub fn build_graph(node_recs: &Vec<NodeRecord>, edge_recs: &Vec<EdgeRecord>) -> (r:
    TransportGraph)
    requires
        node_recs@.len() < 0xffff_ffff,
        edge_recs@.len() < 0xffff_ffff,
    ensures
        r.nodes_seq().len() == node_recs@.len(),
        forall|i: int|
            0 <= i < node_recs@.len() ==> node_of_record_ok(r.nodes_seq()[i], #[trigger] node_recs@[i]),
        r.edges_seq().len() == kept_count(r.nodes_seq(), edge_recs@, edge_recs@.len() as int),
        forall|i: int|
            0 <= i < edge_recs@.len() && edge_kept(r.nodes_seq(), #[trigger] edge_recs@[i]) ==> {
                let t = r.edges_seq()[kept_count(r.nodes_seq(), edge_recs@, i)];
                t.0 as int == code_lookup(r.nodes_seq(), edge_recs@[i].from_code@)->Some_0
                    && t.1 as int == code_lookup(r.nodes_seq(), edge_recs@[i].to_code@)->Some_0
                    && edge_of_record_ok(t.2, edge_recs@[i], mode_of_name(
                    edge_recs@[i].mode@,
                )->Some_0)
            },
        r.spec_loaded_at() == 0,
        r.spec_load_time_ms() == 0,
{
    let mut graph = TransportGraph::new();
    let n = node_recs.len();
    let mut i: usize = 0;
    while i < n
        invariant
            n == node_recs@.len(),
            n < 0xffff_ffff,
            0 <= i <= n,
            graph.nodes_seq().len() == i,
            graph.edges_seq().len() == 0,
            graph.spec_loaded_at() == 0,
            graph.spec_load_time_ms() == 0,
            forall|t: int|
                0 <= t < i ==> node_of_record_ok(graph.nodes_seq()[t], #[trigger] node_recs@[t]),
        decreases n - i,
    {
        let rec = &node_recs[i];
        let modes = parse_modes(&rec.modes);
        let avg_dwell_hours = match rec.avg_dwell_hours {
            Some(d) => d,
            None => 24,
        };
        let node = TransportNode {
            id: rec.id.clone(),
            code: rec.code.clone(),
            name: rec.name.clone(),
            country_code: rec.country_code.clone(),
            lat: rec.lat,
            lon: rec.lon,
            modes,
            avg_dwell_hours,
        };
        graph.add_node(node);
        i += 1;
    }
    let ghost nodes = graph.nodes_seq();
    let m = edge_recs.len();
    let mut j: usize = 0;
    while j < m
        invariant
            m == edge_recs@.len(),
            m < 0xffff_ffff,
            0 <= j <= m,
            graph.nodes_seq() == nodes,
            nodes.len() == node_recs@.len(),
            nodes.len() < 0xffff_ffff,
            forall|t: int|
                0 <= t < node_recs@.len() ==> node_of_record_ok(
                    graph.nodes_seq()[t],
                    #[trigger] node_recs@[t],
                ),
            graph.spec_loaded_at() == 0,
            graph.spec_load_time_ms() == 0,
            graph.edges_seq().len() == kept_count(nodes, edge_recs@, j as int),
            graph.edges_seq().len() <= j,
            forall|t: int|
                0 <= t < j && edge_kept(nodes, #[trigger] edge_recs@[t]) ==> {
                    let e = graph.edges_seq()[kept_count(nodes, edge_recs@, t)];
                    e.0 as int == code_lookup(nodes, edge_recs@[t].from_code@)->Some_0 && e.1 as int
                        == code_lookup(nodes, edge_recs@[t].to_code@)->Some_0 && edge_of_record_ok(
                        e.2,
                        edge_recs@[t],
                        mode_of_name(edge_recs@[t].mode@)->Some_0,
                    )
                },
        decreases m - j,
    {
        let rec = &edge_recs[j];
        if let Some(mode) = parse_mode(rec.mode.as_str()) {
            let edge = TransportEdge {
                id: rec.id.clone(),
                code: rec.code.clone(),
                mode,
                carrier_code: rec.carrier_code.clone(),
                carrier_name: rec.carrier_name.clone(),
                distance_km: rec.distance_km,
                base_cost_usd: rec.base_cost_usd,
                cost_per_kg: match rec.cost_per_kg {
                    Some(v) => v,
                    None => 0,
                },
                transit_hours: rec.transit_hours,
                carbon_per_tonne_km: rec.carbon_per_tonne_km,
                carrier_wage_cents: match rec.wage_cents {
                    Some(v) => v,
                    None => 1500,
                },
                carrier_safety_rating: match rec.safety_rating {
                    Some(v) => v,
                    None => 3,
                },
                carrier_unionized: match rec.unionized {
                    Some(v) => v,
                    None => false,
                },
                carrier_sanctioned: match rec.sanctioned {
                    Some(v) => v,
                    None => false,
                },
                active: match rec.active {
                    Some(v) => v,
                    None => true,
                },
            };
            let ghost pre = graph.edges_seq();
            proof {
                crate::graph::lemma_code_lookup_valid(nodes, rec.from_code@);
                crate::graph::lemma_code_lookup_valid(nodes, rec.to_code@);
            }
            graph.add_edge(rec.from_code.as_str(), rec.to_code.as_str(), edge);
            proof {
                assert forall|t: int|
                    0 <= t < j + 1 && edge_kept(nodes, #[trigger] edge_recs@[t]) implies {
                    let e = graph.edges_seq()[kept_count(nodes, edge_recs@, t)];
                    e.0 as int == code_lookup(nodes, edge_recs@[t].from_code@)->Some_0 && e.1 as int
                        == code_lookup(nodes, edge_recs@[t].to_code@)->Some_0 && edge_of_record_ok(
                        e.2,
                        edge_recs@[t],
                        mode_of_name(edge_recs@[t].mode@)->Some_0,
                    )
                } by {
                    if t < j {
                        lemma_kept_count_mono(nodes, edge_recs@, 0, t);
                        lemma_kept_count_mono(nodes, edge_recs@, t + 1, j as int);
                        assert(kept_count(nodes, edge_recs@, t + 1) == kept_count(
                            nodes,
                            edge_recs@,
                            t,
                        ) + 1);
                        assert(graph.edges_seq()[kept_count(nodes, edge_recs@, t)] == pre[kept_count(
                            nodes,
                            edge_recs@,
                            t,
                        )]);
                    }
                };
            }
        } else {
            proof {
                lemma_kept_count_mono(nodes, edge_recs@, 0, j as int);
            }
        }
        j += 1;
    }
    graph
}

} // verus!
