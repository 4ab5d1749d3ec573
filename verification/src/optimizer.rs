//! The route optimization pipeline.
//!
//! A request is answered by enumerating candidate paths, materializing
//! them into candidate routes, filtering on hard constraints, ranking
//! the survivors by Pareto non-domination, scoring them against
//! user-supplied objective weights, and returning the best routes in
//! score order.

use vstd::prelude::*;

use crate::constraints::all_hard_passed;
use crate::constraints::all_hard_passed_spec;
use crate::constraints::evaluation_ok;
use crate::constraints::ConstraintCache;
use crate::constraints::ConstraintEngine;
use crate::digraph::pg_edge_weight;
use crate::digraph::pg_node_ref;
use crate::graph::carbon_of;
use crate::graph::cost_of;
use crate::graph::labor_of;
use crate::graph::code_lookup;
use crate::graph::lemma_code_lookup_valid;
use crate::graph::TransportEdge;
use crate::graph::TransportGraph;
use crate::pareto::assign_pareto_ranks;
use crate::pareto::dominates_spec;
use crate::pareto::dominates_x;
use crate::routes::seg_chain_ok;
use crate::routes::sum_carbon;
use crate::routes::sum_cost;
use crate::routes::sum_distance;
use crate::routes::sum_labor;
use crate::routes::sum_time;
use crate::routes::totals_ok;
use crate::routes::CandidateRoute;
use crate::routes::OptimizeRequest;
use crate::routes::OptimizeResult;
use crate::routes::RouteSegment;
use crate::constraints::min_wage_for;
use crate::constraints::contains_str;
use crate::graph::TransportNode;
use crate::modes::transfer_hours_spec;
use crate::routes::window_hours;
use crate::search::edge_ok;
use crate::search::find_k_shortest_paths;
use crate::search::path_ok;
use crate::search::progress_hyp;
use crate::search::walk_carbon;
use crate::search::walk_cost;

verus! {

use vstd::multiset::Multiset;

/// The placeholder country minimum wage, in cents per hour, that
/// materialization scores segments against.
pub const DEFAULT_COUNTRY_MIN_WAGE: u32 = 1500;

/// A segment copies an edge's data, with cost, carbon and labor derived
/// for the request's weight and the placeholder country minimum wage.
pub open spec fn seg_from_edge(seg: RouteSegment, e: TransportEdge, weight_kg: u64) -> bool {
    seg.mode == e.mode && seg.carrier_code@ == e.carrier_code@ && seg.distance_km == e.distance_km
        && seg.transit_hours == e.transit_hours && seg.carrier_wage_cents == e.carrier_wage_cents
        && seg.cost_usd == cost_of(e, weight_kg) && seg.carbon_kg == carbon_of(e, weight_kg)
        && seg.labor_score == labor_of(e, DEFAULT_COUNTRY_MIN_WAGE)
}

/// Sum of the walk's transit hours, mode-transfer dwell excluded.
pub open spec fn walk_transit(
    path: Seq<(usize, usize)>,
    edges: Seq<(usize, usize, TransportEdge)>,
) -> int
    decreases path.len(),
{
    if path.len() == 0 {
        0
    } else {
        walk_transit(path.drop_last(), edges) + edges[path.last().1 as int].2.transit_hours
    }
}

/// Sum of the walk's distances.
pub open spec fn walk_distance(
    path: Seq<(usize, usize)>,
    edges: Seq<(usize, usize, TransportEdge)>,
) -> int
    decreases path.len(),
{
    if path.len() == 0 {
        0
    } else {
        walk_distance(path.drop_last(), edges) + edges[path.last().1 as int].2.distance_km
    }
}

/// Sum of the walk's labor scores against the placeholder minimum wage.
pub open spec fn walk_labor(
    path: Seq<(usize, usize)>,
    edges: Seq<(usize, usize, TransportEdge)>,
) -> int
    decreases path.len(),
{
    if path.len() == 0 {
        0
    } else {
        walk_labor(path.drop_last(), edges) + labor_of(
            edges[path.last().1 as int].2,
            DEFAULT_COUNTRY_MIN_WAGE,
        )
    }
}

/// Materialization's arrival time after hop `t`: each hop departs a
/// mode-transfer dwell after the previous arrival (none before the
/// first) and arrives its transit time later.
pub open spec fn mat_arrival(
    path: Seq<(usize, usize)>,
    edges: Seq<(usize, usize, TransportEdge)>,
    pickup: u64,
    t: int,
) -> int
    decreases t + 1,
{
    if t < 0 {
        pickup as int
    } else {
        mat_arrival(path, edges, pickup, t - 1) + (if t == 0 {
            0int
        } else {
            transfer_hours_spec(edges[path[t - 1].1 as int].2.mode, edges[path[t].1 as int].2.mode)
                as int
        }) + edges[path[t].1 as int].2.transit_hours
    }
}

/// Every exact value materialization computes for the walk fits the
/// numeric range: each hop's cost, carbon and arrival time, the route
/// totals, and the sequence numbers.
pub open spec fn path_fits(
    path: Seq<(usize, usize)>,
    edges: Seq<(usize, usize, TransportEdge)>,
    req: OptimizeRequest,
) -> bool {
    &&& path.len() <= 0x1_0000_0000
    &&& forall|t: int|
        #![trigger path[t]]
        0 <= t < path.len() ==> cost_of(edges[path[t].1 as int].2, req.weight_kg) <= u64::MAX
            && carbon_of(edges[path[t].1 as int].2, req.weight_kg) <= u64::MAX && mat_arrival(
            path,
            edges,
            req.pickup_after,
            t,
        ) <= u64::MAX
    &&& walk_cost(path, edges, req.weight_kg) <= u64::MAX
    &&& walk_carbon(path, edges, req.weight_kg) <= u64::MAX
    &&& walk_transit(path, edges) <= u64::MAX
    &&& walk_distance(path, edges) <= u64::MAX
    &&& walk_labor(path, edges) <= u64::MAX
}

/// The hard constraints hold of the walk's materialization: no hop's
/// carrier is sanctioned, every hop pays at least the wage floor keyed
/// by its target node's code, and the summed transit fits the
/// non-inverted delivery window.
pub open spec fn walk_hard_ok(
    path: Seq<(usize, usize)>,
    nodes: Seq<TransportNode>,
    edges: Seq<(usize, usize, TransportEdge)>,
    req: OptimizeRequest,
    cache: ConstraintCache,
) -> bool {
    (forall|t: int|
        #![trigger path[t]]
        0 <= t < path.len() ==> !contains_str(
            cache.sanctioned_carriers@,
            edges[path[t].1 as int].2.carrier_code@,
        ) && edges[path[t].1 as int].2.carrier_wage_cents >= min_wage_for(
            cache,
            nodes[path[t].0 as int].code@,
        )) && req.deliver_by >= req.pickup_after && walk_transit(path, edges) <= window_hours(req)
}

/// Every segment of the route copies some edge of the graph that passes
/// the request's pruning predicates, and names the edge's target node
/// by its code.
pub open spec fn route_from_graph(
    rt: CandidateRoute,
    nodes: Seq<TransportNode>,
    edges: Seq<(usize, usize, TransportEdge)>,
    req: OptimizeRequest,
) -> bool {
    forall|k: int|
        #![trigger rt.segments@[k]]
        0 <= k < rt.segments@.len() ==> exists|j: int|
            0 <= j < edges.len() && edge_ok(#[trigger] edges[j].2, req) && seg_from_edge(
                rt.segments@[k],
                edges[j].2,
                req.weight_kg,
            ) && (edges[j].1 as int) < nodes.len() && rt.segments@[k].to_node@ == nodes[edges[j].1 as int].code@
}

/// Everything a returned route owes the request: exact totals, a
/// consistent schedule starting at pickup, segments drawn from admitted
/// edges of the graph, correctly reported constraint results with every
/// hard one passed, and a Pareto rank of at least one that marks the
/// first frontier as optimal.
#[verifier::opaque]
pub open spec fn route_ok(
    rt: CandidateRoute,
    nodes: Seq<TransportNode>,
    edges: Seq<(usize, usize, TransportEdge)>,
    req: OptimizeRequest,
    cache: ConstraintCache,
) -> bool {
    totals_ok(rt) && seg_chain_ok(rt.segments@) && rt.segments@.len() > 0 && rt.segments@.len()
        <= req.max_segments && rt.segments@[0].departure_time == req.pickup_after
        && rt.segments@[0].from_node@ == req.origin_code@ && route_from_graph(rt, nodes, edges, req)
        && evaluation_ok(rt.constraint_results@, rt, req, cache) && all_hard_passed_spec(
        rt.constraint_results@,
    ) && rt.pareto_rank >= 1 && (rt.pareto_optimal <==> rt.pareto_rank == 1)
}

/// Every element of `xs` equals some element of `orig`.
pub open spec fn all_from(xs: Seq<CandidateRoute>, orig: Seq<CandidateRoute>) -> bool {
    forall|i: int| 0 <= i < xs.len() ==> orig.contains(#[trigger] xs[i])
}

proof fn lemma_all_from_refl(xs: Seq<CandidateRoute>)
    ensures
        all_from(xs, xs),
{
    assert forall|i: int| 0 <= i < xs.len() implies xs.contains(#[trigger] xs[i]) by {
        assert(xs[i] == xs[i]);
    };
}

proof fn lemma_all_from_remove(xs: Seq<CandidateRoute>, orig: Seq<CandidateRoute>, m: int)
    requires
        all_from(xs, orig),
        0 <= m < xs.len(),
    ensures
        all_from(xs.remove(m), orig),
{
    assert forall|i: int| 0 <= i < xs.remove(m).len() implies orig.contains(
        #[trigger] xs.remove(m)[i],
    ) by {
        if i < m {
            assert(xs.remove(m)[i] == xs[i]);
        } else {
            assert(xs.remove(m)[i] == xs[i + 1]);
        }
    };
}

proof fn lemma_all_from_push(xs: Seq<CandidateRoute>, orig: Seq<CandidateRoute>, x: CandidateRoute)
    requires
        all_from(xs, orig),
        orig.contains(x),
    ensures
        all_from(xs.push(x), orig),
{
    assert forall|i: int| 0 <= i < xs.push(x).len() implies orig.contains(
        #[trigger] xs.push(x)[i],
    ) by {
        if i < xs.len() {
            assert(xs.push(x)[i] == xs[i]);
        } else {
            assert(xs.push(x)[i] == x);
        }
    };
}

/// The ordering of the final route list: ascending weighted score, ties
/// broken by Pareto rank.
pub open spec fn key_le(a: CandidateRoute, b: CandidateRoute) -> bool {
    a.weighted_score < b.weighted_score || (a.weighted_score == b.weighted_score && a.pareto_rank
        <= b.pareto_rank)
}

/// Largest route cost, floored at one.
pub open spec fn max_cost_of(s: Seq<CandidateRoute>) -> int
    decreases s.len(),
{
    if s.len() == 0 {
        1
    } else {
        let m = max_cost_of(s.drop_last());
        if s.last().total_cost_usd > m {
            s.last().total_cost_usd as int
        } else {
            m
        }
    }
}

/// Largest route time, floored at one.
pub open spec fn max_time_of(s: Seq<CandidateRoute>) -> int
    decreases s.len(),
{
    if s.len() == 0 {
        1
    } else {
        let m = max_time_of(s.drop_last());
        if s.last().total_time_hours > m {
            s.last().total_time_hours as int
        } else {
            m
        }
    }
}

/// Largest route carbon, floored at one.
pub open spec fn max_carbon_of(s: Seq<CandidateRoute>) -> int
    decreases s.len(),
{
    if s.len() == 0 {
        1
    } else {
        let m = max_carbon_of(s.drop_last());
        if s.last().total_carbon_kg > m {
            s.last().total_carbon_kg as int
        } else {
            m
        }
    }
}

/// The weighted score of a route against normalization maxima: each
/// objective is normalized to ten-thousandths of its maximum (labor is
/// inverted so that lower is better throughout), weighted, summed and
/// rescaled; saturated at the numeric range.
pub open spec fn weighted_score_spec(
    rt: CandidateRoute,
    req: OptimizeRequest,
    mc: int,
    mt: int,
    mb: int,
) -> int {
    let cn = (rt.total_cost_usd * 10000) / mc;
    let tn = (rt.total_time_hours * 10000) / mt;
    let bn = (rt.total_carbon_kg * 10000) / mb;
    let ln: int = if rt.labor_score >= 10000 {
        0
    } else {
        10000 - rt.labor_score
    };
    let sum = (req.cost_weight * cn + req.time_weight * tn + req.carbon_weight * bn
        + req.labor_weight * ln) / 10000;
    if sum > u64::MAX {
        u64::MAX as int
    } else {
        sum
    }
}

proof fn lemma_norm_bound(t: int, m: int)
    requires
        0 <= t <= m,
        m >= 1,
    ensures
        0 <= (t * 10000) / m <= 10000,
{
    vstd::arithmetic::mul::lemma_mul_inequality(t, m, 10000);
    vstd::arithmetic::div_mod::lemma_div_is_ordered(t * 10000, m * 10000, m);
    vstd::arithmetic::div_mod::lemma_div_multiples_vanish(10000, m);
    vstd::arithmetic::div_mod::lemma_div_pos_is_pos(t * 10000, m);
}

fn compute_weighted_score(
    rt: &CandidateRoute,
    req: &OptimizeRequest,
    mc: u64,
    mt: u64,
    mb: u64,
) -> (r: u64)
    requires
        mc >= 1,
        mt >= 1,
        mb >= 1,
        rt.total_cost_usd <= mc,
        rt.total_time_hours <= mt,
        rt.total_carbon_kg <= mb,
    ensures
        r == weighted_score_spec(*rt, *req, mc as int, mt as int, mb as int),
{
    proof {
        lemma_norm_bound(rt.total_cost_usd as int, mc as int);
        lemma_norm_bound(rt.total_time_hours as int, mt as int);
        lemma_norm_bound(rt.total_carbon_kg as int, mb as int);
    }
    let cn: u128 = (rt.total_cost_usd as u128) * 10000 / (mc as u128);
    let tn: u128 = (rt.total_time_hours as u128) * 10000 / (mt as u128);
    let bn: u128 = (rt.total_carbon_kg as u128) * 10000 / (mb as u128);
    proof {
        assert(cn <= 10000 && tn <= 10000 && bn <= 10000);
    }
    let ln: u128 = if rt.labor_score >= 10000 {
        0
    } else {
        (10000 - rt.labor_score) as u128
    };
    proof {
        vstd::arithmetic::mul::lemma_mul_upper_bound(
            req.cost_weight as int,
            u64::MAX as int,
            cn as int,
            10000,
        );
        vstd::arithmetic::mul::lemma_mul_upper_bound(
            req.time_weight as int,
            u64::MAX as int,
            tn as int,
            10000,
        );
        vstd::arithmetic::mul::lemma_mul_upper_bound(
            req.carbon_weight as int,
            u64::MAX as int,
            bn as int,
            10000,
        );
        vstd::arithmetic::mul::lemma_mul_upper_bound(
            req.labor_weight as int,
            u64::MAX as int,
            ln as int,
            10000,
        );
    }
    let sum: u128 = ((req.cost_weight as u128) * cn + (req.time_weight as u128) * tn
        + (req.carbon_weight as u128) * bn + (req.labor_weight as u128) * ln) / 10000;
    if sum > (u64::MAX as u128) {
        u64::MAX
    } else {
        sum as u64
    }
}

/// The normalization maxima over a route set: the largest total cost,
/// time and carbon, each floored at one.
fn maxima(routes: &Vec<CandidateRoute>) -> (r: (u64, u64, u64))
    ensures
        r.0 == max_cost_of(routes@),
        r.1 == max_time_of(routes@),
        r.2 == max_carbon_of(routes@),
        r.0 >= 1,
        r.1 >= 1,
        r.2 >= 1,
        forall|i: int|
            0 <= i < routes@.len() ==> (#[trigger] routes@[i]).total_cost_usd <= r.0
                && routes@[i].total_time_hours <= r.1 && routes@[i].total_carbon_kg <= r.2,
{
    let mut mc: u64 = 1;
    let mut mt: u64 = 1;
    let mut mb: u64 = 1;
    let mut i: usize = 0;
    while i < routes.len()
        invariant
            0 <= i <= routes@.len(),
            mc == max_cost_of(routes@.take(i as int)),
            mt == max_time_of(routes@.take(i as int)),
            mb == max_carbon_of(routes@.take(i as int)),
            mc >= 1,
            mt >= 1,
            mb >= 1,
            forall|t: int|
                0 <= t < i ==> (#[trigger] routes@[t]).total_cost_usd <= mc
                    && routes@[t].total_time_hours <= mt && routes@[t].total_carbon_kg <= mb,
        decreases routes@.len() - i,
    {
        proof {
            assert(routes@.take(i + 1).drop_last() =~= routes@.take(i as int));
        }
        let rt = &routes[i];
        if rt.total_cost_usd > mc {
            mc = rt.total_cost_usd;
        }
        if rt.total_time_hours > mt {
            mt = rt.total_time_hours;
        }
        if rt.total_carbon_kg > mb {
            mb = rt.total_carbon_kg;
        }
        i += 1;
    }
    proof {
        assert(routes@.take(routes@.len() as int) =~= routes@);
    }
    (mc, mt, mb)
}

/// Sets each route's weighted score against the given maxima, leaving
/// everything else as it was.
fn apply_weighted_scores(
    routes: Vec<CandidateRoute>,
    req: &OptimizeRequest,
    mc: u64,
    mt: u64,
    mb: u64,
) -> (r: Vec<CandidateRoute>)
    requires
        mc >= 1,
        mt >= 1,
        mb >= 1,
        forall|i: int|
            0 <= i < routes@.len() ==> (#[trigger] routes@[i]).total_cost_usd <= mc
                && routes@[i].total_time_hours <= mt && routes@[i].total_carbon_kg <= mb,
    ensures
        r@.len() == routes@.len(),
        forall|i: int|
            0 <= i < r@.len() ==> (#[trigger] r@[i]) == (CandidateRoute {
                weighted_score: r@[i].weighted_score,
                ..routes@[i]
            }) && r@[i].weighted_score == weighted_score_spec(
                routes@[i],
                *req,
                mc as int,
                mt as int,
                mb as int,
            ),
{
    let n = routes.len();
    let mut rest = routes;
    let ghost routes0 = rest@;
    let mut out: Vec<CandidateRoute> = Vec::new();
    let mut i: usize = 0;
    while i < n
        invariant
            n == routes0.len(),
            out@.len() == i,
            0 <= i <= n,
            rest@ =~= routes0.skip(i as int),
            mc >= 1,
            mt >= 1,
            mb >= 1,
            forall|t: int|
                0 <= t < n ==> (#[trigger] routes0[t]).total_cost_usd <= mc
                    && routes0[t].total_time_hours <= mt && routes0[t].total_carbon_kg <= mb,
            forall|t: int|
                0 <= t < i ==> (#[trigger] out@[t]) == (CandidateRoute {
                    weighted_score: out@[t].weighted_score,
                    ..routes0[t]
                }) && out@[t].weighted_score == weighted_score_spec(
                    routes0[t],
                    *req,
                    mc as int,
                    mt as int,
                    mb as int,
                ),
        decreases n - i,
    {
        proof {
            assert(rest@[0] == routes0[i as int]);
        }
        let mut route = rest.remove(0);
        let score = compute_weighted_score(&route, req, mc, mt, mb);
        route.weighted_score = score;
        out.push(route);
        proof {
            assert(rest@ =~= routes0.skip(i + 1));
        }
        i += 1;
    }
    out
}

/// Two routes the final ordering cannot tell apart.
pub open spec fn score_tie(a: CandidateRoute, b: CandidateRoute) -> bool {
    a.weighted_score == b.weighted_score && a.pareto_rank == b.pareto_rank
}

/// `r` arranges elements of `v` by an index map that keeps the input
/// order of routes the final ordering cannot tell apart: the sort is
/// stable.
pub open spec fn sorted_stably_from(
    r: Seq<CandidateRoute>,
    v: Seq<CandidateRoute>,
    perm: Seq<int>,
) -> bool {
    perm.len() == r.len() && (forall|i: int|
        0 <= i < r.len() ==> 0 <= #[trigger] perm[i] < v.len() && r[i] == v[perm[i]]) && (forall|
        i: int,
        j: int,
    |
        0 <= i < j < r.len() && score_tie(r[i], r[j]) ==> perm[i] < perm[j])
}

fn key_le_x(a: &CandidateRoute, b: &CandidateRoute) -> (r: bool)
    ensures
        r == key_le(*a, *b),
{
    a.weighted_score < b.weighted_score || (a.weighted_score == b.weighted_score && a.pareto_rank
        <= b.pareto_rank)
}

/// Sorts routes by ascending weighted score, ties broken by Pareto
/// rank, selecting the earliest minimum first so equal keys keep their
/// order.
fn sort_routes(v: Vec<CandidateRoute>) -> (r: Vec<CandidateRoute>)
    ensures
        r@.len() == v@.len(),
        r@.to_multiset() == v@.to_multiset(),
        forall|i: int, j: int| 0 <= i < j < r@.len() ==> key_le(#[trigger] r@[i], #[trigger] r@[j]),
        all_from(r@, v@),
        exists|perm: Seq<int>| #[trigger] sorted_stably_from(r@, v@, perm),
{
    broadcast use vstd::seq_lib::group_to_multiset_ensures;

    let ghost orig = v@;
    let mut rest = v;
    let mut out: Vec<CandidateRoute> = Vec::new();
    let ghost mut rmap: Seq<int> = Seq::new(orig.len(), |i: int| i);
    let ghost mut operm: Seq<int> = Seq::empty();
    proof {
        lemma_all_from_refl(orig);
        assert(all_from(out@, orig));
    }
    while rest.len() > 0
        invariant
            out@.len() + rest@.len() == orig.len(),
            out@.to_multiset().add(rest@.to_multiset()) == orig.to_multiset(),
            all_from(out@, orig),
            all_from(rest@, orig),
            forall|i: int, j: int|
                0 <= i < j < out@.len() ==> key_le(#[trigger] out@[i], #[trigger] out@[j]),
            forall|i: int, j: int|
                0 <= i < out@.len() && 0 <= j < rest@.len() ==> key_le(
                    #[trigger] out@[i],
                    #[trigger] rest@[j],
                ),
            rmap.len() == rest@.len(),
            forall|t: int|
                0 <= t < rmap.len() ==> 0 <= #[trigger] rmap[t] < orig.len() && rest@[t]
                    == orig[rmap[t]],
            forall|t1: int, t2: int|
                #![trigger rmap[t1], rmap[t2]]
                0 <= t1 < t2 < rmap.len() ==> rmap[t1] < rmap[t2],
            operm.len() == out@.len(),
            forall|t: int|
                0 <= t < operm.len() ==> 0 <= #[trigger] operm[t] < orig.len() && out@[t]
                    == orig[operm[t]],
            forall|o: int, t: int|
                #![trigger operm[o], rmap[t]]
                0 <= o < out@.len() && 0 <= t < rest@.len() && score_tie(out@[o], rest@[t])
                    ==> operm[o] < rmap[t],
            forall|o1: int, o2: int|
                #![trigger operm[o1], operm[o2]]
                0 <= o1 < o2 < out@.len() && score_tie(out@[o1], out@[o2]) ==> operm[o1]
                    < operm[o2],
        decreases rest@.len(),
    {
        let mut m: usize = 0;
        let mut j: usize = 1;
        while j < rest.len()
            invariant
                0 <= m < j <= rest@.len(),
                rest@.len() > 0,
                forall|t: int| 0 <= t < j ==> key_le(rest@[m as int], #[trigger] rest@[t]),
                forall|t: int| 0 <= t < m ==> !key_le(#[trigger] rest@[t], rest@[m as int]),
            decreases rest@.len() - j,
        {
            if !key_le_x(&rest[m], &rest[j]) {
                m = j;
            }
            j += 1;
        }
        let ghost rest0 = rest@;
        let ghost out0 = out@;
        let ghost rmap0 = rmap;
        let x = rest.remove(m);
        out.push(x);
        proof {
            broadcast use vstd::seq_lib::group_to_multiset_ensures;

            operm = operm.push(rmap0[m as int]);
            rmap = rmap0.remove(m as int);
            assert(out@.to_multiset() =~= out0.to_multiset().insert(x));
            assert(out@.to_multiset().add(rest@.to_multiset()) =~= orig.to_multiset());
            lemma_all_from_remove(rest0, orig, m as int);
            assert(all_from(rest@, orig));
            assert(orig.contains(rest0[m as int]));
            lemma_all_from_push(out0, orig, x);
            assert(all_from(out@, orig));
            assert forall|i: int, j2: int|
                0 <= i < out@.len() && 0 <= j2 < rest@.len() implies key_le(
                #[trigger] out@[i],
                #[trigger] rest@[j2],
            ) by {
                if j2 < m {
                    assert(rest@[j2] == rest0[j2]);
                } else {
                    assert(rest@[j2] == rest0[j2 + 1]);
                }
            };
            assert forall|t: int| 0 <= t < rmap.len() implies 0 <= #[trigger] rmap[t] < orig.len()
                && rest@[t] == orig[rmap[t]] by {
                if t < m {
                    assert(rmap[t] == rmap0[t] && rest@[t] == rest0[t]);
                } else {
                    assert(rmap[t] == rmap0[t + 1] && rest@[t] == rest0[t + 1]);
                }
            };
            assert forall|t1: int, t2: int|
                #![trigger rmap[t1], rmap[t2]]
                0 <= t1 < t2 < rmap.len() implies rmap[t1] < rmap[t2] by {
                assert(rmap[t1] == (if t1 < m {
                    rmap0[t1]
                } else {
                    rmap0[t1 + 1]
                }));
                assert(rmap[t2] == (if t2 < m {
                    rmap0[t2]
                } else {
                    rmap0[t2 + 1]
                }));
            };
            // A route tied with the emitted one cannot stand before it:
            // the scan picked the earliest minimum, and earlier entries
            // compare strictly above.
            assert forall|o: int, t: int|
                #![trigger operm[o], rmap[t]]
                0 <= o < out@.len() && 0 <= t < rest@.len() && score_tie(out@[o], rest@[t])
                    implies operm[o] < rmap[t] by {
                let t0: int = if t < m {
                    t
                } else {
                    t + 1
                };
                assert(rest@[t] == rest0[t0] && rmap[t] == rmap0[t0]);
                if o < out0.len() {
                    assert(operm[o] == operm.drop_last()[o]);
                } else {
                    assert(out@[o] == x && operm[o] == rmap0[m as int]);
                    if t0 < m {
                        assert(key_le(rest0[t0], rest0[m as int]));
                        assert(false);
                    }
                }
            };
            assert forall|o1: int, o2: int|
                #![trigger operm[o1], operm[o2]]
                0 <= o1 < o2 < out@.len() && score_tie(out@[o1], out@[o2]) implies operm[o1]
                    < operm[o2] by {
                if o2 == out@.len() - 1 {
                    assert(out@[o1] == out0[o1] && operm[o1] == operm.drop_last()[o1]);
                    assert(out@[o2] == rest0[m as int] && operm[o2] == rmap0[m as int]);
                }
            };
        }
    }
    proof {
        broadcast use vstd::seq_lib::group_to_multiset_ensures;

        assert(rest@.to_multiset() =~= Multiset::<CandidateRoute>::empty());
        assert(out@.to_multiset() =~= orig.to_multiset());
        assert(sorted_stably_from(out@, orig, operm));
    }
    out
}

/// Materializes a hop list into a candidate route: a schedule from the
/// pickup time with mode-transfer dwell between legs, per-segment cost,
/// carbon and labor for the request's weight, and exact totals. `None`
/// exactly when one of the exact values does not fit the numeric
/// range; such a candidate is dropped, as a numeric failure fails only
/// the route.
#[verifier::rlimit(100)]
fn path_to_route(
    graph: &TransportGraph,
    path: &Vec<(usize, usize)>,
    req: &OptimizeRequest,
    origin: usize,
    destination: usize,
) -> (r: Option<CandidateRoute>)
    requires
        path_ok(
            path@,
            graph.edges_seq(),
            graph.nodes_seq().len() as int,
            *req,
            origin,
            destination,
        ),
    ensures
        r is Some <==> path_fits(path@, graph.edges_seq(), *req),
        r matches Some(rt) ==> {
            &&& rt.segments@.len() == path@.len()
            &&& totals_ok(rt)
            &&& seg_chain_ok(rt.segments@)
            &&& path@.len() > 0 ==> rt.segments@[0].departure_time == req.pickup_after
                && rt.segments@[0].from_node@ == req.origin_code@
            &&& forall|k: int|
                0 <= k < path@.len() ==> seg_from_edge(
                    #[trigger] rt.segments@[k],
                    graph.edges_seq()[path@[k].1 as int].2,
                    req.weight_kg,
                ) && rt.segments@[k].to_node@ == graph.nodes_seq()[path@[k].0 as int].code@
            &&& rt.constraint_results@.len() == 0
            &&& rt.pareto_rank == 0
            &&& !rt.pareto_optimal
        },
{
    let g = graph.inner();
    let ghost edges = graph.edges_seq();
    let mut route = CandidateRoute::new();
    let mut current_time = req.pickup_after;
    let n = path.len();
    let mut k: usize = 0;
    while k < n
        invariant
            crate::digraph::graph_nodes(*g) == graph.nodes_seq(),
            crate::digraph::graph_edges(*g) == graph.edges_seq(),
            edges == graph.edges_seq(),
            path_ok(
                path@,
                graph.edges_seq(),
                graph.nodes_seq().len() as int,
                *req,
                origin,
                destination,
            ),
            n == path@.len(),
            0 <= k <= n,
            k <= 0x1_0000_0000,
            route.segments@.len() == k,
            route.pareto_rank == 0,
            !route.pareto_optimal,
            route.constraint_results@.len() == 0,
            current_time == mat_arrival(path@, edges, req.pickup_after, k - 1),
            k == 0 ==> current_time == req.pickup_after,
            k > 0 ==> current_time == route.segments@[k - 1].arrival_time,
            k > 0 ==> route.segments@[0].departure_time == req.pickup_after
                && route.segments@[0].from_node@ == req.origin_code@,
            seg_chain_ok(route.segments@),
            forall|t: int|
                #![trigger path@[t]]
                0 <= t < k ==> cost_of(edges[path@[t].1 as int].2, req.weight_kg) <= u64::MAX
                    && carbon_of(edges[path@[t].1 as int].2, req.weight_kg) <= u64::MAX
                    && mat_arrival(path@, edges, req.pickup_after, t) <= u64::MAX,
            forall|t: int|
                0 <= t < k ==> seg_from_edge(
                    #[trigger] route.segments@[t],
                    graph.edges_seq()[path@[t].1 as int].2,
                    req.weight_kg,
                ) && route.segments@[t].to_node@ == graph.nodes_seq()[path@[t].0 as int].code@,
        decreases n - k,
    {
        let (target, eid) = (path[k].0, path[k].1);
        proof {
            assert(path@[k as int].1 < graph.edges_seq().len() && path@[k as int].0
                < graph.nodes_seq().len());
        }
        let e = pg_edge_weight(g, eid);
        let transfer: u64 = if k == 0 {
            0
        } else {
            let prev_mode = route.segments[k - 1].mode;
            proof {
                assert(route.segments@[k - 1].mode == edges[path@[k - 1].1 as int].2.mode);
            }
            prev_mode.mode_transfer_hours(&e.mode)
        };
        let ghost arr_spec = mat_arrival(path@, edges, req.pickup_after, k as int);
        let Some(departure) = current_time.checked_add(transfer) else {
            proof {
                assert(arr_spec > u64::MAX);
            }
            return None;
        };
        let Some(arrival) = departure.checked_add(e.transit_hours) else {
            proof {
                assert(arr_spec > u64::MAX);
            }
            return None;
        };
        let Some(cost) = e.calculate_cost(req.weight_kg) else { return None };
        let Some(carbon) = e.calculate_carbon(req.weight_kg) else { return None };
        let labor = e.labor_score(DEFAULT_COUNTRY_MIN_WAGE);
        if k > (u32::MAX as usize) {
            // More hops than sequence numbers: an unrepresentable route.
            proof {
                assert(path@.len() > 0x1_0000_0000);
            }
            return None;
        }
        let from_node: String = if k == 0 {
            req.origin_code.clone()
        } else {
            route.segments[k - 1].to_node.clone()
        };
        let to_node: String = pg_node_ref(g, target).code.clone();
        let segment = RouteSegment {
            segment_id: String::new(),
            sequence: k as u32,
            from_node,
            to_node,
            mode: e.mode,
            carrier_code: e.carrier_code.clone(),
            distance_km: e.distance_km,
            cost_usd: cost,
            transit_hours: e.transit_hours,
            carbon_kg: carbon,
            carrier_wage_cents: e.carrier_wage_cents,
            labor_score: labor,
            departure_time: departure,
            arrival_time: arrival,
        };
        route.segments.push(segment);
        proof {
            assert(arrival == arr_spec);
        }
        current_time = arrival;
        k += 1;
    }
    let ghost segs = route.segments@;
    proof {
        lemma_mat_sums(segs, path@, edges, req.weight_kg);
    }
    if !route.recalculate_totals() {
        return None;
    }
    proof {
        assert(path_fits(path@, edges, *req));
    }
    Some(route)
}

/// Builds routes against cached constraint parameters./// Builds routes against cached constraint parameters.
pub struct Optimizer {
    constraint_engine: ConstraintEngine,
}

impl Optimizer {
    /// The engine the optimizer evaluates constraints with.
    pub closed spec fn spec_engine(&self) -> ConstraintEngine {
        self.constraint_engine
    }

    /// An optimizer around the given constraint engine.
    pub fn new(constraint_engine: ConstraintEngine) -> (r: Self)
        ensures
            r.spec_engine() == constraint_engine,
    {
        Optimizer { constraint_engine }
    }

    /// Whether route `a` dominates route `b` on the four objectives.
    pub fn dominates(&self, a: &CandidateRoute, b: &CandidateRoute) -> (r: bool)
        ensures
            r == dominates_spec(*a, *b),
    {
        dominates_x(a, b)
    }

    /// Ranks routes by non-dominated sorting; see `assign_pareto_ranks`.
    pub fn calculate_pareto_ranks(&self, routes: Vec<CandidateRoute>) -> (r: Vec<CandidateRoute>)
        requires
            routes@.len() < 0xffff_ffff,
        ensures
            r@.len() == routes@.len(),
            forall|i: int|
                0 <= i < r@.len() ==> (#[trigger] r@[i]) == (CandidateRoute {
                    pareto_rank: r@[i].pareto_rank,
                    pareto_optimal: r@[i].pareto_optimal,
                    ..routes@[i]
                }),
            forall|i: int|
                0 <= i < r@.len() ==> (#[trigger] r@[i]).pareto_rank >= 1 && (r@[i].pareto_optimal
                    <==> r@[i].pareto_rank == 1),
            forall|i: int, j: int|
                0 <= i < r@.len() && 0 <= j < r@.len() && dominates_spec(r@[i], r@[j]) ==> (
                #[trigger] r@[i]).pareto_rank < (#[trigger] r@[j]).pareto_rank,
            forall|i: int|
                0 <= i < r@.len() && crate::pareto::non_dominated(r@, i) ==> (
                #[trigger] r@[i]).pareto_rank == 1,
    {
        assign_pareto_ranks(routes)
    }

    /// Materializes each candidate path, evaluates constraints, and
    /// keeps the routes whose hard constraints all pass. Whenever some
    /// candidate fits the numeric range and satisfies the hard
    /// constraints, at least one route survives.
    #[verifier::rlimit(100)]
    fn materialize_admissible(
        &self,
        graph: &TransportGraph,
        candidates: &Vec<Vec<(usize, usize)>>,
        request: &OptimizeRequest,
        origin_idx: usize,
        dest_idx: usize,
    ) -> (r: Vec<CandidateRoute>)
        requires
            forall|p: int|
                0 <= p < candidates@.len() ==> (#[trigger] candidates@[p])@.len() > 0
                    && candidates@[p]@.len() <= request.max_segments && path_ok(
                    candidates@[p]@,
                    graph.edges_seq(),
                    graph.nodes_seq().len() as int,
                    *request,
                    origin_idx,
                    dest_idx,
                ),
        ensures
            r@.len() <= candidates@.len(),
            forall|t: int|
                0 <= t < r@.len() ==> base_route_ok(
                    #[trigger] r@[t],
                    graph.nodes_seq(),
                    graph.edges_seq(),
                    *request,
                    self.spec_engine().spec_cache(),
                ),
            forall|p: int|
                0 <= p < candidates@.len() && path_fits(
                    (#[trigger] candidates@[p])@,
                    graph.edges_seq(),
                    *request,
                ) && walk_hard_ok(
                    candidates@[p]@,
                    graph.nodes_seq(),
                    graph.edges_seq(),
                    *request,
                    self.spec_engine().spec_cache(),
                ) ==> r@.len() > 0,
    {
        let ghost nodes = graph.nodes_seq();
        let ghost edges = graph.edges_seq();
        let ghost cache = self.spec_engine().spec_cache();
        let mut admissible: Vec<CandidateRoute> = Vec::new();
        let mut ci: usize = 0;
        while ci < candidates.len()
            invariant
                0 <= ci <= candidates@.len(),
                nodes == graph.nodes_seq(),
                edges == graph.edges_seq(),
                cache == self.spec_engine().spec_cache(),
                admissible@.len() <= ci,
                forall|p: int|
                    0 <= p < candidates@.len() ==> (#[trigger] candidates@[p])@.len() > 0
                        && candidates@[p]@.len() <= request.max_segments && path_ok(
                        candidates@[p]@,
                        graph.edges_seq(),
                        graph.nodes_seq().len() as int,
                        *request,
                        origin_idx,
                        dest_idx,
                    ),
                forall|t: int|
                    0 <= t < admissible@.len() ==> base_route_ok(
                        #[trigger] admissible@[t],
                        nodes,
                        edges,
                        *request,
                        cache,
                    ),
                forall|p: int|
                    0 <= p < ci && path_fits((#[trigger] candidates@[p])@, edges, *request)
                        && walk_hard_ok(candidates@[p]@, nodes, edges, *request, cache)
                        ==> admissible@.len() > 0,
            decreases candidates@.len() - ci,
        {
            let ghost pre_len = admissible@.len();
            if let Some(mut route) = path_to_route(
                graph,
                &candidates[ci],
                request,
                origin_idx,
                dest_idx,
            ) {
                let ghost rt0 = route;
                let results = self.constraint_engine.evaluate_route(&route, request);
                route.constraint_results = results;
                proof {
                    crate::constraints::lemma_evaluation_route_fields(
                        route.constraint_results@,
                        rt0,
                        route,
                        *request,
                        cache,
                    );
                    let pth = candidates@[ci as int]@;
                    // A candidate whose walk satisfies the hard
                    // constraints materializes into an admissible route.
                    if walk_hard_ok(pth, nodes, edges, *request, cache) {
                        lemma_walk_hard_to_route(route, pth, nodes, edges, *request, cache);
                    }
                }
                if all_hard_passed(&route.constraint_results) {
                    proof {
                        lemma_materialized_base(
                            route,
                            candidates@[ci as int]@,
                            nodes,
                            edges,
                            *request,
                            cache,
                            origin_idx,
                            dest_idx,
                        );
                    }
                    admissible.push(route);
                }
            }
            proof {
                assert forall|p: int|
                    0 <= p < ci + 1 && path_fits((#[trigger] candidates@[p])@, edges, *request)
                        && walk_hard_ok(candidates@[p]@, nodes, edges, *request, cache)
                        implies admissible@.len() > 0 by {
                    if p < ci {
                        assert(admissible@.len() >= pre_len || true);
                    }
                };
            }
            ci += 1;
        }
        admissible
    }

    /// Answers an optimization request.
    ///
    /// Returns at most `max_routes` routes, each a well-formed schedule
    /// over admitted edges of the graph with exact totals, correct
    /// constraint results, every hard constraint passed, a Pareto rank
    /// consistent with dominance across the returned set, and weighted
    /// scores computed against the objective maxima of one common
    /// superset of the returned routes; the list is ordered by
    /// ascending score with ranks breaking ties. No more routes than
    /// candidates are returned; a positive candidate count witnesses a
    /// feasible walk; under the search's progress hypotheses a
    /// candidate is found, and a route is returned when every feasible
    /// walk is representable and passes the hard constraints. An
    /// unknown origin or destination yields an empty result with no
    /// candidates evaluated.
    #[verifier::rlimit(100)]
    pub fn optimize(&self, graph: &TransportGraph, request: &OptimizeRequest) -> (r:
        OptimizeResult)
        ensures
            r.routes@.len() <= request.max_routes,
            r.routes@.len() <= r.candidates_evaluated,
            forall|i: int|
                0 <= i < r.routes@.len() ==> route_ok(
                    #[trigger] r.routes@[i],
                    graph.nodes_seq(),
                    graph.edges_seq(),
                    *request,
                    self.spec_engine().spec_cache(),
                ),
            forall|i: int, j: int|
                0 <= i < r.routes@.len() && 0 <= j < r.routes@.len() && dominates_spec(
                    r.routes@[i],
                    r.routes@[j],
                ) ==> (#[trigger] r.routes@[i]).pareto_rank < (#[trigger] r.routes@[j]).pareto_rank,
            forall|i: int, j: int|
                0 <= i < j < r.routes@.len() ==> key_le(
                    #[trigger] r.routes@[i],
                    #[trigger] r.routes@[j],
                ),
            exists|basis: Seq<CandidateRoute>|
                #[trigger] all_from(r.routes@, basis) && forall|i: int|
                    0 <= i < r.routes@.len() ==> (#[trigger] r.routes@[i]).weighted_score
                        == weighted_score_spec(
                        r.routes@[i],
                        *request,
                        max_cost_of(basis),
                        max_time_of(basis),
                        max_carbon_of(basis),
                    ),
            (code_lookup(graph.nodes_seq(), request.origin_code@) is None || code_lookup(
                graph.nodes_seq(),
                request.destination_code@,
            ) is None) ==> r.routes@.len() == 0 && r.candidates_evaluated == 0,
            (match (
                code_lookup(graph.nodes_seq(), request.origin_code@),
                code_lookup(graph.nodes_seq(), request.destination_code@),
            ) {
                (Some(a), Some(b)) => {
                    &&& (r.candidates_evaluated > 0 ==> exists|p: Seq<(usize, usize)>|
                        #[trigger] crate::search::feasible_walk(
                            p,
                            graph.edges_seq(),
                            graph.nodes_seq().len() as int,
                            *request,
                            a as usize,
                            b as usize,
                        ))
                    &&& (progress_hyp(
                        graph.edges_seq(),
                        graph.nodes_seq().len() as int,
                        *request,
                        a as usize,
                        b as usize,
                        search_cap(request.max_routes) as usize,
                    ) ==> r.candidates_evaluated >= 1)
                    &&& ((progress_hyp(
                        graph.edges_seq(),
                        graph.nodes_seq().len() as int,
                        *request,
                        a as usize,
                        b as usize,
                        search_cap(request.max_routes) as usize,
                    ) && request.max_routes >= 1 && (forall|p: Seq<(usize, usize)>|
                        #[trigger] crate::search::feasible_walk(
                            p,
                            graph.edges_seq(),
                            graph.nodes_seq().len() as int,
                            *request,
                            a as usize,
                            b as usize,
                        ) ==> path_fits(p, graph.edges_seq(), *request) && walk_hard_ok(
                            p,
                            graph.nodes_seq(),
                            graph.edges_seq(),
                            *request,
                            self.spec_engine().spec_cache(),
                        ))) ==> r.routes@.len() >= 1)
                },
                _ => true,
            }),
    {
        proof {
            lemma_code_lookup_valid(graph.nodes_seq(), request.origin_code@);
            lemma_code_lookup_valid(graph.nodes_seq(), request.destination_code@);
        }
        let Some(origin_idx) = graph.get_node_index(request.origin_code.as_str()) else {
            let none: Vec<CandidateRoute> = Vec::new();
            proof {
                assert(all_from(none@, none@));
            }
            return OptimizeResult { routes: none, optimization_time_ms: 0, candidates_evaluated: 0 };
        };
        let Some(dest_idx) = graph.get_node_index(request.destination_code.as_str()) else {
            let none: Vec<CandidateRoute> = Vec::new();
            proof {
                assert(all_from(none@, none@));
            }
            return OptimizeResult { routes: none, optimization_time_ms: 0, candidates_evaluated: 0 };
        };
        // Find more candidates than needed, filter later.
        let k0 = match request.max_routes.checked_mul(3) {
            Some(v) => v,
            None => usize::MAX,
        };
        let k = if k0 > 0xffff_fffe {
            0xffff_fffe
        } else {
            k0
        };
        proof {
            assert(k as int == search_cap(request.max_routes));
        }
        let candidates = find_k_shortest_paths(graph, origin_idx, dest_idx, request, k);
        let candidates_evaluated = candidates.len();
        proof {
            if candidates@.len() > 0 {
                assert(crate::search::feasible_walk(
                    candidates@[0]@,
                    graph.edges_seq(),
                    graph.nodes_seq().len() as int,
                    *request,
                    origin_idx,
                    dest_idx,
                ));
            }
        }

        let admissible = self.materialize_admissible(
            graph,
            &candidates,
            request,
            origin_idx,
            dest_idx,
        );
        let ghost admv = admissible@;
        let routes = finalize(
            admissible,
            request,
            Ghost(graph.nodes_seq()),
            Ghost(graph.edges_seq()),
            Ghost(self.spec_engine().spec_cache()),
        );
        proof {
            let edges = graph.edges_seq();
            let nodes = graph.nodes_seq();
            let nlen = graph.nodes_seq().len() as int;
            let cache = self.spec_engine().spec_cache();
            let hyp = progress_hyp(edges, nlen, *request, origin_idx, dest_idx, k);
            if hyp && request.max_routes >= 1 && (forall|p: Seq<(usize, usize)>|
                #[trigger] crate::search::feasible_walk(
                    p,
                    edges,
                    nlen,
                    *request,
                    origin_idx,
                    dest_idx,
                ) ==> path_fits(p, edges, *request) && walk_hard_ok(
                    p,
                    nodes,
                    edges,
                    *request,
                    cache,
                )) {
                assert(candidates@.len() >= 1);
                assert(crate::search::feasible_walk(
                    candidates@[0]@,
                    edges,
                    nlen,
                    *request,
                    origin_idx,
                    dest_idx,
                ));
                assert(path_fits(candidates@[0]@, edges, *request) && walk_hard_ok(
                    candidates@[0]@,
                    nodes,
                    edges,
                    *request,
                    cache,
                ));
                assert(admv.len() > 0);
                assert(routes@.len() >= 1);
            }
            // Restate the boundary facts the contract's match reads.
            assert(code_lookup(graph.nodes_seq(), request.origin_code@) == Some(
                origin_idx as int,
            ));
            assert(code_lookup(graph.nodes_seq(), request.destination_code@) == Some(
                dest_idx as int,
            ));
            assert((origin_idx as int) as usize == origin_idx);
            assert((dest_idx as int) as usize == dest_idx);
            assert(search_cap(request.max_routes) as usize == k);
            if candidates@.len() > 0 {
                assert(exists|p: Seq<(usize, usize)>|
                    #[trigger] crate::search::feasible_walk(
                        p,
                        edges,
                        nlen,
                        *request,
                        origin_idx,
                        dest_idx,
                    ));
            }
            if progress_hyp(edges, nlen, *request, origin_idx, dest_idx, k) {
                assert(candidates@.len() >= 1);
            }
        }
        let result = OptimizeResult { routes, optimization_time_ms: 0, candidates_evaluated };
        proof {
            let basis = choose|basis: Seq<CandidateRoute>|
                #[trigger] all_from(result.routes@, basis) && forall|i: int|
                    0 <= i < result.routes@.len() ==> (#[trigger] result.routes@[i]).weighted_score
                        == weighted_score_spec(
                        result.routes@[i],
                        *request,
                        max_cost_of(basis),
                        max_time_of(basis),
                        max_carbon_of(basis),
                    );
            assert(all_from(result.routes@, basis));
        }
        result
    }
}

/// A route as it leaves materialization, evaluation and the hard
/// filter, before ranks and scores are attached.
#[verifier::opaque]
pub open spec fn base_route_ok(
    rt: CandidateRoute,
    nodes: Seq<TransportNode>,
    edges: Seq<(usize, usize, TransportEdge)>,
    req: OptimizeRequest,
    cache: ConstraintCache,
) -> bool {
    totals_ok(rt) && seg_chain_ok(rt.segments@) && rt.segments@.len() > 0 && rt.segments@.len()
        <= req.max_segments && rt.segments@[0].departure_time == req.pickup_after
        && rt.segments@[0].from_node@ == req.origin_code@ && route_from_graph(rt, nodes, edges, req)
        && evaluation_ok(rt.constraint_results@, rt, req, cache) && all_hard_passed_spec(
        rt.constraint_results@,
    )
}

/// A ranked route is fully well-formed once its base properties hold
/// and its rank fields are consistent.
proof fn lemma_route_ok_from_base(
    b: CandidateRoute,
    nodes: Seq<TransportNode>,
    edges: Seq<(usize, usize, TransportEdge)>,
    req: OptimizeRequest,
    cache: ConstraintCache,
)
    requires
        base_route_ok(b, nodes, edges, req, cache),
        b.pareto_rank >= 1,
        b.pareto_optimal <==> b.pareto_rank == 1,
    ensures
        route_ok(b, nodes, edges, req, cache),
{
    reveal(base_route_ok);
    reveal(route_ok);
}

/// The visit-and-emission cap the search runs with: three candidates
/// for every requested route, held below the rank limit.
pub open spec fn search_cap(max_routes: usize) -> int {
    if max_routes * 3 > 0xffff_fffe {
        0xffff_fffe
    } else {
        max_routes * 3
    }
}

/// Materialized segments sum exactly as the walk's edges do.
proof fn lemma_mat_sums(
    segs: Seq<RouteSegment>,
    path: Seq<(usize, usize)>,
    edges: Seq<(usize, usize, TransportEdge)>,
    weight_kg: u64,
)
    requires
        segs.len() == path.len(),
        forall|t: int|
            0 <= t < segs.len() ==> seg_from_edge(
                #[trigger] segs[t],
                edges[path[t].1 as int].2,
                weight_kg,
            ),
    ensures
        sum_cost(segs) == walk_cost(path, edges, weight_kg),
        sum_time(segs) == walk_transit(path, edges),
        sum_carbon(segs) == walk_carbon(path, edges, weight_kg),
        sum_distance(segs) == walk_distance(path, edges),
        sum_labor(segs) == walk_labor(path, edges),
    decreases segs.len(),
{
    if segs.len() > 0 {
        assert forall|t: int| 0 <= t < segs.drop_last().len() implies seg_from_edge(
            #[trigger] segs.drop_last()[t],
            edges[path.drop_last()[t].1 as int].2,
            weight_kg,
        ) by {
            assert(segs.drop_last()[t] == segs[t] && path.drop_last()[t] == path[t]);
        };
        lemma_mat_sums(segs.drop_last(), path.drop_last(), edges, weight_kg);
        assert(seg_from_edge(segs[segs.len() - 1], edges[path[path.len() - 1].1 as int].2, weight_kg));
    }
}

/// A route materialized from a walk whose hard constraints hold passes
/// every hard constraint.
proof fn lemma_walk_hard_to_route(
    rt: CandidateRoute,
    path: Seq<(usize, usize)>,
    nodes: Seq<TransportNode>,
    edges: Seq<(usize, usize, TransportEdge)>,
    req: OptimizeRequest,
    cache: ConstraintCache,
)
    requires
        rt.segments@.len() == path.len(),
        exists|origin: usize, destination: usize|
            #[trigger] path_ok(path, edges, nodes.len() as int, req, origin, destination),
        forall|t: int|
            0 <= t < path.len() ==> seg_from_edge(
                #[trigger] rt.segments@[t],
                edges[path[t].1 as int].2,
                req.weight_kg,
            ) && rt.segments@[t].to_node@ == nodes[path[t].0 as int].code@,
        totals_ok(rt),
        evaluation_ok(rt.constraint_results@, rt, req, cache),
        walk_hard_ok(path, nodes, edges, req, cache),
    ensures
        all_hard_passed_spec(rt.constraint_results@),
{
    reveal(crate::constraints::evaluation_ok);
    assert(!crate::constraints::sanction_violation(rt, cache)) by {
        if crate::constraints::sanction_violation(rt, cache) {
            let i = choose|i: int|
                0 <= i < rt.segments@.len() && contains_str(
                    cache.sanctioned_carriers@,
                    rt.segments@[i].carrier_code@,
                );
            assert(rt.segments@[i].carrier_code@ == edges[path[i].1 as int].2.carrier_code@);
        }
    };
    assert(!crate::constraints::wage_violation(rt, cache)) by {
        if crate::constraints::wage_violation(rt, cache) {
            let i = choose|i: int|
                0 <= i < rt.segments@.len() && (#[trigger] rt.segments@[i]).carrier_wage_cents
                    < min_wage_for(cache, rt.segments@[i].to_node@);
            assert(rt.segments@[i].carrier_wage_cents == edges[path[i].1 as int].2.carrier_wage_cents);
            assert(rt.segments@[i].to_node@ == nodes[path[i].0 as int].code@);
        }
    };
    lemma_mat_sums(rt.segments@, path, edges, req.weight_kg);
    assert(crate::constraints::time_ok(rt, req));
    assert forall|i: int|
        0 <= i < rt.constraint_results@.len() implies ((#[trigger] rt.constraint_results@[i]).is_hard
        ==> rt.constraint_results@[i].passed) by {
        if i >= 3 {
            assert(!rt.constraint_results@[i].is_hard);
        }
    };
}

/// A route materialized from a walk of the graph, with its constraint
/// results evaluated and every hard one passed, is admissible.
#[verifier::rlimit(100)]
proof fn lemma_materialized_base(
    rt: CandidateRoute,
    path: Seq<(usize, usize)>,
    nodes: Seq<TransportNode>,
    edges: Seq<(usize, usize, TransportEdge)>,
    req: OptimizeRequest,
    cache: ConstraintCache,
    origin: usize,
    destination: usize,
)
    requires
        path_ok(path, edges, nodes.len() as int, req, origin, destination),
        rt.segments@.len() == path.len(),
        path.len() > 0,
        path.len() <= req.max_segments,
        totals_ok(rt),
        seg_chain_ok(rt.segments@),
        rt.segments@[0].departure_time == req.pickup_after,
        rt.segments@[0].from_node@ == req.origin_code@,
        forall|t: int|
            0 <= t < path.len() ==> seg_from_edge(
                #[trigger] rt.segments@[t],
                edges[path[t].1 as int].2,
                req.weight_kg,
            ) && rt.segments@[t].to_node@ == nodes[path[t].0 as int].code@,
        evaluation_ok(rt.constraint_results@, rt, req, cache),
        all_hard_passed_spec(rt.constraint_results@),
    ensures
        base_route_ok(rt, nodes, edges, req, cache),
{
    reveal(base_route_ok);
    assert forall|k: int| #![trigger rt.segments@[k]]
        0 <= k < rt.segments@.len() implies exists|j: int|
        0 <= j < edges.len() && edge_ok(#[trigger] edges[j].2, req) && seg_from_edge(
            rt.segments@[k],
            edges[j].2,
            req.weight_kg,
        ) && (edges[j].1 as int) < nodes.len() && rt.segments@[k].to_node@ == nodes[edges[j].1 as int].code@ by {
        let j = path[k].1 as int;
        assert(edges[j].1 == path[k].0);
        assert(0 <= j < edges.len() && edge_ok(edges[j].2, req) && seg_from_edge(
            rt.segments@[k],
            edges[j].2,
            req.weight_kg,
        ) && (edges[j].1 as int) < nodes.len() && rt.segments@[k].to_node@ == nodes[edges[j].1 as int].code@);
    };
}

/// Pointwise equal objective totals give equal normalization maxima.
proof fn lemma_max_fields_eq(a: Seq<CandidateRoute>, b: Seq<CandidateRoute>)
    requires
        a.len() == b.len(),
        forall|i: int|
            0 <= i < a.len() ==> (#[trigger] a[i]).total_cost_usd == b[i].total_cost_usd
                && a[i].total_time_hours == b[i].total_time_hours && a[i].total_carbon_kg
                == b[i].total_carbon_kg,
    ensures
        max_cost_of(a) == max_cost_of(b),
        max_time_of(a) == max_time_of(b),
        max_carbon_of(a) == max_carbon_of(b),
    decreases a.len(),
{
    if a.len() > 0 {
        assert forall|i: int| 0 <= i < a.drop_last().len() implies (#[trigger] a.drop_last()[i]).total_cost_usd
            == b.drop_last()[i].total_cost_usd && a.drop_last()[i].total_time_hours
            == b.drop_last()[i].total_time_hours && a.drop_last()[i].total_carbon_kg
            == b.drop_last()[i].total_carbon_kg by {
            assert(a.drop_last()[i] == a[i] && b.drop_last()[i] == b[i]);
        };
        lemma_max_fields_eq(a.drop_last(), b.drop_last());
        assert(a.last().total_cost_usd == b[a.len() - 1].total_cost_usd);
        assert(a.last().total_time_hours == b[a.len() - 1].total_time_hours);
        assert(a.last().total_carbon_kg == b[a.len() - 1].total_carbon_kg);
    }
}

/// Well-formedness of a route depends only on its payload, not on its
/// rank, optimality mark or score.
proof fn lemma_base_preserved(
    a: CandidateRoute,
    b: CandidateRoute,
    nodes: Seq<TransportNode>,
    edges: Seq<(usize, usize, TransportEdge)>,
    req: OptimizeRequest,
    cache: ConstraintCache,
)
    requires
        base_route_ok(a, nodes, edges, req, cache),
        b.segments == a.segments,
        b.total_cost_usd == a.total_cost_usd,
        b.total_time_hours == a.total_time_hours,
        b.total_carbon_kg == a.total_carbon_kg,
        b.total_distance_km == a.total_distance_km,
        b.labor_score == a.labor_score,
        b.constraint_results == a.constraint_results,
    ensures
        base_route_ok(b, nodes, edges, req, cache),
{
    reveal(base_route_ok);
    crate::constraints::lemma_evaluation_route_fields(
        a.constraint_results@,
        a,
        b,
        req,
        cache,
    );
}

/// Ranks, scores, orders and truncates an admissible route set: the
/// survivors keep their payloads, carry consistent ranks and scores
/// normalized against the admissible set's maxima, and come back in
/// score order, as many as fit under the route cap.
#[verifier::rlimit(100)]
fn finalize(
    admissible: Vec<CandidateRoute>,
    request: &OptimizeRequest,
    Ghost(nodes): Ghost<Seq<TransportNode>>,
    Ghost(edges): Ghost<Seq<(usize, usize, TransportEdge)>>,
    Ghost(cache): Ghost<ConstraintCache>,
) -> (r: Vec<CandidateRoute>)
    requires
        admissible@.len() < 0xffff_ffff,
        forall|t: int|
            0 <= t < admissible@.len() ==> base_route_ok(
                #[trigger] admissible@[t],
                nodes,
                edges,
                *request,
                cache,
            ),
    ensures
        r@.len() <= request.max_routes,
        r@.len() == (if admissible@.len() <= request.max_routes {
            admissible@.len() as int
        } else {
            request.max_routes as int
        }),
        forall|i: int|
            0 <= i < r@.len() ==> route_ok(#[trigger] r@[i], nodes, edges, *request, cache),
        forall|i: int, j: int|
            0 <= i < r@.len() && 0 <= j < r@.len() && dominates_spec(r@[i], r@[j]) ==> (
            #[trigger] r@[i]).pareto_rank < (#[trigger] r@[j]).pareto_rank,
        forall|i: int, j: int| 0 <= i < j < r@.len() ==> key_le(#[trigger] r@[i], #[trigger] r@[j]),
        exists|basis: Seq<CandidateRoute>|
            #[trigger] all_from(r@, basis) && forall|i: int|
                0 <= i < r@.len() ==> (#[trigger] r@[i]).weighted_score == weighted_score_spec(
                    r@[i],
                    *request,
                    max_cost_of(basis),
                    max_time_of(basis),
                    max_carbon_of(basis),
                ),
{
    let ghost adm = admissible@;
    let ranked = assign_pareto_ranks(admissible);
    proof {
        assert forall|i: int| 0 <= i < ranked@.len() implies base_route_ok(
            #[trigger] ranked@[i],
            nodes,
            edges,
            *request,
            cache,
        ) by {
            lemma_base_preserved(adm[i], ranked@[i], nodes, edges, *request, cache);
        };
    }
    let (mc, mt, mb) = maxima(&ranked);
    let ghost rankedv = ranked@;
    let scored = apply_weighted_scores(ranked, request, mc, mt, mb);
    proof {
        assert forall|i: int| 0 <= i < scored@.len() implies route_ok(
            #[trigger] scored@[i],
            nodes,
            edges,
            *request,
            cache,
        ) && scored@[i].weighted_score == weighted_score_spec(
            scored@[i],
            *request,
            mc as int,
            mt as int,
            mb as int,
        ) by {
            lemma_base_preserved(rankedv[i], scored@[i], nodes, edges, *request, cache);
            lemma_route_ok_from_base(scored@[i], nodes, edges, *request, cache);
        };
        assert forall|i: int, j: int|
            0 <= i < scored@.len() && 0 <= j < scored@.len() && dominates_spec(
                scored@[i],
                scored@[j],
            ) implies (#[trigger] scored@[i]).pareto_rank < (#[trigger] scored@[j]).pareto_rank by {
            assert(dominates_spec(rankedv[i], rankedv[j]));
        };
        lemma_max_fields_eq(scored@, rankedv);
    }
    let ghost scoredv = scored@;
    let mut out = sort_routes(scored);
    proof {
        assert forall|i: int| 0 <= i < out@.len() implies route_ok(
            #[trigger] out@[i],
            nodes,
            edges,
            *request,
            cache,
        ) && out@[i].weighted_score == weighted_score_spec(
            out@[i],
            *request,
            max_cost_of(scoredv),
            max_time_of(scoredv),
            max_carbon_of(scoredv),
        ) by {
            assert(scoredv.contains(out@[i]));
            let j = choose|j: int| 0 <= j < scoredv.len() && scoredv[j] == out@[i];
            assert(route_ok(scoredv[j], nodes, edges, *request, cache));
        };
        assert forall|i: int, j: int|
            0 <= i < out@.len() && 0 <= j < out@.len() && dominates_spec(out@[i], out@[j]) implies (
        #[trigger] out@[i]).pareto_rank < (#[trigger] out@[j]).pareto_rank by {
            assert(scoredv.contains(out@[i]) && scoredv.contains(out@[j]));
            let i2 = choose|t: int| 0 <= t < scoredv.len() && scoredv[t] == out@[i];
            let j2 = choose|t: int| 0 <= t < scoredv.len() && scoredv[t] == out@[j];
            assert(dominates_spec(scoredv[i2], scoredv[j2]));
        };
    }
    let ghost sorted0 = out@;
    out.truncate(request.max_routes);
    proof {
        if request.max_routes <= sorted0.len() {
            assert(out@ == sorted0.subrange(0, request.max_routes as int));
        }
        assert(all_from(out@, scoredv)) by {
            assert forall|i: int| 0 <= i < out@.len() implies scoredv.contains(
                #[trigger] out@[i],
            ) by {
                if request.max_routes <= sorted0.len() {
                    assert(out@[i] == sorted0[i]);
                }
            };
        };
    }
    out
}

} // verus!
