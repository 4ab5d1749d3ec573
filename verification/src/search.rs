//! Bounded best-first enumeration of candidate paths.
//!
//! Up to `k` paths from origin to destination are produced, in
//! nondecreasing order of accumulated monetary cost, as lists of
//! `(target node index, edge index)` hops. Search states live in a
//! priority queue ordered by accumulated cost; each node may be visited
//! at most `k` times, which both allows distinct paths through shared
//! nodes and bounds the search. The visit cap can starve walks through
//! contested nodes, so enumeration of a multi-hop walk is not
//! guaranteed; a feasible direct hop, however, is always found, as the
//! progress clause states.

use vstd::prelude::*;

use crate::arith::lemma_sum_nonneg;
use crate::arith::lemma_sum_update;
use crate::arith::sum_int;
use crate::constraints::contains_str;
use crate::digraph::pg_edge_weight;
use crate::digraph::pg_node_count;
use crate::digraph::pg_out_edges;
use crate::graph::carbon_of;
use crate::graph::cost_of;
use crate::graph::TransportEdge;
use crate::graph::TransportGraph;
use crate::modes::transfer_hours_spec;
use crate::modes::TransportMode;
use crate::routes::mode_allowed;
use crate::routes::OptimizeRequest;

verus! {

use vstd::pervasive::VecAdditionalExecFns;

/// An edge passes the request's pruning predicates: it is active, its
/// carrier is neither sanctioned nor excluded, and its mode is allowed.
pub open spec fn edge_ok(e: TransportEdge, req: OptimizeRequest) -> bool {
    e.active && !e.carrier_sanctioned && mode_allowed(req, e.mode) && !contains_str(
        req.excluded_carriers@,
        e.carrier_code@,
    )
}

/// A hop list is a walk of the graph from `origin` ending at `node`:
/// each hop's edge starts where the previous hop ended, targets the
/// hop's node, stays inside the graph and passes the pruning predicates.
pub open spec fn path_ok(
    path: Seq<(usize, usize)>,
    edges: Seq<(usize, usize, TransportEdge)>,
    nodes_len: int,
    req: OptimizeRequest,
    origin: usize,
    node: usize,
) -> bool {
    (forall|k: int|
        0 <= k < path.len() ==> {
            let eid = (#[trigger] path[k]).1;
            eid < edges.len() && edges[eid as int].0 == (if k == 0 {
                origin
            } else {
                path[k - 1].0
            }) && edges[eid as int].1 == path[k].0 && path[k].0 < nodes_len && edge_ok(
                edges[eid as int].2,
                req,
            )
        }) && node == (if path.len() == 0 {
        origin
    } else {
        path[path.len() - 1].0
    })
}

/// Total monetary cost of a walk's hops for the given weight.
pub open spec fn walk_cost(
    path: Seq<(usize, usize)>,
    edges: Seq<(usize, usize, TransportEdge)>,
    weight_kg: u64,
) -> int
    decreases path.len(),
{
    if path.len() == 0 {
        0
    } else {
        walk_cost(path.drop_last(), edges, weight_kg) + cost_of(
            edges[path.last().1 as int].2,
            weight_kg,
        )
    }
}

/// Total carbon of a walk's hops for the given weight.
pub open spec fn walk_carbon(
    path: Seq<(usize, usize)>,
    edges: Seq<(usize, usize, TransportEdge)>,
    weight_kg: u64,
) -> int
    decreases path.len(),
{
    if path.len() == 0 {
        0
    } else {
        walk_carbon(path.drop_last(), edges, weight_kg) + carbon_of(
            edges[path.last().1 as int].2,
            weight_kg,
        )
    }
}

/// The search's accumulated travel time through hop `t`: every hop adds
/// its transit hours and, for each hop but the first, the mode-transfer
/// dwell from the previous hop's mode.
pub open spec fn walk_time(
    path: Seq<(usize, usize)>,
    edges: Seq<(usize, usize, TransportEdge)>,
    t: int,
) -> int
    decreases t + 1,
{
    if t < 0 {
        0
    } else {
        walk_time(path, edges, t - 1) + edges[path[t].1 as int].2.transit_hours + (if t == 0 {
            0int
        } else {
            transfer_hours_spec(edges[path[t - 1].1 as int].2.mode, edges[path[t].1 as int].2.mode)
                as int
        })
    }
}

/// The search's clock after hop `t`: the clock before the hop plus the
/// whole accumulated travel time through it, starting at the pickup
/// time. The accumulated total is added anew at every hop, so the
/// clock is a conservative over-estimate of real arrival.
pub open spec fn walk_clock(
    path: Seq<(usize, usize)>,
    edges: Seq<(usize, usize, TransportEdge)>,
    pickup: u64,
    t: int,
) -> int
    decreases t + 1,
{
    if t < 0 {
        pickup as int
    } else {
        walk_clock(path, edges, pickup, t - 1) + walk_time(path, edges, t)
    }
}

/// Every hop of the walk meets the delivery-time gate: the search's
/// clock after the hop is within the delivery deadline.
pub open spec fn walk_gate_ok(
    path: Seq<(usize, usize)>,
    edges: Seq<(usize, usize, TransportEdge)>,
    pickup: u64,
    deliver_by: u64,
) -> bool {
    forall|t: int| 0 <= t < path.len() ==> walk_clock(path, edges, pickup, t) <= deliver_by
}

/// `walk_time` and `walk_clock` through hop `t` read only the first
/// `t + 1` hops.
proof fn lemma_walk_prefix(
    p1: Seq<(usize, usize)>,
    p2: Seq<(usize, usize)>,
    edges: Seq<(usize, usize, TransportEdge)>,
    pickup: u64,
    t: int,
)
    requires
        forall|u: int| 0 <= u <= t ==> p1[u] == p2[u],
    ensures
        walk_time(p1, edges, t) == walk_time(p2, edges, t),
        walk_clock(p1, edges, pickup, t) == walk_clock(p2, edges, pickup, t),
    decreases t + 1,
{
    if t >= 0 {
        lemma_walk_prefix(p1, p2, edges, pickup, t - 1);
    }
}

/// Hop costs are nonnegative.
proof fn lemma_cost_of_nonneg(e: TransportEdge, weight_kg: u64)
    ensures
        cost_of(e, weight_kg) >= 0,
{
    vstd::arithmetic::mul::lemma_mul_nonnegative(e.cost_per_kg as int, weight_kg as int);
}

/// A non-empty walk costs at least its first hop, and never less than
/// nothing.
proof fn lemma_walk_cost_first(
    path: Seq<(usize, usize)>,
    edges: Seq<(usize, usize, TransportEdge)>,
    weight_kg: u64,
)
    requires
        path.len() >= 1,
    ensures
        walk_cost(path, edges, weight_kg) >= cost_of(edges[path[0].1 as int].2, weight_kg),
    decreases path.len(),
{
    if path.len() == 1 {
        assert(path.last() == path[0]);
        assert(walk_cost(path.drop_last(), edges, weight_kg) == 0);
    } else {
        assert(path.drop_last()[0] == path[0]);
        lemma_walk_cost_first(path.drop_last(), edges, weight_kg);
        lemma_cost_of_nonneg(edges[path.last().1 as int].2, weight_kg);
    }
}

/// A state of the best-first search: the node reached, the hops taken,
/// and the accumulated cost, travel time, carbon and clock time.
pub struct SearchState {
    pub node: usize,
    pub path: Vec<(usize, usize)>,
    pub cost: u64,
    pub time_hours: u64,
    pub carbon_kg: u64,
    pub current_time: u64,
}

/// A queued state is a well-formed walk of bounded length whose
/// accumulators equal the walk's exact cost, carbon, travel time and
/// clock, and whose every hop met the delivery gate.
pub open spec fn state_inv(
    s: SearchState,
    edges: Seq<(usize, usize, TransportEdge)>,
    nodes_len: int,
    req: OptimizeRequest,
    origin: usize,
) -> bool {
    s.node < nodes_len && s.path@.len() <= req.max_segments && path_ok(
        s.path@,
        edges,
        nodes_len,
        req,
        origin,
        s.node,
    ) && s.cost == walk_cost(s.path@, edges, req.weight_kg) && s.carbon_kg == walk_carbon(
        s.path@,
        edges,
        req.weight_kg,
    ) && s.time_hours == walk_time(s.path@, edges, s.path@.len() - 1) && s.current_time
        == walk_clock(s.path@, edges, req.pickup_after, s.path@.len() - 1) && walk_gate_ok(
        s.path@,
        edges,
        req.pickup_after,
        req.deliver_by,
    )
}

/// A queued state has reached the destination with at least one hop.
pub open spec fn dest_state_in(heap: Seq<SearchState>, destination: usize) -> bool {
    exists|i: int|
        #![trigger heap[i]]
        0 <= i < heap.len() && heap[i].node == destination && heap[i].path@.len() >= 1
}

/// A zero-cost empty-path state — the search's seed — is queued.
pub open spec fn seed_state_in(heap: Seq<SearchState>) -> bool {
    exists|i: int|
        #![trigger heap[i]]
        0 <= i < heap.len() && heap[i].cost == 0 && heap[i].path@.len() == 0
}

/// A walk the search could emit: a pruned, chained walk from origin
/// to destination, non-empty, within the hop cap, whose every hop met
/// the delivery-time gate.
pub open spec fn feasible_walk(
    p: Seq<(usize, usize)>,
    edges: Seq<(usize, usize, TransportEdge)>,
    nodes_len: int,
    req: OptimizeRequest,
    origin: usize,
    destination: usize,
) -> bool {
    path_ok(p, edges, nodes_len, req, origin, destination) && 1 <= p.len() <= req.max_segments
        && walk_gate_ok(p, edges, req.pickup_after, req.deliver_by)
}

/// Some pruned edge joins origin and destination directly, its exact
/// cost and carbon fit the numeric range, and its transit meets the
/// delivery window.
pub open spec fn one_hop_feasible(
    edges: Seq<(usize, usize, TransportEdge)>,
    nodes_len: int,
    req: OptimizeRequest,
    origin: usize,
    destination: usize,
) -> bool {
    exists|j: int|
        #![trigger edges[j]]
        0 <= j < edges.len() && edges[j].0 == origin && edges[j].1 == destination && (
        edges[j].1 as int) < nodes_len && edge_ok(edges[j].2, req) && cost_of(
            edges[j].2,
            req.weight_kg,
        ) <= u64::MAX && carbon_of(edges[j].2, req.weight_kg) <= u64::MAX && req.pickup_after
            + edges[j].2.transit_hours <= req.deliver_by
}

/// Every pruned edge out of the origin costs at least one unit for the
/// request's weight.
pub open spec fn origin_hops_cost_positive(
    edges: Seq<(usize, usize, TransportEdge)>,
    req: OptimizeRequest,
    origin: usize,
) -> bool {
    forall|j: int|
        #![trigger edges[j]]
        0 <= j < edges.len() && edges[j].0 == origin && edge_ok(edges[j].2, req) ==> cost_of(
            edges[j].2,
            req.weight_kg,
        ) >= 1
}

/// The hypotheses under which the search is guaranteed to emit at
/// least one path: distinct endpoints, room for one path and one hop,
/// a feasible direct hop, and no free hops out of the origin.
pub open spec fn progress_hyp(
    edges: Seq<(usize, usize, TransportEdge)>,
    nodes_len: int,
    req: OptimizeRequest,
    origin: usize,
    destination: usize,
    k: usize,
) -> bool {
    origin != destination && k >= 1 && req.max_segments >= 1 && one_hop_feasible(
        edges,
        nodes_len,
        req,
        origin,
        destination,
    ) && origin_hops_cost_positive(edges, req, origin)
}

/// How many more visits the search may still spend, over all nodes.
pub open spec fn visits_left(counts: Seq<usize>, k: int) -> int {
    sum_int(counts.map_values(|c: usize| k - c))
}

proof fn lemma_visits_left_nonneg(counts: Seq<usize>, k: int)
    requires
        forall|i: int| 0 <= i < counts.len() ==> (#[trigger] counts[i]) <= k,
    ensures
        visits_left(counts, k) >= 0,
{
    lemma_sum_nonneg(counts.map_values(|c: usize| k - c));
}

/// Removes and returns a state of minimal cost; the rest of the queue
/// is the old queue with the last element moved into the hole.
fn pop_min(heap: &mut Vec<SearchState>) -> (r: SearchState)
    requires
        old(heap)@.len() > 0,
    ensures
        final(heap)@.len() == old(heap)@.len() - 1,
        exists|i: int|
            0 <= i < old(heap)@.len() && r == old(heap)@[i] && final(heap)@ == old(
                heap,
            )@.update(i, old(heap)@.last()).drop_last(),
        forall|j: int| #![trigger final(heap)@[j]]
            0 <= j < final(heap)@.len() ==> exists|i: int|
                0 <= i < old(heap)@.len() && final(heap)@[j] == old(heap)@[i],
        forall|j: int| 0 <= j < final(heap)@.len() ==> (#[trigger] final(heap)@[j]).cost >= r.cost,
{
    let mut best: usize = 0;
    let mut j: usize = 1;
    while j < heap.len()
        invariant
            0 <= best < j <= heap@.len(),
            heap@.len() > 0,
            forall|t: int| 0 <= t < j ==> (#[trigger] heap@[t]).cost >= heap@[best as int].cost,
        decreases heap@.len() - j,
    {
        if heap[j].cost < heap[best].cost {
            best = j;
        }
        j += 1;
    }
    let ghost pre = heap@;
    let ghost bi = best as int;
    let r = heap.swap_remove(best);
    proof {
        assert(r == pre[bi] && heap@ == pre.update(bi, pre.last()).drop_last());
        assert forall|j2: int| #![trigger heap@[j2]] 0 <= j2 < heap@.len() implies exists|i: int|
            0 <= i < pre.len() && heap@[j2] == pre[i] by {
            if j2 == bi {
                assert(heap@[j2] == pre[pre.len() - 1]);
            } else {
                assert(heap@[j2] == pre[j2]);
            }
        };
        assert forall|j2: int| 0 <= j2 < heap@.len() implies (#[trigger] heap@[j2]).cost
            >= r.cost by {
            if j2 == bi {
                assert(heap@[j2] == pre[pre.len() - 1]);
            } else {
                assert(heap@[j2] == pre[j2]);
            }
        };
    }
    r
}

/// A value other than the popped slot survives the pop.
proof fn lemma_pop_survivor(pre: Seq<SearchState>, post: Seq<SearchState>, i: int, w: int)
    requires
        0 <= i < pre.len(),
        post == pre.update(i, pre.last()).drop_last(),
        0 <= w < pre.len(),
        w != i,
    ensures
        exists|t: int| #![trigger post[t]] 0 <= t < post.len() && post[t] == pre[w],
{
    if w == pre.len() - 1 {
        assert(post[i] == pre[w]);
    } else {
        assert(post[w] == pre[w]);
    }
}

proof fn lemma_pop_keeps_dest(
    pre: Seq<SearchState>,
    post: Seq<SearchState>,
    i: int,
    s: SearchState,
    destination: usize,
)
    requires
        0 <= i < pre.len(),
        pre[i] == s,
        post == pre.update(i, pre.last()).drop_last(),
        dest_state_in(pre, destination),
        !(s.node == destination && s.path@.len() >= 1),
    ensures
        dest_state_in(post, destination),
{
    let w = choose|w: int|
        #![trigger pre[w]]
        0 <= w < pre.len() && pre[w].node == destination && pre[w].path@.len() >= 1;
    lemma_pop_survivor(pre, post, i, w);
    let t = choose|t: int| #![trigger post[t]] 0 <= t < post.len() && post[t] == pre[w];
    assert(post[t].node == destination && post[t].path@.len() >= 1);
}

proof fn lemma_pop_keeps_seed(
    pre: Seq<SearchState>,
    post: Seq<SearchState>,
    i: int,
    s: SearchState,
)
    requires
        0 <= i < pre.len(),
        pre[i] == s,
        post == pre.update(i, pre.last()).drop_last(),
        seed_state_in(pre),
        !(s.cost == 0 && s.path@.len() == 0),
    ensures
        seed_state_in(post),
{
    let w = choose|w: int|
        #![trigger pre[w]]
        0 <= w < pre.len() && pre[w].cost == 0 && pre[w].path@.len() == 0;
    lemma_pop_survivor(pre, post, i, w);
    let t = choose|t: int| #![trigger post[t]] 0 <= t < post.len() && post[t] == pre[w];
    assert(post[t].cost == 0 && post[t].path@.len() == 0);
}

proof fn lemma_push_keeps_dest(pre: Seq<SearchState>, x: SearchState, destination: usize)
    requires
        dest_state_in(pre, destination),
    ensures
        dest_state_in(pre.push(x), destination),
{
    let w = choose|w: int|
        #![trigger pre[w]]
        0 <= w < pre.len() && pre[w].node == destination && pre[w].path@.len() >= 1;
    assert(pre.push(x)[w] == pre[w]);
}

fn copy_path(p: &Vec<(usize, usize)>) -> (r: Vec<(usize, usize)>)
    ensures
        r@ == p@,
{
    let mut r: Vec<(usize, usize)> = Vec::new();
    let mut i: usize = 0;
    while i < p.len()
        invariant
            0 <= i <= p@.len(),
            r@ == p@.take(i as int),
        decreases p@.len() - i,
    {
        r.push(p[i]);
        proof {
            assert(p@.take(i + 1) =~= p@.take(i as int).push(p@[i as int]));
        }
        i += 1;
    }
    proof {
        assert(p@.take(p@.len() as int) =~= p@);
    }
    r
}

fn check_mode_allowed(allowed: &Vec<TransportMode>, m: TransportMode) -> (r: bool)
    ensures
        r == (allowed@.len() == 0 || allowed@.contains(m)),
{
    if allowed.len() == 0 {
        return true;
    }
    let mut i: usize = 0;
    while i < allowed.len()
        invariant
            0 <= i <= allowed@.len(),
            forall|t: int| 0 <= t < i ==> allowed@[t] != m,
        decreases allowed@.len() - i,
    {
        if allowed[i] == m {
            return true;
        }
        i += 1;
    }
    false
}

fn check_carrier_excluded(excluded: &Vec<String>, carrier: &str) -> (r: bool)
    ensures
        r == contains_str(excluded@, carrier@),
{
    let mut i: usize = 0;
    while i < excluded.len()
        invariant
            0 <= i <= excluded@.len(),
            forall|t: int| 0 <= t < i ==> excluded@[t]@ != carrier@,
        decreases excluded@.len() - i,
    {
        if crate::text::str_eq(excluded[i].as_str(), carrier) {
            return true;
        }
        i += 1;
    }
    false
}

/// Enumerates up to `k` walks from `origin` to `destination` that pass
/// the request's pruning predicates and the delivery-time gate, in
/// nondecreasing order of accumulated cost, expanding states cheapest
/// first and visiting each node at most `k` times. Under the progress
/// hypotheses — a feasible direct hop and no free hops out of the
/// origin — at least one path is emitted.
#[verifier::rlimit(100)]
pub(crate) fn find_k_shortest_paths(
    graph: &TransportGraph,
    origin: usize,
    destination: usize,
    req: &OptimizeRequest,
    k: usize,
) -> (r: Vec<Vec<(usize, usize)>>)
    requires
        origin < graph.nodes_seq().len(),
        destination < graph.nodes_seq().len(),
    ensures
        r@.len() <= k,
        forall|p: int|
            0 <= p < r@.len() ==> (#[trigger] r@[p])@.len() > 0 && r@[p]@.len()
                <= req.max_segments && path_ok(
                r@[p]@,
                graph.edges_seq(),
                graph.nodes_seq().len() as int,
                *req,
                origin,
                destination,
            ) && walk_gate_ok(r@[p]@, graph.edges_seq(), req.pickup_after, req.deliver_by),
        forall|p1: int, p2: int|
            #![trigger r@[p1], r@[p2]]
            0 <= p1 < p2 < r@.len() ==> walk_cost(r@[p1]@, graph.edges_seq(), req.weight_kg)
                <= walk_cost(r@[p2]@, graph.edges_seq(), req.weight_kg),
        progress_hyp(
            graph.edges_seq(),
            graph.nodes_seq().len() as int,
            *req,
            origin,
            destination,
            k,
        ) ==> r@.len() >= 1,
{
    let g = graph.inner();
    let n = pg_node_count(g);
    let ghost edges = graph.edges_seq();
    let ghost nlen = graph.nodes_seq().len() as int;
    let ghost hyp = progress_hyp(edges, nlen, *req, origin, destination, k);

    let mut counts: Vec<usize> = Vec::new();
    let mut v: usize = 0;
    while v < n
        invariant
            0 <= v <= n,
            counts@.len() == v,
            forall|i: int| 0 <= i < v ==> (#[trigger] counts@[i]) == 0,
        decreases n - v,
    {
        counts.push(0);
        v += 1;
    }

    let mut paths: Vec<Vec<(usize, usize)>> = Vec::new();
    let mut heap: Vec<SearchState> = Vec::new();
    heap.push(
        SearchState {
            node: origin,
            path: Vec::new(),
            cost: 0,
            time_hours: 0,
            carbon_kg: 0,
            current_time: req.pickup_after,
        },
    );
    proof {
        assert(heap@[0].cost == 0 && heap@[0].path@.len() == 0);
        assert(seed_state_in(heap@));
    }

    while heap.len() > 0 && paths.len() < k
        invariant
            crate::digraph::graph_nodes(*g) == graph.nodes_seq(),
            crate::digraph::graph_edges(*g) == graph.edges_seq(),
            counts@.len() == n,
            n == nlen,
            edges == graph.edges_seq(),
            nlen == graph.nodes_seq().len(),
            origin < nlen,
            destination < nlen,
            hyp == progress_hyp(edges, nlen, *req, origin, destination, k),
            forall|i: int| 0 <= i < n ==> (#[trigger] counts@[i]) <= k,
            forall|i: int|
                0 <= i < heap@.len() ==> state_inv(#[trigger] heap@[i], edges, nlen, *req, origin),
            paths@.len() <= k,
            forall|p: int|
                0 <= p < paths@.len() ==> (#[trigger] paths@[p])@.len() > 0 && paths@[p]@.len()
                    <= req.max_segments && path_ok(
                    paths@[p]@,
                    edges,
                    nlen,
                    *req,
                    origin,
                    destination,
                ) && walk_gate_ok(paths@[p]@, edges, req.pickup_after, req.deliver_by),
            forall|p: int|
                0 <= p < paths@.len() ==> walk_cost((#[trigger] paths@[p])@, edges, req.weight_kg)
                    <= walk_cost(paths@[paths@.len() - 1]@, edges, req.weight_kg),
            forall|p1: int, p2: int|
                #![trigger paths@[p1], paths@[p2]]
                0 <= p1 < p2 < paths@.len() ==> walk_cost(paths@[p1]@, edges, req.weight_kg)
                    <= walk_cost(paths@[p2]@, edges, req.weight_kg),
            paths@.len() > 0 ==> forall|i: int|
                0 <= i < heap@.len() ==> (#[trigger] heap@[i]).cost as int >= walk_cost(
                    paths@[paths@.len() - 1]@,
                    edges,
                    req.weight_kg,
                ),
            origin != destination ==> counts@[destination as int] <= paths@.len(),
            hyp ==> (paths@.len() >= 1 || dest_state_in(heap@, destination) || (seed_state_in(
                heap@,
            ) && counts@[origin as int] == 0)),
        decreases visits_left(counts@, k as int), heap@.len(),
    {
        proof {
            lemma_visits_left_nonneg(counts@, k as int);
        }
        let ghost counts0 = counts@;
        let ghost heap_pre = heap@;
        let state = pop_min(&mut heap);
        let ghost pi = choose|i: int|
            0 <= i < heap_pre.len() && state == heap_pre[i] && heap@ == heap_pre.update(
                i,
                heap_pre.last(),
            ).drop_last();
        proof {
            assert(state_inv(state, edges, nlen, *req, origin));
            // Under the positivity hypothesis, a non-empty walk costs
            // at least one unit, so a zero-cost state is the seed.
            if hyp && state.path@.len() >= 1 {
                lemma_walk_cost_first(state.path@, edges, req.weight_kg);
                assert(state.cost >= 1);
            }
            // A queued seed pins the minimum at zero, so a popped
            // non-seed state contradicts a still-queued seed.
            if hyp && seed_state_in(heap@) && !(state.cost == 0 && state.path@.len() == 0) {
                let w = choose|w: int|
                    #![trigger heap@[w]]
                    0 <= w < heap@.len() && heap@[w].cost == 0 && heap@[w].path@.len() == 0;
                assert(heap@[w].cost >= state.cost);
                assert(false);
            }
        }
        let c = counts[state.node];
        if c >= k {
            proof {
                if hyp && paths@.len() == 0 {
                    if state.node == destination && state.path@.len() >= 1 {
                        assert(counts@[destination as int] >= k);
                        assert(paths@.len() >= k);
                    } else if dest_state_in(heap_pre, destination) {
                        lemma_pop_keeps_dest(heap_pre, heap@, pi, state, destination);
                    } else {
                        // The seed never fails the visit check: its
                        // node's budget is untouched.
                        if state.cost == 0 && state.path@.len() == 0 {
                            assert(state.node == origin);
                            assert(false);
                        }
                        lemma_pop_keeps_seed(heap_pre, heap@, pi, state);
                    }
                }
            }
            continue ;
        }
        counts.set(state.node, c + 1);
        proof {
            let f = |x: usize| k as int - x;
            assert(counts@.map_values(f) =~= counts0.map_values(f).update(
                state.node as int,
                k - (c + 1),
            ));
            lemma_sum_update(counts0.map_values(f), state.node as int, k - (c + 1));
            lemma_visits_left_nonneg(counts@, k as int);
        }
        let SearchState { node, path, cost, time_hours, carbon_kg, current_time } = state;
        if node == destination && path.len() > 0 {
            let ghost last_wc = if paths@.len() > 0 {
                walk_cost(paths@[paths@.len() - 1]@, edges, req.weight_kg)
            } else {
                0int
            };
            proof {
                if paths@.len() > 0 {
                    assert(heap_pre[pi].cost >= last_wc);
                }
            }
            paths.push(path);
            proof {
                assert(paths@[paths@.len() - 1]@ == state.path@);
            }
            continue ;
        }
        if path.len() >= req.max_segments {
            proof {
                if hyp && paths@.len() == 0 {
                    // The popped state has hops (the seed is shorter
                    // than any positive cap) and is not at the
                    // destination, so the pre-pop witness survives.
                    if dest_state_in(heap_pre, destination) {
                        lemma_pop_keeps_dest(heap_pre, heap@, pi, state, destination);
                    } else {
                        lemma_pop_keeps_seed(heap_pre, heap@, pi, state);
                    }
                }
            }
            continue ;
        }
        let out = pg_out_edges(g, node);
        let ghost hseed = hyp && state.cost == 0 && state.path@.len() == 0 && paths@.len() == 0
            && !dest_state_in(heap@, destination);
        proof {
            if hyp && paths@.len() == 0 && !dest_state_in(heap_pre, destination) && !(state.cost
                == 0 && state.path@.len() == 0) {
                lemma_pop_keeps_seed(heap_pre, heap@, pi, state);
                assert(false);
            }
            if hyp && paths@.len() == 0 && dest_state_in(heap_pre, destination) {
                lemma_pop_keeps_dest(heap_pre, heap@, pi, state, destination);
            }
            if hseed {
                // The feasible direct hop is among the seed's out-edges.
                let j = choose|j: int|
                    #![trigger edges[j]]
                    0 <= j < edges.len() && edges[j].0 == origin && edges[j].1 == destination && (
                    edges[j].1 as int) < nlen && edge_ok(edges[j].2, *req) && cost_of(
                        edges[j].2,
                        req.weight_kg,
                    ) <= u64::MAX && carbon_of(edges[j].2, req.weight_kg) <= u64::MAX
                        && req.pickup_after + edges[j].2.transit_hours <= req.deliver_by;
                assert(state.node == origin);
                assert(exists|t: int| 0 <= t < out@.len() && (#[trigger] out@[t]).1 == j);
            }
        }
        let mut oi: usize = 0;
        while oi < out.len()
            invariant
                crate::digraph::graph_nodes(*g) == graph.nodes_seq(),
                crate::digraph::graph_edges(*g) == graph.edges_seq(),
                0 <= oi <= out@.len(),
                counts@.len() == n,
                n == nlen,
                edges == graph.edges_seq(),
                nlen == graph.nodes_seq().len(),
                origin < nlen,
                node < nlen,
                path@.len() < req.max_segments,
                path_ok(path@, edges, nlen, *req, origin, node),
                cost == walk_cost(path@, edges, req.weight_kg),
                carbon_kg == walk_carbon(path@, edges, req.weight_kg),
                time_hours == walk_time(path@, edges, path@.len() - 1),
                current_time == walk_clock(path@, edges, req.pickup_after, path@.len() - 1),
                walk_gate_ok(path@, edges, req.pickup_after, req.deliver_by),
                forall|t: int| #![trigger out@[t]]
                    0 <= t < out@.len() ==> out@[t].1 < edges.len() && edges[out@[t].1 as int].0
                        == node && edges[out@[t].1 as int].1 == out@[t].0,
                forall|i: int|
                    0 <= i < heap@.len() ==> state_inv(#[trigger] heap@[i], edges, nlen, *req, origin),
                paths@.len() > 0 ==> cost as int >= walk_cost(
                    paths@[paths@.len() - 1]@,
                    edges,
                    req.weight_kg,
                ),
                paths@.len() > 0 ==> forall|i: int|
                    0 <= i < heap@.len() ==> (#[trigger] heap@[i]).cost as int >= walk_cost(
                        paths@[paths@.len() - 1]@,
                        edges,
                        req.weight_kg,
                    ),
                hseed ==> node == origin && cost == 0 && carbon_kg == 0 && time_hours == 0
                    && current_time == req.pickup_after && path@.len() == 0,
                hyp && paths@.len() == 0 && !hseed ==> dest_state_in(heap@, destination),
                hseed ==> (dest_state_in(heap@, destination) || exists|t: int|
                    #![trigger out@[t]]
                    oi <= t < out@.len() && {
                        let j = out@[t].1 as int;
                        edges[j].0 == origin && edges[j].1 == destination && (edges[j].1 as int)
                            < nlen && edge_ok(edges[j].2, *req) && cost_of(edges[j].2, req.weight_kg)
                            <= u64::MAX && carbon_of(edges[j].2, req.weight_kg) <= u64::MAX
                            && req.pickup_after + edges[j].2.transit_hours <= req.deliver_by
                    }),
            decreases out@.len() - oi,
        {
            let (target, eid) = (out[oi].0, out[oi].1);
            proof {
                assert(out@[oi as int].1 < edges.len() && edges[out@[oi as int].1 as int].0 == node
                    && edges[out@[oi as int].1 as int].1 == out@[oi as int].0);
            }
            let edge = pg_edge_weight(g, eid);
            let ghost pushed_pre = heap@;
            if target < n && edge.active && check_mode_allowed(&req.allowed_modes, edge.mode)
                && !check_carrier_excluded(&req.excluded_carriers, edge.carrier_code.as_str())
                && !edge.carrier_sanctioned {
                let first_hop = path.len() == 0;
                let prev_mode = if path.len() > 0 {
                    let last = path[path.len() - 1];
                    proof {
                        assert(path@[path@.len() - 1].1 < edges.len());
                    }
                    pg_edge_weight(g, last.1).mode
                } else {
                    edge.mode
                };
                // Any overflow makes the child unrepresentable; it is
                // discarded like a late arrival.
                let step = search_step(
                    edge,
                    first_hop,
                    prev_mode,
                    cost,
                    time_hours,
                    carbon_kg,
                    current_time,
                    req.weight_kg,
                );
                if let Some((new_cost, total_time, new_carbon, arrival)) = step {
                    if arrival <= req.deliver_by {
                        let mut new_path = copy_path(&path);
                        new_path.push((target, eid));
                        let child = SearchState {
                            node: target,
                            path: new_path,
                            cost: new_cost,
                            time_hours: total_time,
                            carbon_kg: new_carbon,
                            current_time: arrival,
                        };
                        proof {
                            let np = child.path@;
                            let ll = np.len() - 1;
                            assert forall|t: int| 0 <= t < np.len() implies {
                                let ceid = (#[trigger] np[t]).1;
                                ceid < edges.len() && edges[ceid as int].0 == (if t == 0 {
                                    origin
                                } else {
                                    np[t - 1].0
                                }) && edges[ceid as int].1 == np[t].0 && np[t].0 < nlen && edge_ok(
                                    edges[ceid as int].2,
                                    *req,
                                )
                            } by {
                                if t < np.len() - 1 {
                                    assert(np[t] == path@[t]);
                                }
                            };
                            assert(np.drop_last() =~= path@);
                            lemma_walk_prefix(np, path@, edges, req.pickup_after, ll - 1);
                            assert(walk_time(np, edges, ll) == time_hours + edge.transit_hours + (
                            if first_hop {
                                0int
                            } else {
                                transfer_hours_spec(
                                    edges[np[ll - 1].1 as int].2.mode,
                                    edges[np[ll].1 as int].2.mode,
                                ) as int
                            }));
                            assert(child.current_time == walk_clock(
                                np,
                                edges,
                                req.pickup_after,
                                ll,
                            ));
                            assert forall|t: int|
                                0 <= t < np.len() implies walk_clock(
                                np,
                                edges,
                                req.pickup_after,
                                t,
                            ) <= req.deliver_by by {
                                if t < ll {
                                    lemma_walk_prefix(np, path@, edges, req.pickup_after, t);
                                }
                            };
                            assert(state_inv(child, edges, nlen, *req, origin));
                            if paths@.len() > 0 {
                                lemma_cost_of_nonneg(edges[eid as int].2, req.weight_kg);
                            }
                        }
                        heap.push(child);
                        proof {
                            if hyp && paths@.len() == 0 && !hseed {
                                lemma_push_keeps_dest(pushed_pre, child, destination);
                            }
                            if hseed && dest_state_in(pushed_pre, destination) {
                                lemma_push_keeps_dest(pushed_pre, child, destination);
                            }
                            if hseed && child.node == destination {
                                assert(heap@[heap@.len() - 1] == child);
                                assert(dest_state_in(heap@, destination));
                            }
                        }
                    }
                }
            }
            proof {
                // When the pending direct hop is this very out-entry,
                // its child was pushed: every filter and range check
                // passes for a feasible direct hop from the seed.
                if hseed && !dest_state_in(heap@, destination) {
                    let t0 = choose|t: int|
                        #![trigger out@[t]]
                        oi <= t < out@.len() && {
                            let j = out@[t].1 as int;
                            edges[j].0 == origin && edges[j].1 == destination && (edges[j].1 as int)
                                < nlen && edge_ok(edges[j].2, *req) && cost_of(
                                edges[j].2,
                                req.weight_kg,
                            ) <= u64::MAX && carbon_of(edges[j].2, req.weight_kg) <= u64::MAX
                                && req.pickup_after + edges[j].2.transit_hours <= req.deliver_by
                        };
                    assert(t0 != oi);
                }
            }
            oi += 1;
        }
        proof {
            if hseed {
                assert(dest_state_in(heap@, destination));
            }
        }
    }
    paths
}

/// One expansion step's arithmetic: the child's cost, accumulated
/// travel time with the mode-transfer dwell, carbon, and arrival time.
/// `None` exactly when one of the exact values does not fit the
/// numeric range.
fn search_step(
    edge: &TransportEdge,
    first_hop: bool,
    prev_mode: TransportMode,
    cost: u64,
    time_hours: u64,
    carbon_kg: u64,
    current_time: u64,
    weight_kg: u64,
) -> (r: Option<(u64, u64, u64, u64)>)
    ensures
        ({
            let transfer: int = if first_hop {
                0
            } else {
                transfer_hours_spec(prev_mode, edge.mode) as int
            };
            let nc = cost + cost_of(*edge, weight_kg);
            let nt = time_hours + edge.transit_hours + transfer;
            let nb = carbon_kg + carbon_of(*edge, weight_kg);
            let arr = current_time + nt;
            &&& (r matches Some((new_cost, total_time, new_carbon, arrival)) ==> new_cost == nc
                && total_time == nt && new_carbon == nb && arrival == arr)
            &&& (r is Some <==> nc <= u64::MAX && nb <= u64::MAX && arr <= u64::MAX)
        }),
{
    proof {
        vstd::arithmetic::mul::lemma_mul_nonnegative(
            edge.cost_per_kg as int,
            weight_kg as int,
        );
        vstd::arithmetic::mul::lemma_mul_nonnegative(
            edge.distance_km as int * weight_kg as int,
            edge.carbon_per_tonne_km as int,
        );
        vstd::arithmetic::mul::lemma_mul_nonnegative(edge.distance_km as int, weight_kg as int);
    }
    let edge_cost = edge.calculate_cost(weight_kg)?;
    let new_cost = cost.checked_add(edge_cost)?;
    let new_time = time_hours.checked_add(edge.transit_hours)?;
    let edge_carbon = edge.calculate_carbon(weight_kg)?;
    let new_carbon = carbon_kg.checked_add(edge_carbon)?;
    let transfer: u64 = if first_hop {
        0
    } else {
        prev_mode.mode_transfer_hours(&edge.mode)
    };
    let total_time = new_time.checked_add(transfer)?;
    let arrival = current_time.checked_add(total_time)?;
    Some((new_cost, total_time, new_carbon, arrival))
}

} // verus!
