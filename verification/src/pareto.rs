//! Pareto ranking of candidate routes by non-dominated sorting.
//!
//! Route A dominates route B when A is no worse on all four objectives
//! (cost, time and carbon lower is better; labor higher is better) and
//! strictly better on at least one. Rank 1 is the non-dominated
//! frontier; each later rank is the frontier of what remains. Dominance
//! is a strict partial order, so a non-empty remainder always has a
//! non-dominated route and the peeling terminates of itself.

use vstd::prelude::*;

use crate::routes::CandidateRoute;

verus! {

use vstd::pervasive::VecAdditionalExecFns;

/// Route `a` dominates route `b`: no worse on every objective and
/// strictly better on at least one.
pub open spec fn dominates_spec(a: CandidateRoute, b: CandidateRoute) -> bool {
    a.total_cost_usd <= b.total_cost_usd && a.total_time_hours <= b.total_time_hours
        && a.total_carbon_kg <= b.total_carbon_kg && a.labor_score >= b.labor_score && (
    a.total_cost_usd < b.total_cost_usd || a.total_time_hours < b.total_time_hours
        || a.total_carbon_kg < b.total_carbon_kg || a.labor_score > b.labor_score)
}

/// Dominance is transitive.
pub proof fn lemma_dominates_trans(a: CandidateRoute, b: CandidateRoute, c: CandidateRoute)
    requires
        dominates_spec(a, b),
        dominates_spec(b, c),
    ensures
        dominates_spec(a, c),
{
}

/// Whether route `a` dominates route `b`.
pub(crate) fn dominates_x(a: &CandidateRoute, b: &CandidateRoute) -> (r: bool)
    ensures
        r == dominates_spec(*a, *b),
{
    let no_worse = a.total_cost_usd <= b.total_cost_usd && a.total_time_hours
        <= b.total_time_hours && a.total_carbon_kg <= b.total_carbon_kg && a.labor_score
        >= b.labor_score;
    let strictly = a.total_cost_usd < b.total_cost_usd || a.total_time_hours < b.total_time_hours
        || a.total_carbon_kg < b.total_carbon_kg || a.labor_score > b.labor_score;
    no_worse && strictly
}

/// Number of entries of `rank` that are still unassigned (zero).
pub open spec fn zcount(rank: Seq<u32>) -> int
    decreases rank.len(),
{
    if rank.len() == 0 {
        0
    } else {
        zcount(rank.drop_last()) + if rank.last() == 0 {
            1int
        } else {
            0int
        }
    }
}

proof fn lemma_zcount_nonneg(rank: Seq<u32>)
    ensures
        zcount(rank) >= 0,
    decreases rank.len(),
{
    if rank.len() > 0 {
        lemma_zcount_nonneg(rank.drop_last());
    }
}

proof fn lemma_zcount_pos(rank: Seq<u32>)
    requires
        zcount(rank) > 0,
    ensures
        exists|i: int| 0 <= i < rank.len() && rank[i] == 0,
    decreases rank.len(),
{
    if rank.len() > 0 {
        if rank.last() == 0 {
            assert(rank[rank.len() - 1] == 0);
        } else {
            lemma_zcount_pos(rank.drop_last());
            let i = choose|i: int| 0 <= i < rank.drop_last().len() && rank.drop_last()[i] == 0;
            assert(rank[i] == 0);
        }
    }
}

proof fn lemma_zcount_zero(rank: Seq<u32>)
    requires
        zcount(rank) == 0,
    ensures
        forall|i: int| 0 <= i < rank.len() ==> rank[i] != 0,
    decreases rank.len(),
{
    if rank.len() > 0 {
        lemma_zcount_nonneg(rank.drop_last());
        lemma_zcount_zero(rank.drop_last());
        assert forall|i: int| 0 <= i < rank.len() implies rank[i] != 0 by {
            if i < rank.len() - 1 {
                assert(rank.drop_last()[i] == rank[i]);
            }
        };
    }
}

proof fn lemma_zcount_update(rank: Seq<u32>, i: int, v: u32)
    requires
        0 <= i < rank.len(),
        rank[i] == 0,
        v != 0,
    ensures
        zcount(rank.update(i, v)) == zcount(rank) - 1,
    decreases rank.len(),
{
    if i == rank.len() - 1 {
        assert(rank.update(i, v).drop_last() =~= rank.drop_last());
    } else {
        assert(rank.update(i, v).drop_last() =~= rank.drop_last().update(i, v));
        lemma_zcount_update(rank.drop_last(), i, v);
    }
}

/// `i` has an unassigned dominator among the first `m` routes.
spec fn has_dominator(routes: Seq<CandidateRoute>, rank: Seq<u32>, i: int, m: int) -> bool {
    exists|t: int| 0 <= t < m && rank[t] == 0 && dominates_spec(routes[t], routes[i])
}

/// Number of unassigned dominators of route `i` among the first `m`.
spec fn dcount(routes: Seq<CandidateRoute>, rank: Seq<u32>, i: int, m: int) -> int
    decreases m,
{
    if m <= 0 {
        0
    } else {
        dcount(routes, rank, i, m - 1) + if rank[m - 1] == 0 && dominates_spec(
            routes[m - 1],
            routes[i],
        ) {
            1int
        } else {
            0int
        }
    }
}

proof fn lemma_dcount_nonneg(routes: Seq<CandidateRoute>, rank: Seq<u32>, i: int, m: int)
    ensures
        dcount(routes, rank, i, m) >= 0,
    decreases m,
{
    if m > 0 {
        lemma_dcount_nonneg(routes, rank, i, m - 1);
    }
}

proof fn lemma_dcount_zero(routes: Seq<CandidateRoute>, rank: Seq<u32>, i: int, m: int)
    requires
        dcount(routes, rank, i, m) == 0,
    ensures
        !has_dominator(routes, rank, i, m),
    decreases m,
{
    if m > 0 {
        lemma_dcount_nonneg(routes, rank, i, m - 1);
        lemma_dcount_zero(routes, rank, i, m - 1);
    }
}

proof fn lemma_dcount_pos(routes: Seq<CandidateRoute>, rank: Seq<u32>, i: int, m: int)
    requires
        dcount(routes, rank, i, m) > 0,
    ensures
        has_dominator(routes, rank, i, m),
    decreases m,
{
    if m > 0 {
        if rank[m - 1] == 0 && dominates_spec(routes[m - 1], routes[i]) {
        } else {
            lemma_dcount_pos(routes, rank, i, m - 1);
        }
    }
}

/// Comparing dominator counts: when every unassigned dominator of `i`
/// also dominates `j`, and `t0` is one that dominates `j` but not `i`,
/// route `i` has strictly fewer unassigned dominators.
proof fn lemma_dcount_compare(
    routes: Seq<CandidateRoute>,
    rank: Seq<u32>,
    i: int,
    j: int,
    m: int,
    t0: int,
)
    requires
        forall|t: int|
            0 <= t < m && rank[t] == 0 && dominates_spec(#[trigger] routes[t], routes[i])
                ==> dominates_spec(routes[t], routes[j]),
        0 <= t0,
        rank[t0] == 0,
        dominates_spec(routes[t0], routes[j]),
        !dominates_spec(routes[t0], routes[i]),
    ensures
        dcount(routes, rank, i, m) <= dcount(routes, rank, j, m),
        m > t0 ==> dcount(routes, rank, i, m) < dcount(routes, rank, j, m),
    decreases m,
{
    if m > 0 {
        lemma_dcount_compare(routes, rank, i, j, m - 1, t0);
    }
}

/// A non-empty unassigned remainder holds a route with no unassigned
/// dominator: dominance is irreflexive and transitive, so walking to a
/// dominator strictly shrinks the dominator count.
proof fn lemma_frontier_nonempty(routes: Seq<CandidateRoute>, rank: Seq<u32>, i0: int)
    requires
        rank.len() == routes.len(),
        0 <= i0 < routes.len(),
        rank[i0] == 0,
    ensures
        exists|f: int|
            0 <= f < routes.len() && rank[f] == 0 && !has_dominator(
                routes,
                rank,
                f,
                routes.len() as int,
            ),
    decreases dcount(routes, rank, i0, routes.len() as int),
{
    let n = routes.len() as int;
    lemma_dcount_nonneg(routes, rank, i0, n);
    if dcount(routes, rank, i0, n) == 0 {
        lemma_dcount_zero(routes, rank, i0, n);
    } else {
        lemma_dcount_pos(routes, rank, i0, n);
        let t0 = choose|t: int| 0 <= t < n && rank[t] == 0 && dominates_spec(routes[t], routes[i0]);
        assert forall|t: int|
            0 <= t < n && rank[t] == 0 && dominates_spec(#[trigger] routes[t], routes[t0])
                implies dominates_spec(routes[t], routes[i0]) by {
            lemma_dominates_trans(routes[t], routes[t0], routes[i0]);
        };
        lemma_dcount_compare(routes, rank, t0, i0, n, t0);
        lemma_dcount_nonneg(routes, rank, t0, n);
        lemma_frontier_nonempty(routes, rank, t0);
    }
}

proof fn lemma_strict_inc_lower(f: Seq<usize>, q: int)
    requires
        forall|q1: int, q2: int| 0 <= q1 < q2 < f.len() ==> f[q1] < f[q2],
        0 <= q < f.len(),
    ensures
        f[q] >= q,
    decreases q,
{
    if q > 0 {
        lemma_strict_inc_lower(f, q - 1);
    }
}

proof fn lemma_zcount_at_least_one(rank: Seq<u32>, i: int)
    requires
        0 <= i < rank.len(),
        rank[i] == 0,
    ensures
        zcount(rank) >= 1,
    decreases rank.len(),
{
    lemma_zcount_nonneg(rank.drop_last());
    if i < rank.len() - 1 {
        lemma_zcount_at_least_one(rank.drop_last(), i);
    }
}

/// Route `i` is dominated by no route of the set.
pub open spec fn non_dominated(routes: Seq<CandidateRoute>, i: int) -> bool {
    forall|j: int| 0 <= j < routes.len() ==> !dominates_spec(#[trigger] routes[j], routes[i])
}

/// Whether index `i` stands among the first `p` entries of `frontier`.
spec fn in_prefix(frontier: Seq<usize>, p: int, i: int) -> bool {
    exists|q: int| 0 <= q < p && frontier[q] == i
}

/// Assigns Pareto ranks by peeling non-dominated frontiers: every route
/// gets a rank of at least one, and a dominating route always gets a
/// strictly smaller rank than the route it dominates.
fn compute_ranks(routes: &Vec<CandidateRoute>) -> (rank: Vec<u32>)
    requires
        routes@.len() < 0xffff_ffff,
    ensures
        rank@.len() == routes@.len(),
        forall|i: int| 0 <= i < rank@.len() ==> 1 <= (#[trigger] rank@[i]),
        forall|i: int, j: int|
            0 <= i < routes@.len() && 0 <= j < routes@.len() && dominates_spec(
                routes@[i],
                routes@[j],
            ) ==> rank@[i] < rank@[j],
        forall|i: int|
            0 <= i < routes@.len() && non_dominated(routes@, i) ==> (#[trigger] rank@[i]) == 1,
{
    let n = routes.len();
    let mut rank: Vec<u32> = Vec::new();
    let mut v: usize = 0;
    while v < n
        invariant
            0 <= v <= n,
            rank@.len() == v,
            forall|i: int| 0 <= i < v ==> (#[trigger] rank@[i]) == 0,
        decreases n - v,
    {
        rank.push(0);
        v += 1;
    }
    proof {
        lemma_zcount_all_zero(rank@);
    }
    let mut remaining: usize = n;
    let mut current_rank: u32 = 1;
    while remaining > 0
        invariant
            n == routes@.len(),
            n < 0xffff_ffff,
            rank@.len() == n,
            remaining == zcount(rank@),
            1 <= current_rank,
            current_rank as int <= n - zcount(rank@) + 1,
            forall|i: int| 0 <= i < n ==> (#[trigger] rank@[i]) < current_rank,
            forall|i: int, j: int|
                0 <= i < n && 0 <= j < n && dominates_spec(routes@[i], routes@[j]) && rank@[j] != 0
                    ==> rank@[i] != 0 && rank@[i] < rank@[j],
            forall|i: int|
                0 <= i < n && non_dominated(routes@, i) ==> (#[trigger] rank@[i]) == 1 || (rank@[i]
                    == 0 && current_rank == 1),
        decreases remaining,
    {
        let ghost rank0 = rank@;
        // The current frontier: unassigned routes with no unassigned
        // dominator.
        let mut frontier: Vec<usize> = Vec::new();
        let mut i: usize = 0;
        while i < n
            invariant
                n == routes@.len(),
                rank@.len() == n,
                rank@ == rank0,
                0 <= i <= n,
                forall|q: int| 0 <= q < frontier@.len() ==> (#[trigger] frontier@[q]) < i,
                forall|q1: int, q2: int|
                    0 <= q1 < q2 < frontier@.len() ==> frontier@[q1] < frontier@[q2],
                forall|q: int|
                    0 <= q < frontier@.len() ==> rank@[(#[trigger] frontier@[q]) as int] == 0
                        && !has_dominator(routes@, rank@, frontier@[q] as int, n as int),
                frontier@.len() == 0 ==> forall|t: int|
                    0 <= t < i && rank@[t] == 0 ==> has_dominator(routes@, rank@, t, n as int),
                forall|t: int|
                    0 <= t < i && rank@[t] == 0 && non_dominated(routes@, t) ==> in_prefix(
                        frontier@,
                        frontier@.len() as int,
                        t,
                    ),
            decreases n - i,
        {
            let ghost frontier0 = frontier@;
            if rank[i] == 0 {
                let mut dominated = false;
                let mut j: usize = 0;
                while j < n
                    invariant
                        n == routes@.len(),
                        rank@.len() == n,
                        rank@ == rank0,
                        0 <= i < n,
                        0 <= j <= n,
                        dominated == has_dominator(routes@, rank@, i as int, j as int),
                    decreases n - j,
                {
                    if rank[j] == 0 && dominates_x(&routes[j], &routes[i]) {
                        dominated = true;
                    }
                    proof {
                        if !dominated {
                            assert(!has_dominator(routes@, rank@, i as int, j + 1)) by {
                                if has_dominator(routes@, rank@, i as int, j + 1) {
                                    let t = choose|t: int|
                                        0 <= t < j + 1 && rank@[t] == 0 && dominates_spec(
                                            routes@[t],
                                            routes@[i as int],
                                        );
                                    assert(t == j || 0 <= t < j);
                                }
                            };
                        }
                    }
                    j += 1;
                }
                if !dominated {
                    frontier.push(i);
                }
            }
            proof {
                assert forall|t: int|
                    0 <= t < i + 1 && rank@[t] == 0 && non_dominated(routes@, t) implies in_prefix(
                    frontier@,
                    frontier@.len() as int,
                    t,
                ) by {
                    if t == i {
                        assert(!has_dominator(routes@, rank@, t, n as int));
                        assert(frontier@[frontier@.len() - 1] == t as usize);
                    } else {
                        let q = choose|q: int|
                            0 <= q < frontier0.len() && frontier0[q] == t as usize;
                        assert(frontier@[q] == t as usize);
                    }
                };
            }
            i += 1;
        }
        if frontier.len() == 0 {
            // A finite non-empty remainder under a strict partial order
            // always has a non-dominated element, so this cannot arise.
            proof {
                lemma_zcount_pos(rank@);
                let i0 = choose|t: int| 0 <= t < rank@.len() && rank@[t] == 0;
                lemma_frontier_nonempty(routes@, rank@, i0);
                assert(false);
            }
            return rank;
        }
        proof {
            if frontier@.len() > n {
                lemma_strict_inc_lower(frontier@, n as int);
            }
        }
        // Assign the current rank to the whole frontier.
        let ghost remaining0 = remaining;
        let mut p: usize = 0;
        while p < frontier.len()
            invariant
                n == routes@.len(),
                rank@.len() == n,
                0 <= p <= frontier@.len(),
                frontier@.len() <= n,
                remaining == zcount(rank@),
                remaining0 == zcount(rank0),
                remaining as int == remaining0 - p,
                1 <= current_rank,
                forall|q: int| 0 <= q < frontier@.len() ==> (#[trigger] frontier@[q]) < n,
                forall|q1: int, q2: int|
                    0 <= q1 < q2 < frontier@.len() ==> frontier@[q1] < frontier@[q2],
                forall|q: int|
                    0 <= q < frontier@.len() ==> rank0[(#[trigger] frontier@[q]) as int] == 0
                        && !has_dominator(routes@, rank0, frontier@[q] as int, n as int),
                forall|t: int|
                    0 <= t < n ==> (#[trigger] rank@[t]) == (if in_prefix(frontier@, p as int, t) {
                        current_rank
                    } else {
                        rank0[t]
                    }),
            decreases frontier@.len() - p,
        {
            let f = frontier[p];
            proof {
                assert(!in_prefix(frontier@, p as int, f as int)) by {
                    if in_prefix(frontier@, p as int, f as int) {
                        let q = choose|q: int| 0 <= q < p && frontier@[q] == f as usize;
                        assert(frontier@[q] < frontier@[p as int]);
                    }
                };
                assert(rank@[f as int] == 0);
                lemma_zcount_at_least_one(rank@, f as int);
                lemma_zcount_update(rank@, f as int, current_rank);
            }
            rank.set(f, current_rank);
            remaining -= 1;
            proof {
                assert forall|t: int| 0 <= t < n implies (#[trigger] rank@[t]) == (if in_prefix(
                    frontier@,
                    p + 1,
                    t,
                ) {
                    current_rank
                } else {
                    rank0[t]
                }) by {
                    if in_prefix(frontier@, p + 1, t) && t != f as int {
                        let q = choose|q: int| 0 <= q < p + 1 && frontier@[q] == t as usize;
                        assert(q < p);
                        assert(in_prefix(frontier@, p as int, t));
                    }
                };
            }
            p += 1;
        }
        // Re-establish the round invariants for the next rank.
        proof {
            assert forall|i2: int, j2: int|
                0 <= i2 < n && 0 <= j2 < n && dominates_spec(routes@[i2], routes@[j2])
                    && rank@[j2] != 0 implies rank@[i2] != 0 && rank@[i2] < rank@[j2] by {
                if in_prefix(frontier@, frontier@.len() as int, j2) {
                    // j2 was assigned this round; its dominators were
                    // all assigned in earlier rounds.
                    let q = choose|q: int|
                        0 <= q < frontier@.len() && frontier@[q] == j2 as usize;
                    assert(!has_dominator(routes@, rank0, j2, n as int));
                    assert(rank0[i2] != 0) by {
                        if rank0[i2] == 0 {
                            assert(has_dominator(routes@, rank0, j2, n as int));
                        }
                    };
                    assert(!in_prefix(frontier@, frontier@.len() as int, i2)) by {
                        if in_prefix(frontier@, frontier@.len() as int, i2) {
                            let q2 = choose|q2: int|
                                0 <= q2 < frontier@.len() && frontier@[q2] == i2 as usize;
                            assert(rank0[frontier@[q2] as int] == 0);
                        }
                    };
                } else {
                    assert(rank@[j2] == rank0[j2]);
                    assert(rank0[i2] != 0 && rank0[i2] < rank0[j2]);
                    assert(!in_prefix(frontier@, frontier@.len() as int, i2)) by {
                        if in_prefix(frontier@, frontier@.len() as int, i2) {
                            let q2 = choose|q2: int|
                                0 <= q2 < frontier@.len() && frontier@[q2] == i2 as usize;
                            assert(rank0[frontier@[q2] as int] == 0);
                        }
                    };
                }
            };
            assert(current_rank as int <= n - zcount(rank0) + 1);
            lemma_zcount_nonneg(rank@);
            assert forall|i2: int|
                0 <= i2 < n && non_dominated(routes@, i2) implies (#[trigger] rank@[i2]) == 1 || (
            rank@[i2] == 0 && current_rank + 1 == 1) by {
                if current_rank == 1 {
                    // Round one: every route is unassigned, so a route
                    // with no dominator at all joined the frontier.
                    if rank0[i2] == 0 {
                        assert(in_prefix(frontier@, frontier@.len() as int, i2));
                    }
                } else {
                    assert(rank0[i2] == 1);
                    assert(!in_prefix(frontier@, frontier@.len() as int, i2)) by {
                        if in_prefix(frontier@, frontier@.len() as int, i2) {
                            let q2 = choose|q2: int|
                                0 <= q2 < frontier@.len() && frontier@[q2] == i2 as usize;
                            assert(rank0[frontier@[q2] as int] == 0);
                        }
                    };
                }
            };
        }
        current_rank += 1;
    }
    proof {
        lemma_zcount_zero(rank@);
    }
    rank
}

proof fn lemma_zcount_all_zero(rank: Seq<u32>)
    requires
        forall|i: int| 0 <= i < rank.len() ==> (#[trigger] rank[i]) == 0,
    ensures
        zcount(rank) == rank.len(),
    decreases rank.len(),
{
    if rank.len() > 0 {
        lemma_zcount_all_zero(rank.drop_last());
    }
}

/// Ranks the routes by non-dominated sorting: each route keeps its
/// payload, gets a rank of at least one, is marked Pareto-optimal
/// exactly when its rank is one, and every dominating route ranks
/// strictly above what it dominates.
pub(crate) fn assign_pareto_ranks(routes: Vec<CandidateRoute>) -> (r: Vec<CandidateRoute>)
    requires
        routes@.len() < 0xffff_ffff,
    ensures
        r@.len() == routes@.len(),
        forall|i: int|
            0 <= i < r@.len() ==> (#[trigger] r@[i]) == (CandidateRoute {
                pareto_rank: r@[i].pareto_rank,
                pareto_optimal: r@[i].pareto_optimal,
                ..routes@[i]
            }),
        forall|i: int|
            0 <= i < r@.len() ==> (#[trigger] r@[i]).pareto_rank >= 1 && (r@[i].pareto_optimal
                <==> r@[i].pareto_rank == 1),
        forall|i: int, j: int|
            0 <= i < r@.len() && 0 <= j < r@.len() && dominates_spec(r@[i], r@[j]) ==> (
            #[trigger] r@[i]).pareto_rank < (#[trigger] r@[j]).pareto_rank,
        forall|i: int|
            0 <= i < r@.len() && non_dominated(r@, i) ==> (#[trigger] r@[i]).pareto_rank == 1,
{
    let rank = compute_ranks(&routes);
    let n = routes.len();
    let mut rest = routes;
    let ghost routes0 = rest@;
    let mut out: Vec<CandidateRoute> = Vec::new();
    let mut i: usize = 0;
    while i < n
        invariant
            n == routes0.len(),
            rank@.len() == n,
            out@.len() == i,
            0 <= i <= n,
            rest@ =~= routes0.skip(i as int),
            forall|t: int| 0 <= t < rank@.len() ==> 1 <= (#[trigger] rank@[t]),
            forall|t: int|
                0 <= t < i ==> (#[trigger] out@[t]) == (CandidateRoute {
                    pareto_rank: rank@[t],
                    pareto_optimal: rank@[t] == 1,
                    ..routes0[t]
                }),
        decreases n - i,
    {
        proof {
            assert(rest@.len() == n - i);
            assert(rest@[0] == routes0[i as int]);
        }
        let mut route = rest.remove(0);
        route.pareto_rank = rank[i];
        route.pareto_optimal = rank[i] == 1;
        out.push(route);
        proof {
            assert(rest@ =~= routes0.skip(i + 1));
        }
        i += 1;
    }
    proof {
        assert forall|i2: int, j2: int|
            0 <= i2 < out@.len() && 0 <= j2 < out@.len() && dominates_spec(out@[i2], out@[j2])
                implies (#[trigger] out@[i2]).pareto_rank < (#[trigger] out@[j2]).pareto_rank by {
            assert(dominates_spec(routes0[i2], routes0[j2]));
        };
        assert forall|i2: int|
            0 <= i2 < out@.len() && non_dominated(out@, i2) implies (
        #[trigger] out@[i2]).pareto_rank == 1 by {
            assert forall|j2: int| 0 <= j2 < routes0.len() implies !dominates_spec(
                #[trigger] routes0[j2],
                routes0[i2],
            ) by {
                assert(!dominates_spec(out@[j2], out@[i2]));
            };
            assert(non_dominated(routes0, i2));
        };
    }
    out
}

} // verus!
