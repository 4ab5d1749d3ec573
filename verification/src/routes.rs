//! Shipment requests, route segments and candidate routes.
//!
//! Monetary values are in ten-thousandths of a US dollar, carbon in
//! milligrams of CO2, scores and objective weights in ten-thousandths,
//! durations in whole hours and timestamps in hours since the Unix epoch.

use vstd::prelude::*;

use crate::constraints::ConstraintResult;
use crate::modes::transfer_hours_spec;
use crate::modes::TransportMode;

verus! {

/// A shipment to route and the preferences that govern the search.
///
/// An empty `allowed_modes` means every mode is allowed. Weights need not
/// sum to one; they are applied as given to normalized objectives.
pub struct OptimizeRequest {
    pub shipment_id: String,
    pub origin_code: String,
    pub destination_code: String,
    pub weight_kg: u64,
    pub volume_m3: u64,
    pub pickup_after: u64,
    pub deliver_by: u64,
    pub max_cost_usd: Option<u64>,
    pub max_carbon_kg: Option<u64>,
    pub min_labor_score: Option<u64>,
    pub allowed_modes: Vec<TransportMode>,
    pub excluded_carriers: Vec<String>,
    pub max_routes: usize,
    pub max_segments: usize,
    pub cost_weight: u64,
    pub time_weight: u64,
    pub carbon_weight: u64,
    pub labor_weight: u64,
}

impl Default for OptimizeRequest {
    /// A one-tonne shipment with a thirty-day window from the epoch, no
    /// thresholds, all modes allowed and the default objective weights.
    fn default() -> (r: Self)
        ensures
            r.shipment_id@.len() == 0,
            r.origin_code@.len() == 0,
            r.destination_code@.len() == 0,
            r.weight_kg == 1000,
            r.volume_m3 == 1,
            r.pickup_after == 0,
            r.deliver_by == 720,
            r.max_cost_usd is None,
            r.max_carbon_kg is None,
            r.min_labor_score is None,
            r.allowed_modes@.len() == 0,
            r.excluded_carriers@.len() == 0,
            r.max_routes == 10,
            r.max_segments == 8,
            r.cost_weight == 4000,
            r.time_weight == 3000,
            r.carbon_weight == 2000,
            r.labor_weight == 1000,
    {
        OptimizeRequest {
            shipment_id: String::new(),
            origin_code: String::new(),
            destination_code: String::new(),
            weight_kg: 1000,
            volume_m3: 1,
            pickup_after: 0,
            deliver_by: 720,
            max_cost_usd: None,
            max_carbon_kg: None,
            min_labor_score: None,
            allowed_modes: Vec::new(),
            excluded_carriers: Vec::new(),
            max_routes: 10,
            max_segments: 8,
            cost_weight: 4000,
            time_weight: 3000,
            carbon_weight: 2000,
            labor_weight: 1000,
        }
    }
}

/// Whether a carrier code is among the excluded ones.
pub open spec fn carrier_excluded(req: OptimizeRequest, carrier: Seq<char>) -> bool {
    exists|i: int| 0 <= i < req.excluded_carriers@.len() && req.excluded_carriers@[i]@ == carrier
}

/// Whether a mode passes the request's mode filter: an empty filter
/// allows every mode.
pub open spec fn mode_allowed(req: OptimizeRequest, m: TransportMode) -> bool {
    req.allowed_modes@.len() == 0 || req.allowed_modes@.contains(m)
}

/// The delivery window of a request in hours; zero when the window is
/// inverted.
pub open spec fn window_hours(req: OptimizeRequest) -> int {
    if req.deliver_by >= req.pickup_after {
        req.deliver_by - req.pickup_after
    } else {
        0
    }
}

/// One leg of a candidate route.
pub struct RouteSegment {
    pub segment_id: String,
    pub sequence: u32,
    pub from_node: String,
    pub to_node: String,
    pub mode: TransportMode,
    pub carrier_code: String,
    pub distance_km: u64,
    pub cost_usd: u64,
    pub transit_hours: u64,
    pub carbon_kg: u64,
    pub carrier_wage_cents: u32,
    pub labor_score: u64,
    pub departure_time: u64,
    pub arrival_time: u64,
}

/// Field-wise equality of two segments, with strings compared by view.
pub open spec fn seg_eq(a: RouteSegment, b: RouteSegment) -> bool {
    a.segment_id@ == b.segment_id@ && a.sequence == b.sequence && a.from_node@ == b.from_node@
        && a.to_node@ == b.to_node@ && a.mode == b.mode && a.carrier_code@ == b.carrier_code@
        && a.distance_km == b.distance_km && a.cost_usd == b.cost_usd && a.transit_hours
        == b.transit_hours && a.carbon_kg == b.carbon_kg && a.carrier_wage_cents
        == b.carrier_wage_cents && a.labor_score == b.labor_score && a.departure_time
        == b.departure_time && a.arrival_time == b.arrival_time
}

impl Clone for RouteSegment {
    fn clone(&self) -> (r: Self)
        ensures
            seg_eq(r, *self),
    {
        RouteSegment {
            segment_id: self.segment_id.clone(),
            sequence: self.sequence,
            from_node: self.from_node.clone(),
            to_node: self.to_node.clone(),
            mode: self.mode,
            carrier_code: self.carrier_code.clone(),
            distance_km: self.distance_km,
            cost_usd: self.cost_usd,
            transit_hours: self.transit_hours,
            carbon_kg: self.carbon_kg,
            carrier_wage_cents: self.carrier_wage_cents,
            labor_score: self.labor_score,
            departure_time: self.departure_time,
            arrival_time: self.arrival_time,
        }
    }
}

/// Sum of the segments' monetary costs.
pub open spec fn sum_cost(s: Seq<RouteSegment>) -> int
    decreases s.len(),
{
    if s.len() == 0 {
        0
    } else {
        sum_cost(s.drop_last()) + s.last().cost_usd
    }
}

/// Sum of the segments' transit hours, mode-transfer dwell excluded.
pub open spec fn sum_time(s: Seq<RouteSegment>) -> int
    decreases s.len(),
{
    if s.len() == 0 {
        0
    } else {
        sum_time(s.drop_last()) + s.last().transit_hours
    }
}

/// Sum of the segments' carbon emissions.
pub open spec fn sum_carbon(s: Seq<RouteSegment>) -> int
    decreases s.len(),
{
    if s.len() == 0 {
        0
    } else {
        sum_carbon(s.drop_last()) + s.last().carbon_kg
    }
}

/// Sum of the segments' distances.
pub open spec fn sum_distance(s: Seq<RouteSegment>) -> int
    decreases s.len(),
{
    if s.len() == 0 {
        0
    } else {
        sum_distance(s.drop_last()) + s.last().distance_km
    }
}

/// Sum of the segments' labor scores.
pub open spec fn sum_labor(s: Seq<RouteSegment>) -> int
    decreases s.len(),
{
    if s.len() == 0 {
        0
    } else {
        sum_labor(s.drop_last()) + s.last().labor_score
    }
}

/// The labor score of a whole route: the mean of its segments' scores,
/// zero for an empty route.
pub open spec fn labor_mean(s: Seq<RouteSegment>) -> int {
    if s.len() == 0 {
        0
    } else {
        sum_labor(s) / s.len() as int
    }
}

/// Each prefix sum is bounded by the whole sum.
pub proof fn lemma_route_sums_prefix(s: Seq<RouteSegment>, i: int)
    requires
        0 <= i <= s.len(),
    ensures
        sum_cost(s.take(i)) <= sum_cost(s),
        sum_time(s.take(i)) <= sum_time(s),
        sum_carbon(s.take(i)) <= sum_carbon(s),
        sum_distance(s.take(i)) <= sum_distance(s),
        sum_labor(s.take(i)) <= sum_labor(s),
    decreases s.len() - i,
{
    if i == s.len() {
        assert(s.take(i) =~= s);
    } else {
        assert(s.take(i + 1).drop_last() =~= s.take(i));
        lemma_route_sums_prefix(s, i + 1);
    }
}

/// A full candidate route with its totals, constraint outcomes, Pareto
/// standing and weighted score.
pub struct CandidateRoute {
    pub route_id: String,
    pub segments: Vec<RouteSegment>,
    pub total_cost_usd: u64,
    pub total_time_hours: u64,
    pub total_carbon_kg: u64,
    pub total_distance_km: u64,
    pub labor_score: u64,
    pub pareto_rank: u32,
    pub pareto_optimal: bool,
    pub weighted_score: u64,
    pub constraint_results: Vec<ConstraintResult>,
}

/// The route totals equal the sums over its segments and the labor score
/// is the mean of the segments' scores.
pub open spec fn totals_ok(r: CandidateRoute) -> bool {
    r.total_cost_usd == sum_cost(r.segments@) && r.total_time_hours == sum_time(r.segments@)
        && r.total_carbon_kg == sum_carbon(r.segments@) && r.total_distance_km == sum_distance(
        r.segments@,
    ) && r.labor_score == labor_mean(r.segments@)
}

/// The segments form a schedule: each leg arrives its transit time after
/// it departs, consecutive legs are chained node to node, the next leg
/// departs exactly the mode-transfer dwell after the previous arrival,
/// and sequence numbers count from zero.
pub open spec fn seg_chain_ok(segs: Seq<RouteSegment>) -> bool {
    (forall|i: int|
        0 <= i < segs.len() ==> (#[trigger] segs[i]).arrival_time == segs[i].departure_time
            + segs[i].transit_hours && segs[i].sequence == i) && (forall|i: int|
        0 < i < segs.len() ==> (#[trigger] segs[i]).departure_time == segs[i - 1].arrival_time
            + transfer_hours_spec(segs[i - 1].mode, segs[i].mode) && segs[i].from_node@ == segs[i
            - 1].to_node@)
}

impl CandidateRoute {
    /// An empty route with a fresh identifier and zeroed totals.
    pub fn new() -> (r: Self)
        ensures
            r.segments@.len() == 0,
            r.total_cost_usd == 0,
            r.total_time_hours == 0,
            r.total_carbon_kg == 0,
            r.total_distance_km == 0,
            r.labor_score == 0,
            r.pareto_rank == 0,
            !r.pareto_optimal,
            r.weighted_score == 0,
            r.constraint_results@.len() == 0,
    {
        CandidateRoute {
            route_id: fresh_route_id(),
            segments: Vec::new(),
            total_cost_usd: 0,
            total_time_hours: 0,
            total_carbon_kg: 0,
            total_distance_km: 0,
            labor_score: 0,
            pareto_rank: 0,
            pareto_optimal: false,
            weighted_score: 0,
            constraint_results: Vec::new(),
        }
    }

    /// Recomputes the totals from the segments. Returns false, leaving
    /// the route unchanged, exactly when one of the exact sums does not
    /// fit the numeric range.
    pub fn recalculate_totals(&mut self) -> (r: bool)
        ensures
            final(self).route_id == old(self).route_id,
            final(self).segments == old(self).segments,
            final(self).pareto_rank == old(self).pareto_rank,
            final(self).pareto_optimal == old(self).pareto_optimal,
            final(self).weighted_score == old(self).weighted_score,
            final(self).constraint_results == old(self).constraint_results,
            r <==> (sum_cost(old(self).segments@) <= u64::MAX && sum_time(old(self).segments@)
                <= u64::MAX && sum_carbon(old(self).segments@) <= u64::MAX && sum_distance(
                old(self).segments@,
            ) <= u64::MAX && sum_labor(old(self).segments@) <= u64::MAX),
            r ==> totals_ok(*final(self)),
            !r ==> *final(self) == *old(self),
    {
        let n = self.segments.len();
        let mut cost: u64 = 0;
        let mut time: u64 = 0;
        let mut carbon: u64 = 0;
        let mut distance: u64 = 0;
        let mut labor: u64 = 0;
        let mut i: usize = 0;
        while i < n
            invariant
                0 <= i <= n,
                n == self.segments@.len(),
                cost == sum_cost(self.segments@.take(i as int)),
                time == sum_time(self.segments@.take(i as int)),
                carbon == sum_carbon(self.segments@.take(i as int)),
                distance == sum_distance(self.segments@.take(i as int)),
                labor == sum_labor(self.segments@.take(i as int)),
            decreases n - i,
        {
            let s = &self.segments[i];
            proof {
                assert(self.segments@.take(i + 1).drop_last() =~= self.segments@.take(i as int));
                lemma_route_sums_prefix(self.segments@, i + 1);
            }
            let Some(c2) = cost.checked_add(s.cost_usd) else { return false };
            let Some(t2) = time.checked_add(s.transit_hours) else { return false };
            let Some(b2) = carbon.checked_add(s.carbon_kg) else { return false };
            let Some(d2) = distance.checked_add(s.distance_km) else { return false };
            let Some(l2) = labor.checked_add(s.labor_score) else { return false };
            cost = c2;
            time = t2;
            carbon = b2;
            distance = d2;
            labor = l2;
            i += 1;
        }
        proof {
            assert(self.segments@.take(n as int) =~= self.segments@);
        }
        self.total_cost_usd = cost;
        self.total_time_hours = time;
        self.total_carbon_kg = carbon;
        self.total_distance_km = distance;
        self.labor_score = if n > 0 {
            labor / (n as u64)
        } else {
            0
        };
        true
    }
}

/// What an optimization run produced: the surviving routes, the elapsed
/// time in milliseconds and how many raw candidates the search emitted.
pub struct OptimizeResult {
    pub routes: Vec<CandidateRoute>,
    pub optimization_time_ms: u64,
    pub candidates_evaluated: usize,
}

/// Relies on uuid's `Uuid::new_v4` and its hyphenated `Display` form:
/// a fresh random identifier of 36 characters. `new_v4` aborts if the
/// operating system's entropy source fails, an environmental failure
/// like memory exhaustion.
#[verifier::external_body]
fn fresh_route_id() -> (r: String)
    ensures
        r@.len() == 36,
{
    uuid::Uuid::new_v4().to_string()
}

} // verus!
