//! The external schema of a candidate route, and its round trip.
//!
//! A route crosses the process boundary as a `RouteWire`: the same
//! fields in plain form, with modes and constraint types carried as
//! their upper-case names. Parsing a wire record back rebuilds the
//! route and recomputes its totals; constraint results travel outward
//! only and are re-evaluated after parsing, as the service does.

use vstd::prelude::*;

use crate::constraints::ConstraintResult;
use crate::modes::mode_label_spec;
use crate::modes::mode_of_bytes;
use crate::modes::parse_mode;
use crate::modes::upper_byte;
use crate::modes::TransportMode;
use crate::routes::seg_eq;
use crate::routes::sum_carbon;
use crate::routes::sum_cost;
use crate::routes::sum_distance;
use crate::routes::sum_labor;
use crate::routes::sum_time;
use crate::routes::totals_ok;
use crate::routes::CandidateRoute;
use crate::routes::RouteSegment;

verus! {

use vstd::string::StringSliceAdditionalSpecFns;
use vstd::utf8::encode_utf8;
use vstd::utf8::is_ascii_chars;
use vstd::utf8::is_ascii_chars_encode_utf8;

/// One leg of a route on the wire.
pub struct SegmentWire {
    pub segment_id: String,
    pub sequence: u32,
    pub from_node: String,
    pub to_node: String,
    pub mode: String,
    pub carrier_code: String,
    pub distance_km: u64,
    pub cost_usd: u64,
    pub transit_hours: u64,
    pub carbon_kg: u64,
    pub carrier_wage_cents: u32,
    pub labor_score: u64,
    pub departure_time: u64,
    pub arrival_time: u64,
}

/// One constraint outcome on the wire; carried outward only.
pub struct ConstraintResultWire {
    pub constraint_id: String,
    pub constraint_type: String,
    pub passed: bool,
    pub is_hard: bool,
    pub score: u64,
    pub message: String,
}

/// A whole route on the wire.
pub struct RouteWire {
    pub route_id: String,
    pub segments: Vec<SegmentWire>,
    pub total_cost_usd: u64,
    pub total_time_hours: u64,
    pub total_carbon_kg: u64,
    pub total_distance_km: u64,
    pub labor_score: u64,
    pub pareto_rank: u32,
    pub pareto_optimal: bool,
    pub weighted_score: u64,
    pub constraint_results: Vec<ConstraintResultWire>,
}

/// A wire segment carries exactly the fields of a route segment, with
/// the mode spelled out.
pub open spec fn seg_wire_of(w: SegmentWire, s: RouteSegment) -> bool {
    w.segment_id@ == s.segment_id@ && w.sequence == s.sequence && w.from_node@ == s.from_node@
        && w.to_node@ == s.to_node@ && w.mode@ == mode_label_spec(s.mode) && w.carrier_code@
        == s.carrier_code@ && w.distance_km == s.distance_km && w.cost_usd == s.cost_usd
        && w.transit_hours == s.transit_hours && w.carbon_kg == s.carbon_kg
        && w.carrier_wage_cents == s.carrier_wage_cents && w.labor_score == s.labor_score
        && w.departure_time == s.departure_time && w.arrival_time == s.arrival_time
}

/// A wire record carries exactly the fields of a route.
pub open spec fn wire_of_route(w: RouteWire, r: CandidateRoute) -> bool {
    w.route_id@ == r.route_id@ && w.segments@.len() == r.segments@.len() && (forall|i: int|
        0 <= i < w.segments@.len() ==> seg_wire_of(#[trigger] w.segments@[i], r.segments@[i]))
        && w.total_cost_usd == r.total_cost_usd && w.total_time_hours == r.total_time_hours
        && w.total_carbon_kg == r.total_carbon_kg && w.total_distance_km == r.total_distance_km
        && w.labor_score == r.labor_score && w.pareto_rank == r.pareto_rank && w.pareto_optimal
        == r.pareto_optimal && w.weighted_score == r.weighted_score && w.constraint_results@.len()
        == r.constraint_results@.len()
}

/// The mode a parsed segment gets: the named mode, or Road for an
/// unknown name.
pub open spec fn mode_or_default(name: Seq<char>) -> TransportMode {
    match mode_of_bytes(encode_utf8(name)) {
        Some(m) => m,
        None => TransportMode::Road,
    }
}

/// A parsed segment takes every field from the wire, with the mode
/// parsed by name.
pub open spec fn seg_of_wire(s: RouteSegment, w: SegmentWire) -> bool {
    s.segment_id@ == w.segment_id@ && s.sequence == w.sequence && s.from_node@ == w.from_node@
        && s.to_node@ == w.to_node@ && s.mode == mode_or_default(w.mode@) && s.carrier_code@
        == w.carrier_code@ && s.distance_km == w.distance_km && s.cost_usd == w.cost_usd
        && s.transit_hours == w.transit_hours && s.carbon_kg == w.carbon_kg
        && s.carrier_wage_cents == w.carrier_wage_cents && s.labor_score == w.labor_score
        && s.departure_time == w.departure_time && s.arrival_time == w.arrival_time
}

/// A parsed route takes its identity, rank fields and score from the
/// wire, parses each segment, leaves the constraint results empty, and
/// recomputes its totals from the segments.
pub open spec fn route_of_wire(r: CandidateRoute, w: RouteWire) -> bool {
    r.route_id@ == w.route_id@ && r.segments@.len() == w.segments@.len() && (forall|i: int|
        0 <= i < r.segments@.len() ==> seg_of_wire(#[trigger] r.segments@[i], w.segments@[i]))
        && r.pareto_rank == w.pareto_rank && r.pareto_optimal == w.pareto_optimal
        && r.weighted_score == w.weighted_score && r.constraint_results@.len() == 0 && totals_ok(r)
}

fn seg_to_wire(s: &RouteSegment) -> (w: SegmentWire)
    ensures
        seg_wire_of(w, *s),
{
    SegmentWire {
        segment_id: s.segment_id.clone(),
        sequence: s.sequence,
        from_node: s.from_node.clone(),
        to_node: s.to_node.clone(),
        mode: s.mode.label().to_owned(),
        carrier_code: s.carrier_code.clone(),
        distance_km: s.distance_km,
        cost_usd: s.cost_usd,
        transit_hours: s.transit_hours,
        carbon_kg: s.carbon_kg,
        carrier_wage_cents: s.carrier_wage_cents,
        labor_score: s.labor_score,
        departure_time: s.departure_time,
        arrival_time: s.arrival_time,
    }
}

fn result_to_wire(c: &ConstraintResult) -> (w: ConstraintResultWire)
    ensures
        w.constraint_id@ == c.constraint_id@,
        w.constraint_type@ == crate::constraints::constraint_type_label_spec(c.constraint_type),
        w.passed == c.passed,
        w.is_hard == c.is_hard,
        w.score == c.score,
        w.message@ == c.message@,
{
    ConstraintResultWire {
        constraint_id: c.constraint_id.clone(),
        constraint_type: c.constraint_type.label().to_owned(),
        passed: c.passed,
        is_hard: c.is_hard,
        score: c.score,
        message: c.message.clone(),
    }
}

/// Serializes a route to the external schema.
pub fn route_to_wire(r: &CandidateRoute) -> (w: RouteWire)
    ensures
        wire_of_route(w, *r),
{
    let mut segments: Vec<SegmentWire> = Vec::new();
    let mut i: usize = 0;
    while i < r.segments.len()
        invariant
            0 <= i <= r.segments@.len(),
            segments@.len() == i,
            forall|t: int|
                0 <= t < i ==> seg_wire_of(#[trigger] segments@[t], r.segments@[t]),
        decreases r.segments@.len() - i,
    {
        segments.push(seg_to_wire(&r.segments[i]));
        i += 1;
    }
    let mut results: Vec<ConstraintResultWire> = Vec::new();
    let mut j: usize = 0;
    while j < r.constraint_results.len()
        invariant
            0 <= j <= r.constraint_results@.len(),
            results@.len() == j,
        decreases r.constraint_results@.len() - j,
    {
        results.push(result_to_wire(&r.constraint_results[j]));
        j += 1;
    }
    RouteWire {
        route_id: r.route_id.clone(),
        segments,
        total_cost_usd: r.total_cost_usd,
        total_time_hours: r.total_time_hours,
        total_carbon_kg: r.total_carbon_kg,
        total_distance_km: r.total_distance_km,
        labor_score: r.labor_score,
        pareto_rank: r.pareto_rank,
        pareto_optimal: r.pareto_optimal,
        weighted_score: r.weighted_score,
        constraint_results: results,
    }
}

/// Parses a route from the external schema, recomputing the totals
/// from the parsed segments; `None` exactly when a recomputed sum does
/// not fit the numeric range.
pub fn route_from_wire(w: &RouteWire) -> (r: Option<CandidateRoute>)
    ensures
        r matches Some(rt) ==> route_of_wire(rt, *w),
        r is None <==> !(sum_cost_wire(w.segments@) <= u64::MAX && sum_time_wire(w.segments@)
            <= u64::MAX && sum_carbon_wire(w.segments@) <= u64::MAX && sum_distance_wire(
            w.segments@,
        ) <= u64::MAX && sum_labor_wire(w.segments@) <= u64::MAX),
{
    let mut segments: Vec<RouteSegment> = Vec::new();
    let mut i: usize = 0;
    while i < w.segments.len()
        invariant
            0 <= i <= w.segments@.len(),
            segments@.len() == i,
            forall|t: int|
                0 <= t < i ==> seg_of_wire(#[trigger] segments@[t], w.segments@[t]),
        decreases w.segments@.len() - i,
    {
        let sw = &w.segments[i];
        let mode = match parse_mode(sw.mode.as_str()) {
            Some(m) => m,
            None => TransportMode::Road,
        };
        segments.push(
            RouteSegment {
                segment_id: sw.segment_id.clone(),
                sequence: sw.sequence,
                from_node: sw.from_node.clone(),
                to_node: sw.to_node.clone(),
                mode,
                carrier_code: sw.carrier_code.clone(),
                distance_km: sw.distance_km,
                cost_usd: sw.cost_usd,
                transit_hours: sw.transit_hours,
                carbon_kg: sw.carbon_kg,
                carrier_wage_cents: sw.carrier_wage_cents,
                labor_score: sw.labor_score,
                departure_time: sw.departure_time,
                arrival_time: sw.arrival_time,
            },
        );
        i += 1;
    }
    let mut route = CandidateRoute {
        route_id: w.route_id.clone(),
        segments,
        total_cost_usd: 0,
        total_time_hours: 0,
        total_carbon_kg: 0,
        total_distance_km: 0,
        labor_score: 0,
        pareto_rank: w.pareto_rank,
        pareto_optimal: w.pareto_optimal,
        weighted_score: w.weighted_score,
        constraint_results: Vec::new(),
    };
    proof {
        lemma_wire_sums(route.segments@, w.segments@);
    }
    if !route.recalculate_totals() {
        return None;
    }
    Some(route)
}

/// Sum of the wire segments' costs.
pub open spec fn sum_cost_wire(s: Seq<SegmentWire>) -> int
    decreases s.len(),
{
    if s.len() == 0 {
        0
    } else {
        sum_cost_wire(s.drop_last()) + s.last().cost_usd
    }
}

/// Sum of the wire segments' transit hours.
pub open spec fn sum_time_wire(s: Seq<SegmentWire>) -> int
    decreases s.len(),
{
    if s.len() == 0 {
        0
    } else {
        sum_time_wire(s.drop_last()) + s.last().transit_hours
    }
}

/// Sum of the wire segments' carbon.
pub open spec fn sum_carbon_wire(s: Seq<SegmentWire>) -> int
    decreases s.len(),
{
    if s.len() == 0 {
        0
    } else {
        sum_carbon_wire(s.drop_last()) + s.last().carbon_kg
    }
}

/// Sum of the wire segments' distances.
pub open spec fn sum_distance_wire(s: Seq<SegmentWire>) -> int
    decreases s.len(),
{
    if s.len() == 0 {
        0
    } else {
        sum_distance_wire(s.drop_last()) + s.last().distance_km
    }
}

/// Sum of the wire segments' labor scores.
pub open spec fn sum_labor_wire(s: Seq<SegmentWire>) -> int
    decreases s.len(),
{
    if s.len() == 0 {
        0
    } else {
        sum_labor_wire(s.drop_last()) + s.last().labor_score
    }
}

/// Parsed segments sum exactly as their wire records do.
proof fn lemma_wire_sums(segs: Seq<RouteSegment>, ws: Seq<SegmentWire>)
    requires
        segs.len() == ws.len(),
        forall|i: int| 0 <= i < segs.len() ==> seg_of_wire(#[trigger] segs[i], ws[i]),
    ensures
        sum_cost(segs) == sum_cost_wire(ws),
        sum_time(segs) == sum_time_wire(ws),
        sum_carbon(segs) == sum_carbon_wire(ws),
        sum_distance(segs) == sum_distance_wire(ws),
        sum_labor(segs) == sum_labor_wire(ws),
    decreases segs.len(),
{
    if segs.len() > 0 {
        assert forall|i: int| 0 <= i < segs.drop_last().len() implies seg_of_wire(
            #[trigger] segs.drop_last()[i],
            ws.drop_last()[i],
        ) by {
            assert(segs.drop_last()[i] == segs[i] && ws.drop_last()[i] == ws[i]);
        };
        lemma_wire_sums(segs.drop_last(), ws.drop_last());
        assert(seg_of_wire(segs[segs.len() - 1], ws[ws.len() - 1]));
    }
}

/// The upper-case mode names parse back to their modes.
proof fn lemma_mode_label_parses(m: TransportMode)
    ensures
        mode_or_default(mode_label_spec(m)) == m,
{
    reveal_strlit("MARITIME");
    reveal_strlit("RAIL");
    reveal_strlit("ROAD");
    reveal_strlit("AIR");
    let cs = mode_label_spec(m);
    assert(is_ascii_chars(cs));
    is_ascii_chars_encode_utf8(cs);
    let bs = encode_utf8(cs);
    assert(bs =~= cs.map_values(|c: char| c as u8));
    assert(bs.map_values(|b: u8| upper_byte(b)) =~= bs);
    match m {
        TransportMode::Maritime => {
            assert(bs =~= "MARITIME"@.map_values(|c: char| c as u8));
        },
        TransportMode::Rail => {
            assert(bs.len() != "MARITIME"@.map_values(|c: char| c as u8).len());
            assert(bs =~= "RAIL"@.map_values(|c: char| c as u8));
        },
        TransportMode::Road => {
            assert(bs.len() != "MARITIME"@.map_values(|c: char| c as u8).len());
            assert(bs[1] != "RAIL"@.map_values(|c: char| c as u8)[1]);
            assert(bs =~= "ROAD"@.map_values(|c: char| c as u8));
        },
        TransportMode::Air => {
            assert(bs.len() != "MARITIME"@.map_values(|c: char| c as u8).len());
            assert(bs.len() != "RAIL"@.map_values(|c: char| c as u8).len());
            assert(bs.len() != "ROAD"@.map_values(|c: char| c as u8).len());
            assert(bs =~= "AIR"@.map_values(|c: char| c as u8));
        },
    }
}

/// Field-wise equality of two routes but for their constraint results,
/// with strings compared by view.
pub open spec fn route_payload_eq(a: CandidateRoute, b: CandidateRoute) -> bool {
    a.route_id@ == b.route_id@ && a.segments@.len() == b.segments@.len() && (forall|i: int|
        0 <= i < a.segments@.len() ==> seg_eq(#[trigger] a.segments@[i], b.segments@[i]))
        && a.total_cost_usd == b.total_cost_usd && a.total_time_hours == b.total_time_hours
        && a.total_carbon_kg == b.total_carbon_kg && a.total_distance_km == b.total_distance_km
        && a.labor_score == b.labor_score && a.pareto_rank == b.pareto_rank && a.pareto_optimal
        == b.pareto_optimal && a.weighted_score == b.weighted_score
}

/// Round trip through the external schema: a route with consistent
/// totals, serialized and parsed back, is reproduced exactly, its
/// constraint results excepted, which travel outward only.
pub proof fn lemma_wire_round_trip(r: CandidateRoute, w: RouteWire, r2: CandidateRoute)
    requires
        totals_ok(r),
        wire_of_route(w, r),
        route_of_wire(r2, w),
    ensures
        route_payload_eq(r2, r),
{
    assert forall|i: int| 0 <= i < r2.segments@.len() implies seg_eq(
        #[trigger] r2.segments@[i],
        r.segments@[i],
    ) by {
        assert(seg_of_wire(r2.segments@[i], w.segments@[i]));
        assert(seg_wire_of(w.segments@[i], r.segments@[i]));
        lemma_mode_label_parses(r.segments@[i].mode);
    };
    lemma_wire_sums(r2.segments@, w.segments@);
    lemma_wire_sums_of_route(r.segments@, w.segments@);
}

/// Wire records of a route's segments sum as the segments do.
proof fn lemma_wire_sums_of_route(segs: Seq<RouteSegment>, ws: Seq<SegmentWire>)
    requires
        segs.len() == ws.len(),
        forall|i: int| 0 <= i < ws.len() ==> seg_wire_of(#[trigger] ws[i], segs[i]),
    ensures
        sum_cost(segs) == sum_cost_wire(ws),
        sum_time(segs) == sum_time_wire(ws),
        sum_carbon(segs) == sum_carbon_wire(ws),
        sum_distance(segs) == sum_distance_wire(ws),
        sum_labor(segs) == sum_labor_wire(ws),
    decreases segs.len(),
{
    if segs.len() > 0 {
        assert forall|i: int| 0 <= i < ws.drop_last().len() implies seg_wire_of(
            #[trigger] ws.drop_last()[i],
            segs.drop_last()[i],
        ) by {
            assert(segs.drop_last()[i] == segs[i] && ws.drop_last()[i] == ws[i]);
        };
        lemma_wire_sums_of_route(segs.drop_last(), ws.drop_last());
        assert(seg_wire_of(ws[ws.len() - 1], segs[segs.len() - 1]));
    }
}

} // verus!
