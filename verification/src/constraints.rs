//! Hard and soft constraint evaluation over candidate routes.
//!
//! Scores are in ten-thousandths: 10000 stands for a full score of one.

use vstd::prelude::*;

use crate::routes::CandidateRoute;
use crate::routes::OptimizeRequest;
use crate::routes::RouteSegment;
use crate::routes::window_hours;
use crate::text::str_eq;

verus! {

use vstd::string::StringExecFns;

/// The kind of rule a constraint result reports on.
#[derive(Debug, Clone, Copy, PartialEq, Eq, Structural)]
pub enum ConstraintType {
    Wage,
    Carbon,
    Time,
    Cost,
    Sanction,
    Mode,
    Custom,
}

impl ConstraintType {
    /// Upper-case name of the constraint type, as used on the wire.
    pub fn label(&self) -> (r: &'static str)
        ensures
            r@ == constraint_type_label_spec(*self),
    {
        match self {
            ConstraintType::Wage => "WAGE",
            ConstraintType::Carbon => "CARBON",
            ConstraintType::Time => "TIME",
            ConstraintType::Cost => "COST",
            ConstraintType::Sanction => "SANCTION",
            ConstraintType::Mode => "MODE",
            ConstraintType::Custom => "CUSTOM",
        }
    }
}

pub open spec fn constraint_type_label_spec(t: ConstraintType) -> Seq<char> {
    match t {
        ConstraintType::Wage => "WAGE"@,
        ConstraintType::Carbon => "CARBON"@,
        ConstraintType::Time => "TIME"@,
        ConstraintType::Cost => "COST"@,
        ConstraintType::Sanction => "SANCTION"@,
        ConstraintType::Mode => "MODE"@,
        ConstraintType::Custom => "CUSTOM"@,
    }
}

/// Outcome of one constraint check. `score` is in ten-thousandths.
#[derive(Debug)]
pub struct ConstraintResult {
    pub constraint_id: String,
    pub constraint_type: ConstraintType,
    pub passed: bool,
    pub is_hard: bool,
    pub score: u64,
    pub message: String,
}

/// Field-wise equality of two constraint results, with strings compared
/// by view.
pub open spec fn constraint_result_eq(a: ConstraintResult, b: ConstraintResult) -> bool {
    a.constraint_id@ == b.constraint_id@ && a.constraint_type == b.constraint_type && a.passed
        == b.passed && a.is_hard == b.is_hard && a.score == b.score && a.message@ == b.message@
}

impl Clone for ConstraintResult {
    fn clone(&self) -> (r: Self)
        ensures
            constraint_result_eq(r, *self),
    {
        ConstraintResult {
            constraint_id: self.constraint_id.clone(),
            constraint_type: self.constraint_type,
            passed: self.passed,
            is_hard: self.is_hard,
            score: self.score,
            message: self.message.clone(),
        }
    }
}

/// Every hard constraint among the results passed.
pub open spec fn all_hard_passed_spec(results: Seq<ConstraintResult>) -> bool {
    forall|i: int| 0 <= i < results.len() ==> ((#[trigger] results[i]).is_hard ==> results[i].passed)
}

/// Whether every hard constraint among `results` passed; a route is
/// admissible exactly when this holds.
pub fn all_hard_passed(results: &Vec<ConstraintResult>) -> (r: bool)
    ensures
        r == all_hard_passed_spec(results@),
{
    let mut i: usize = 0;
    while i < results.len()
        invariant
            0 <= i <= results@.len(),
            forall|k: int|
                0 <= k < i ==> ((#[trigger] results@[k]).is_hard ==> results@[k].passed),
        decreases results@.len() - i,
    {
        if results[i].is_hard && !results[i].passed {
            return false;
        }
        i += 1;
    }
    true
}

/// Sum of the results' scores.
pub open spec fn sum_scores(s: Seq<ConstraintResult>) -> int
    decreases s.len(),
{
    if s.len() == 0 {
        0
    } else {
        sum_scores(s.drop_last()) + s.last().score
    }
}

/// The overall score of a result list: the mean of the scores, a full
/// score when there is none, saturated at the numeric range.
pub open spec fn overall_score_spec(s: Seq<ConstraintResult>) -> int {
    if s.len() == 0 {
        10000
    } else if sum_scores(s) <= u64::MAX {
        sum_scores(s) / s.len() as int
    } else {
        u64::MAX as int
    }
}

proof fn lemma_sum_scores_prefix(s: Seq<ConstraintResult>, i: int)
    requires
        0 <= i <= s.len(),
    ensures
        sum_scores(s.take(i)) <= sum_scores(s),
    decreases s.len() - i,
{
    if i == s.len() {
        assert(s.take(i) =~= s);
    } else {
        assert(s.take(i + 1).drop_last() =~= s.take(i));
        lemma_sum_scores_prefix(s, i + 1);
    }
}

/// The mean of the results' scores, in ten-thousandths.
pub fn overall_score(results: &Vec<ConstraintResult>) -> (r: u64)
    ensures
        r == overall_score_spec(results@),
{
    let n = results.len();
    if n == 0 {
        return 10000;
    }
    let mut sum: u64 = 0;
    let mut i: usize = 0;
    while i < n
        invariant
            0 <= i <= n,
            n == results@.len(),
            n > 0,
            sum == sum_scores(results@.take(i as int)),
        decreases n - i,
    {
        proof {
            assert(results@.take(i + 1).drop_last() =~= results@.take(i as int));
            lemma_sum_scores_prefix(results@, i + 1);
        }
        let Some(s2) = sum.checked_add(results[i].score) else { return u64::MAX };
        sum = s2;
        i += 1;
    }
    proof {
        assert(results@.take(n as int) =~= results@);
    }
    sum / (n as u64)
}

/// Cached constraint parameters: minimum wages in cents per hour by
/// country code, maximum weekly hours by region, and the set of
/// sanctioned carrier codes.
pub struct ConstraintCache {
    pub min_wages: Vec<(String, u32)>,
    pub max_hours: Vec<(String, u32)>,
    pub sanctioned_carriers: Vec<String>,
}

impl Default for ConstraintCache {
    /// An empty cache: no wage floors and no sanctions.
    fn default() -> (r: Self)
        ensures
            r.min_wages@.len() == 0,
            r.max_hours@.len() == 0,
            r.sanctioned_carriers@.len() == 0,
    {
        ConstraintCache { min_wages: Vec::new(), max_hours: Vec::new(), sanctioned_carriers: Vec::new() }
    }
}

/// First binding of a key in an association list.
pub open spec fn assoc_lookup(entries: Seq<(String, u32)>, key: Seq<char>) -> Option<u32>
    decreases entries.len(),
{
    if entries.len() == 0 {
        None
    } else if entries[0].0@ == key {
        Some(entries[0].1)
    } else {
        assoc_lookup(entries.drop_first(), key)
    }
}

/// Whether a string list holds `key`.
pub open spec fn contains_str(entries: Seq<String>, key: Seq<char>) -> bool {
    exists|i: int| 0 <= i < entries.len() && entries[i]@ == key
}

/// The minimum wage to hold a segment to: the cached entry for its key,
/// or 800 cents per hour when none is cached.
pub open spec fn min_wage_for(cache: ConstraintCache, key: Seq<char>) -> u32 {
    match assoc_lookup(cache.min_wages@, key) {
        Some(w) => w,
        None => 800,
    }
}

/// Some segment among `segs` is run by a sanctioned carrier.
pub open spec fn has_offender(segs: Seq<RouteSegment>, cache: ConstraintCache) -> bool {
    exists|i: int|
        0 <= i < segs.len() && contains_str(cache.sanctioned_carriers@, segs[i].carrier_code@)
}

/// The sanctioned carrier codes among the segments, in segment order,
/// separated by commas.
pub open spec fn offender_list(segs: Seq<RouteSegment>, cache: ConstraintCache) -> Seq<char>
    decreases segs.len(),
{
    if segs.len() == 0 {
        Seq::empty()
    } else {
        let rest = offender_list(segs.drop_last(), cache);
        if contains_str(cache.sanctioned_carriers@, segs.last().carrier_code@) {
            if has_offender(segs.drop_last(), cache) {
                rest + ", "@ + segs.last().carrier_code@
            } else {
                segs.last().carrier_code@
            }
        } else {
            rest
        }
    }
}

/// Some segment of the route is run by a sanctioned carrier.
pub open spec fn sanction_violation(route: CandidateRoute, cache: ConstraintCache) -> bool {
    has_offender(route.segments@, cache)
}

/// With no offending segment, the offender list is empty.
pub proof fn lemma_no_offender_empty(segs: Seq<RouteSegment>, cache: ConstraintCache)
    requires
        !has_offender(segs, cache),
    ensures
        offender_list(segs, cache) == Seq::<char>::empty(),
    decreases segs.len(),
{
    if segs.len() > 0 {
        assert(!contains_str(cache.sanctioned_carriers@, segs.last().carrier_code@)) by {
            if contains_str(cache.sanctioned_carriers@, segs.last().carrier_code@) {
                assert(0 <= segs.len() - 1 < segs.len());
            }
        };
        assert(!has_offender(segs.drop_last(), cache)) by {
            if has_offender(segs.drop_last(), cache) {
                let w = choose|w: int|
                    0 <= w < segs.drop_last().len() && contains_str(
                        cache.sanctioned_carriers@,
                        segs.drop_last()[w].carrier_code@,
                    );
                assert(segs[w] == segs.drop_last()[w]);
            }
        };
        lemma_no_offender_empty(segs.drop_last(), cache);
    }
}

/// Some segment of the route pays its carrier below the minimum wage of
/// the segment's destination.
pub open spec fn wage_violation(route: CandidateRoute, cache: ConstraintCache) -> bool {
    exists|i: int|
        0 <= i < route.segments@.len() && (#[trigger] route.segments@[i]).carrier_wage_cents
            < min_wage_for(cache, route.segments@[i].to_node@)
}

/// The route's total transit time fits the request's delivery window,
/// which must not be inverted.
pub open spec fn time_ok(route: CandidateRoute, req: OptimizeRequest) -> bool {
    req.deliver_by >= req.pickup_after && route.total_time_hours <= window_hours(req)
}

/// The score of a soft budget constraint, in ten-thousandths: the
/// remaining share of the budget, zero when there is no budget or it is
/// spent.
pub open spec fn budget_score_spec(total: u64, max: u64) -> int {
    if max == 0 {
        0
    } else if total >= max {
        0
    } else {
        10000 - (total * 10000) / (max as int)
    }
}

fn lookup_wage(entries: &Vec<(String, u32)>, key: &str) -> (r: Option<u32>)
    ensures
        r == assoc_lookup(entries@, key@),
{
    let mut i: usize = 0;
    proof {
        assert(entries@.skip(0) =~= entries@);
    }
    while i < entries.len()
        invariant
            0 <= i <= entries@.len(),
            assoc_lookup(entries@, key@) == assoc_lookup(entries@.skip(i as int), key@),
        decreases entries@.len() - i,
    {
        proof {
            assert(entries@.skip(i as int).len() > 0);
            assert(entries@.skip(i as int)[0] == entries@[i as int]);
            assert(entries@.skip(i as int).drop_first() =~= entries@.skip(i + 1));
        }
        if str_eq(entries[i].0.as_str(), key) {
            return Some(entries[i].1);
        }
        i += 1;
    }
    proof {
        assert(entries@.skip(entries@.len() as int).len() == 0);
    }
    None
}

fn list_contains(entries: &Vec<String>, key: &str) -> (r: bool)
    ensures
        r == contains_str(entries@, key@),
{
    let mut i: usize = 0;
    while i < entries.len()
        invariant
            0 <= i <= entries@.len(),
            forall|k: int| 0 <= k < i ==> entries@[k]@ != key@,
        decreases entries@.len() - i,
    {
        if str_eq(entries[i].as_str(), key) {
            return true;
        }
        i += 1;
    }
    false
}

/// Evaluates hard and soft constraints against candidate routes, using a
/// cached snapshot of wage floors and sanctions.
pub struct ConstraintEngine {
    cache: ConstraintCache,
}

impl ConstraintEngine {
    /// The cached parameters the engine evaluates against.
    pub closed spec fn spec_cache(&self) -> ConstraintCache {
        self.cache
    }

    /// An engine with an empty cache.
    pub fn new() -> (r: Self)
        ensures
            r.spec_cache().min_wages@.len() == 0,
            r.spec_cache().sanctioned_carriers@.len() == 0,
    {
        ConstraintEngine { cache: ConstraintCache::default() }
    }

    /// An engine evaluating against a pre-loaded cache.
    pub fn with_cache(cache: ConstraintCache) -> (r: Self)
        ensures
            r.spec_cache() == cache,
    {
        ConstraintEngine { cache }
    }

    /// Replaces the cached parameters.
    pub fn update_cache(&mut self, cache: ConstraintCache)
        ensures
            final(self).spec_cache() == cache,
    {
        self.cache = cache;
    }

    /// The hard sanction check: fails when any segment's carrier is
    /// sanctioned; the message lists the offending carrier codes.
    pub fn check_sanction_constraint(&self, route: &CandidateRoute) -> (r: ConstraintResult)
        ensures
            r.constraint_type == ConstraintType::Sanction,
            r.is_hard,
            r.passed == !sanction_violation(*route, self.spec_cache()),
            r.score == if r.passed { 10000int } else { 0int },
            r.constraint_id@ == "sanction-check"@,
            r.message@ == (if r.passed {
                "No sanctioned carriers"@
            } else {
                "Sanctioned carriers: "@ + offender_list(route.segments@, self.spec_cache())
            }),
    {
        let mut violated = false;
        let mut offenders = String::new();
        let mut i: usize = 0;
        while i < route.segments.len()
            invariant
                0 <= i <= route.segments@.len(),
                violated == has_offender(route.segments@.take(i as int), self.spec_cache()),
                offenders@ == offender_list(route.segments@.take(i as int), self.spec_cache()),
            decreases route.segments@.len() - i,
        {
            let ghost c = self.spec_cache();
            let ghost pre0 = route.segments@.take(i as int);
            let ghost pre1 = route.segments@.take(i + 1);
            proof {
                assert(pre1.drop_last() =~= pre0);
                assert(pre1.last() == route.segments@[i as int]);
            }
            let found = list_contains(
                &self.cache.sanctioned_carriers,
                route.segments[i].carrier_code.as_str(),
            );
            if found {
                proof {
                    assert(has_offender(pre1, c)) by {
                        assert(0 <= pre1.len() - 1 < pre1.len() && contains_str(
                            c.sanctioned_carriers@,
                            pre1[pre1.len() - 1].carrier_code@,
                        ));
                    };
                }
                if violated {
                    offenders.append(", ");
                } else {
                    proof {
                        lemma_no_offender_empty(pre0, c);
                    }
                }
                offenders.append(route.segments[i].carrier_code.as_str());
                proof {
                    assert(offenders@ =~= offender_list(pre1, c));
                }
                violated = true;
            } else {
                proof {
                    assert(has_offender(pre1, c) == has_offender(pre0, c)) by {
                        if has_offender(pre1, c) {
                            let w = choose|w: int|
                                0 <= w < pre1.len() && contains_str(
                                    c.sanctioned_carriers@,
                                    pre1[w].carrier_code@,
                                );
                            if w < i {
                                assert(pre0[w] == pre1[w]);
                            }
                        }
                        if has_offender(pre0, c) {
                            let w = choose|w: int|
                                0 <= w < pre0.len() && contains_str(
                                    c.sanctioned_carriers@,
                                    pre0[w].carrier_code@,
                                );
                            assert(pre1[w] == pre0[w]);
                        }
                    };
                }
            }
            i += 1;
        }
        proof {
            assert(route.segments@.take(route.segments@.len() as int) =~= route.segments@);
        }
        let passed = !violated;
        let message = if passed {
            String::from_str("No sanctioned carriers")
        } else {
            let mut m = String::from_str("Sanctioned carriers: ");
            m.append(offenders.as_str());
            m
        };
        ConstraintResult {
            constraint_id: String::from_str("sanction-check"),
            constraint_type: ConstraintType::Sanction,
            passed,
            is_hard: true,
            score: if passed { 10000 } else { 0 },
            message,
        }
    }

    /// The hard wage check: fails when any segment pays below the
    /// minimum wage cached for the segment's destination, with a floor
    /// of 800 cents per hour when none is cached.
    pub fn check_wage_constraint(&self, route: &CandidateRoute) -> (r: ConstraintResult)
        ensures
            r.constraint_type == ConstraintType::Wage,
            r.is_hard,
            r.passed == !wage_violation(*route, self.spec_cache()),
            r.score == if r.passed { 10000int } else { 0int },
            r.constraint_id@ == "wage-minimum"@,
    {
        let mut violated = false;
        let mut i: usize = 0;
        while i < route.segments.len()
            invariant
                0 <= i <= route.segments@.len(),
                violated == exists|k: int|
                    0 <= k < i && (#[trigger] route.segments@[k]).carrier_wage_cents < min_wage_for(
                        self.spec_cache(),
                        route.segments@[k].to_node@,
                    ),
            decreases route.segments@.len() - i,
        {
            let seg = &route.segments[i];
            let min_wage = match lookup_wage(&self.cache.min_wages, seg.to_node.as_str()) {
                Some(w) => w,
                None => 800,
            };
            if seg.carrier_wage_cents < min_wage {
                violated = true;
            }
            i += 1;
        }
        let passed = !violated;
        ConstraintResult {
            constraint_id: String::from_str("wage-minimum"),
            constraint_type: ConstraintType::Wage,
            passed,
            is_hard: true,
            score: if passed { 10000 } else { 0 },
            message: if passed {
                String::from_str("All segments meet wage requirements")
            } else {
                String::from_str("Segment below minimum wage")
            },
        }
    }

    /// The hard time-window check: fails when the route's total transit
    /// time exceeds the delivery window, or the window is inverted.
    pub fn check_time_constraint(&self, route: &CandidateRoute, req: &OptimizeRequest) -> (r:
        ConstraintResult)
        ensures
            r.constraint_type == ConstraintType::Time,
            r.is_hard,
            r.passed == time_ok(*route, *req),
            r.score == if r.passed { 10000int } else { 0int },
            r.constraint_id@ == "time-window"@,
    {
        let passed = if req.deliver_by >= req.pickup_after {
            route.total_time_hours <= req.deliver_by - req.pickup_after
        } else {
            false
        };
        ConstraintResult {
            constraint_id: String::from_str("time-window"),
            constraint_type: ConstraintType::Time,
            passed,
            is_hard: true,
            score: if passed { 10000 } else { 0 },
            message: if passed {
                String::from_str("Route time within window")
            } else {
                String::from_str("Route time exceeds window")
            },
        }
    }

    /// The soft cost check against a budget in ten-thousandths of a US
    /// dollar.
    pub fn check_cost_constraint(&self, route: &CandidateRoute, max_cost: u64) -> (r:
        ConstraintResult)
        ensures
            r.constraint_type == ConstraintType::Cost,
            !r.is_hard,
            r.passed == (route.total_cost_usd <= max_cost),
            r.score == budget_score_spec(route.total_cost_usd, max_cost),
            r.constraint_id@ == "cost-budget"@,
    {
        let passed = route.total_cost_usd <= max_cost;
        let score = budget_score(route.total_cost_usd, max_cost);
        ConstraintResult {
            constraint_id: String::from_str("cost-budget"),
            constraint_type: ConstraintType::Cost,
            passed,
            is_hard: false,
            score,
            message: if passed {
                String::from_str("Cost within budget")
            } else {
                String::from_str("Cost over budget")
            },
        }
    }

    /// The soft carbon check against a budget in milligrams of CO2.
    pub fn check_carbon_constraint(&self, route: &CandidateRoute, max_carbon: u64) -> (r:
        ConstraintResult)
        ensures
            r.constraint_type == ConstraintType::Carbon,
            !r.is_hard,
            r.passed == (route.total_carbon_kg <= max_carbon),
            r.score == budget_score_spec(route.total_carbon_kg, max_carbon),
            r.constraint_id@ == "carbon-budget"@,
    {
        let passed = route.total_carbon_kg <= max_carbon;
        let score = budget_score(route.total_carbon_kg, max_carbon);
        ConstraintResult {
            constraint_id: String::from_str("carbon-budget"),
            constraint_type: ConstraintType::Carbon,
            passed,
            is_hard: false,
            score,
            message: if passed {
                String::from_str("Carbon within budget")
            } else {
                String::from_str("Carbon over budget")
            },
        }
    }

    /// The soft labor check against a minimum score in ten-thousandths;
    /// the score is the route's own labor score.
    pub fn check_labor_constraint(&self, route: &CandidateRoute, min_score: u64) -> (r:
        ConstraintResult)
        ensures
            r.constraint_type == ConstraintType::Wage,
            !r.is_hard,
            r.passed == (route.labor_score >= min_score),
            r.score == route.labor_score,
            r.constraint_id@ == "labor-minimum"@,
    {
        let passed = route.labor_score >= min_score;
        ConstraintResult {
            constraint_id: String::from_str("labor-minimum"),
            constraint_type: ConstraintType::Wage,
            passed,
            is_hard: false,
            score: route.labor_score,
            message: if passed {
                String::from_str("Labor score meets minimum")
            } else {
                String::from_str("Labor score below minimum")
            },
        }
    }

    /// Evaluates the three hard constraints and, for each threshold the
    /// request sets, the corresponding soft constraint, in a fixed
    /// order: sanction, wage, time, then cost, carbon, labor.
    pub fn evaluate_route(&self, route: &CandidateRoute, req: &OptimizeRequest) -> (r: Vec<
        ConstraintResult,
    >)
        ensures
            evaluation_ok(r@, *route, *req, self.spec_cache()),
    {
        proof {
            reveal(evaluation_ok);
        }
        let mut results: Vec<ConstraintResult> = Vec::new();
        results.push(self.check_sanction_constraint(route));
        results.push(self.check_wage_constraint(route));
        results.push(self.check_time_constraint(route, req));
        if let Some(max_cost) = req.max_cost_usd {
            results.push(self.check_cost_constraint(route, max_cost));
        }
        if let Some(max_carbon) = req.max_carbon_kg {
            results.push(self.check_carbon_constraint(route, max_carbon));
        }
        if let Some(min_labor) = req.min_labor_score {
            results.push(self.check_labor_constraint(route, min_labor));
        }
        results
    }
}

/// What a constraint evaluation holds: the three hard results in order,
/// then one soft result for each threshold the request sets, each
/// reporting on the route as the specs above say. The hard results pass
/// exactly when the route is clear of sanctions, pays every wage floor
/// and fits the window.
#[verifier::opaque]
pub open spec fn evaluation_ok(
    rs: Seq<ConstraintResult>,
    route: CandidateRoute,
    req: OptimizeRequest,
    cache: ConstraintCache,
) -> bool {
    let n_cost: int = if req.max_cost_usd is Some {
        1
    } else {
        0
    };
    let n_carbon: int = if req.max_carbon_kg is Some {
        1
    } else {
        0
    };
    let n_labor: int = if req.min_labor_score is Some {
        1
    } else {
        0
    };
    rs.len() == 3 + n_cost + n_carbon + n_labor && rs[0].constraint_type
        == ConstraintType::Sanction && rs[0].is_hard && rs[0].passed == !sanction_violation(
        route,
        cache,
    ) && rs[0].score == (if rs[0].passed {
        10000int
    } else {
        0int
    }) && rs[0].constraint_id@ == "sanction-check"@ && rs[1].constraint_type
        == ConstraintType::Wage && rs[1].is_hard && rs[1].passed == !wage_violation(route, cache)
        && rs[1].score == (if rs[1].passed {
        10000int
    } else {
        0int
    }) && rs[1].constraint_id@ == "wage-minimum"@ && rs[2].constraint_type == ConstraintType::Time
        && rs[2].is_hard && rs[2].passed == time_ok(route, req) && rs[2].score == (if rs[2].passed {
        10000int
    } else {
        0int
    }) && rs[2].constraint_id@ == "time-window"@ && (req.max_cost_usd matches Some(
        max,
    ) ==> rs[3].constraint_type == ConstraintType::Cost && !rs[3].is_hard && rs[3].passed == (
    route.total_cost_usd <= max) && rs[3].score == budget_score_spec(route.total_cost_usd, max)
        && rs[3].constraint_id@ == "cost-budget"@) && (req.max_carbon_kg matches Some(max)
        ==> rs[3 + n_cost].constraint_type == ConstraintType::Carbon && !rs[3 + n_cost].is_hard
        && rs[3 + n_cost].passed == (route.total_carbon_kg <= max) && rs[3 + n_cost].score
        == budget_score_spec(route.total_carbon_kg, max) && rs[3 + n_cost].constraint_id@
        == "carbon-budget"@) && (req.min_labor_score matches Some(min) ==> rs[3 + n_cost
        + n_carbon].constraint_type == ConstraintType::Wage && rs[3 + n_cost + n_carbon].passed
        == (route.labor_score >= min) && !rs[3 + n_cost + n_carbon].is_hard && rs[3 + n_cost
        + n_carbon].score == route.labor_score && rs[3 + n_cost + n_carbon].constraint_id@
        == "labor-minimum"@) && (forall|i: int|
        3 <= i < rs.len() ==> !(#[trigger] rs[i]).is_hard)
}

/// The reported evaluation depends only on the route's segments,
/// totals and labor score, not on its ranks or scores.
pub proof fn lemma_evaluation_route_fields(
    rs: Seq<ConstraintResult>,
    a: CandidateRoute,
    b: CandidateRoute,
    req: OptimizeRequest,
    cache: ConstraintCache,
)
    requires
        evaluation_ok(rs, a, req, cache),
        b.segments == a.segments,
        b.total_cost_usd == a.total_cost_usd,
        b.total_time_hours == a.total_time_hours,
        b.total_carbon_kg == a.total_carbon_kg,
        b.labor_score == a.labor_score,
    ensures
        evaluation_ok(rs, b, req, cache),
{
    reveal(evaluation_ok);
}

/// The remaining share of a budget, in ten-thousandths.
fn budget_score(total: u64, max: u64) -> (r: u64)
    ensures
        r == budget_score_spec(total, max),
{
    if max == 0 || total >= max {
        0
    } else {
        let q = ((total as u128) * 10000) / (max as u128);
        proof {
            assert((total as int * 10000) / (max as int) < 10000) by (nonlinear_arith)
                requires
                    0 <= total < max,
            ;
        }
        10000 - (q as u64)
    }
}

} // verus!
