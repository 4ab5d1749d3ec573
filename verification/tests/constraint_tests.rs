use rust_routing::constraints::{
    all_hard_passed, overall_score, ConstraintCache, ConstraintEngine, ConstraintType,
};
use rust_routing::routes::{CandidateRoute, OptimizeRequest, RouteSegment};

fn segment(seq: u32, from: &str, to: &str, carrier: &str, wage: u32) -> RouteSegment {
    RouteSegment {
        segment_id: format!("s{seq}"),
        sequence: seq,
        from_node: from.to_string(),
        to_node: to.to_string(),
        mode: rust_routing::modes::TransportMode::Maritime,
        carrier_code: carrier.to_string(),
        distance_km: 1000,
        cost_usd: 100_0000,
        transit_hours: 24,
        carbon_kg: 50_000_000,
        carrier_wage_cents: wage,
        labor_score: 8000,
        departure_time: 0,
        arrival_time: 24,
    }
}

#[test]
fn test_sanction_check() {
    let mut cache = ConstraintCache::default();
    cache.sanctioned_carriers.push("BADCO".to_string());

    let engine = ConstraintEngine::with_cache(cache);

    let mut route = CandidateRoute::new();
    route.segments.push(RouteSegment {
        segment_id: "s1".to_string(),
        sequence: 0,
        from_node: "A".to_string(),
        to_node: "B".to_string(),
        mode: rust_routing::modes::TransportMode::Maritime,
        carrier_code: "GOODCO".to_string(),
        distance_km: 1000,
        cost_usd: 100_0000,
        transit_hours: 24,
        carbon_kg: 50_000_000,
        carrier_wage_cents: 2000,
        labor_score: 8000,
        departure_time: 0,
        arrival_time: 24,
    });

    let result = engine.check_sanction_constraint(&route);
    assert!(result.passed);
    assert_eq!(result.message, "No sanctioned carriers");

    // Add sanctioned carrier
    route.segments[0].carrier_code = "BADCO".to_string();
    let result = engine.check_sanction_constraint(&route);
    assert!(!result.passed);
    assert_eq!(result.message, "Sanctioned carriers: BADCO");
}

#[test]
fn test_sanction_message_lists_all_offenders() {
    let mut cache = ConstraintCache::default();
    cache.sanctioned_carriers.push("BADCO".to_string());
    cache.sanctioned_carriers.push("WORSE".to_string());
    let engine = ConstraintEngine::with_cache(cache);

    let mut route = CandidateRoute::new();
    route.segments.push(segment(0, "A", "B", "BADCO", 2000));
    route.segments.push(segment(1, "B", "C", "FINE", 2000));
    route.segments.push(segment(2, "C", "D", "WORSE", 2000));
    let result = engine.check_sanction_constraint(&route);
    assert!(!result.passed);
    assert_eq!(result.message, "Sanctioned carriers: BADCO, WORSE");
}

#[test]
fn test_wage_check_uses_cached_minimum_and_default() {
    let mut cache = ConstraintCache::default();
    cache.min_wages.push(("B".to_string(), 2500));
    let engine = ConstraintEngine::with_cache(cache);

    let mut route = CandidateRoute::new();
    route.segments.push(segment(0, "A", "B", "CARR", 2000));
    let r = engine.check_wage_constraint(&route);
    assert!(!r.passed); // 2000 below the cached 2500 floor
    assert_eq!(r.constraint_type, ConstraintType::Wage);
    assert!(r.is_hard);

    // No cached entry: the 800-cent default applies.
    route.segments[0].to_node = "C".to_string();
    let r = engine.check_wage_constraint(&route);
    assert!(r.passed);
    route.segments[0].carrier_wage_cents = 700;
    let r = engine.check_wage_constraint(&route);
    assert!(!r.passed);
}

#[test]
fn test_time_window_check() {
    let engine = ConstraintEngine::new();
    let mut req = OptimizeRequest::default();
    req.pickup_after = 100;
    req.deliver_by = 200;
    let mut route = CandidateRoute::new();
    route.total_time_hours = 100;
    assert!(engine.check_time_constraint(&route, &req).passed);
    route.total_time_hours = 101;
    assert!(!engine.check_time_constraint(&route, &req).passed);
    // An inverted window admits nothing.
    req.deliver_by = 50;
    route.total_time_hours = 0;
    assert!(!engine.check_time_constraint(&route, &req).passed);
}

#[test]
fn test_cost_check_score() {
    let engine = ConstraintEngine::new();
    let mut route = CandidateRoute::new();
    route.total_cost_usd = 250_0000;
    let r = engine.check_cost_constraint(&route, 1000_0000);
    assert!(r.passed);
    assert!(!r.is_hard);
    // A quarter of the budget spent leaves three quarters of the score.
    assert_eq!(r.score, 7500);
    let r = engine.check_cost_constraint(&route, 200_0000);
    assert!(!r.passed);
    assert_eq!(r.score, 0);
    let r = engine.check_cost_constraint(&route, 0);
    assert!(!r.passed);
    assert_eq!(r.score, 0);
}

#[test]
fn test_carbon_check_score() {
    let engine = ConstraintEngine::new();
    let mut route = CandidateRoute::new();
    route.total_carbon_kg = 30_000_000;
    let r = engine.check_carbon_constraint(&route, 120_000_000);
    assert!(r.passed);
    assert_eq!(r.score, 7500);
    let r = engine.check_carbon_constraint(&route, 20_000_000);
    assert!(!r.passed);
    assert_eq!(r.score, 0);
}

#[test]
fn test_labor_check_score() {
    let engine = ConstraintEngine::new();
    let mut route = CandidateRoute::new();
    route.labor_score = 8500;
    let r = engine.check_labor_constraint(&route, 8000);
    assert!(r.passed);
    assert_eq!(r.score, 8500);
    let r = engine.check_labor_constraint(&route, 9000);
    assert!(!r.passed);
}

#[test]
fn test_evaluate_route_composition() {
    let engine = ConstraintEngine::new();
    let mut req = OptimizeRequest::default();
    let mut route = CandidateRoute::new();
    route.segments.push(segment(0, "A", "B", "CARR", 2000));
    route.total_time_hours = 24;

    let results = engine.evaluate_route(&route, &req);
    assert_eq!(results.len(), 3);
    assert_eq!(results[0].constraint_type, ConstraintType::Sanction);
    assert_eq!(results[1].constraint_type, ConstraintType::Wage);
    assert_eq!(results[2].constraint_type, ConstraintType::Time);
    assert!(all_hard_passed(&results));

    req.max_cost_usd = Some(1000_0000);
    req.max_carbon_kg = Some(100_000_000);
    req.min_labor_score = Some(5000);
    let results = engine.evaluate_route(&route, &req);
    assert_eq!(results.len(), 6);
    assert_eq!(results[3].constraint_type, ConstraintType::Cost);
    assert_eq!(results[4].constraint_type, ConstraintType::Carbon);
    assert!(!results[3].is_hard && !results[4].is_hard && !results[5].is_hard);
}

#[test]
fn test_overall_score_mean() {
    let engine = ConstraintEngine::new();
    let route = CandidateRoute::new();
    let req = OptimizeRequest::default();
    let results = engine.evaluate_route(&route, &req);
    // Empty route: all three hard checks pass with a full score.
    assert_eq!(overall_score(&results), 10000);
    let none: Vec<rust_routing::constraints::ConstraintResult> = Vec::new();
    assert_eq!(overall_score(&none), 10000);
}

#[test]
fn test_constraint_type_labels() {
    assert_eq!(ConstraintType::Wage.label(), "WAGE");
    assert_eq!(ConstraintType::Carbon.label(), "CARBON");
    assert_eq!(ConstraintType::Time.label(), "TIME");
    assert_eq!(ConstraintType::Cost.label(), "COST");
    assert_eq!(ConstraintType::Sanction.label(), "SANCTION");
    assert_eq!(ConstraintType::Mode.label(), "MODE");
    assert_eq!(ConstraintType::Custom.label(), "CUSTOM");
}

#[test]
fn test_engine_cache_update() {
    let mut engine = ConstraintEngine::new();
    let mut route = CandidateRoute::new();
    route.segments.push(segment(0, "A", "B", "SHADY", 2000));
    assert!(engine.check_sanction_constraint(&route).passed);
    let mut cache = ConstraintCache::default();
    cache.sanctioned_carriers.push("SHADY".to_string());
    engine.update_cache(cache);
    assert!(!engine.check_sanction_constraint(&route).passed);
}

#[test]
fn test_recalculate_totals() {
    let mut route = CandidateRoute::new();
    route.segments.push(segment(0, "A", "B", "C1", 2000));
    route.segments.push(segment(1, "B", "C", "C2", 2000));
    assert!(route.recalculate_totals());
    assert_eq!(route.total_cost_usd, 200_0000);
    assert_eq!(route.total_time_hours, 48);
    assert_eq!(route.total_carbon_kg, 100_000_000);
    assert_eq!(route.total_distance_km, 2000);
    assert_eq!(route.labor_score, 8000);

    // An empty route has a zero labor score.
    let mut empty = CandidateRoute::new();
    assert!(empty.recalculate_totals());
    assert_eq!(empty.labor_score, 0);

    // A sum that cannot be represented fails the recomputation.
    let mut broken = CandidateRoute::new();
    let mut s1 = segment(0, "A", "B", "C1", 2000);
    s1.cost_usd = u64::MAX;
    let mut s2 = segment(1, "B", "C", "C2", 2000);
    s2.cost_usd = 1;
    broken.segments.push(s1);
    broken.segments.push(s2);
    assert!(!broken.recalculate_totals());
}
