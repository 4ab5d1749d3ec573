use rust_routing::constraints::{ConstraintCache, ConstraintEngine, ConstraintType};
use rust_routing::graph::{TransportEdge, TransportGraph, TransportNode};
use rust_routing::modes::TransportMode;
use rust_routing::optimizer::Optimizer;
use rust_routing::routes::{CandidateRoute, OptimizeRequest};
use rust_routing::wire::{route_from_wire, route_to_wire};

fn node(code: &str, country: &str) -> TransportNode {
    TransportNode {
        id: format!("node-{code}"),
        code: code.to_string(),
        name: code.to_string(),
        country_code: country.to_string(),
        lat: 0,
        lon: 0,
        modes: vec![TransportMode::Maritime, TransportMode::Rail, TransportMode::Road],
        avg_dwell_hours: 24,
    }
}

fn edge(
    code: &str,
    mode: TransportMode,
    carrier: &str,
    base_cost_usd: u64,
    transit_hours: u64,
    sanctioned: bool,
) -> TransportEdge {
    TransportEdge {
        id: format!("edge-{code}"),
        code: code.to_string(),
        mode,
        carrier_code: carrier.to_string(),
        carrier_name: carrier.to_string(),
        distance_km: 1000,
        base_cost_usd,
        cost_per_kg: 0,
        transit_hours,
        carbon_per_tonne_km: 20,
        carrier_wage_cents: 2500,
        carrier_safety_rating: 4,
        carrier_unionized: true,
        carrier_sanctioned: sanctioned,
        active: true,
    }
}

fn s1_graph() -> TransportGraph {
    let mut graph = TransportGraph::new();
    graph.add_node(node("CNSHA", "CN"));
    graph.add_node(node("NLRTM", "NL"));
    let mut e = edge("CNSHA-NLRTM-M", TransportMode::Maritime, "MAEU", 5000_0000, 672, false);
    e.distance_km = 19500;
    e.cost_per_kg = 100; // one cent per kilogram
    e.carbon_per_tonne_km = 15;
    assert!(graph.add_edge("CNSHA", "NLRTM", e));
    graph
}

fn s1_request() -> OptimizeRequest {
    let mut req = OptimizeRequest::default();
    req.origin_code = "CNSHA".to_string();
    req.destination_code = "NLRTM".to_string();
    req.weight_kg = 10000;
    req.pickup_after = 0;
    req.deliver_by = 720;
    req
}

#[test]
fn test_pareto_dominance() {
    let optimizer = Optimizer::new(ConstraintEngine::new());

    let route_a = CandidateRoute {
        total_cost_usd: 100_0000,
        total_time_hours: 10,
        total_carbon_kg: 50_000_000,
        labor_score: 8000,
        ..CandidateRoute::new()
    };

    let route_b = CandidateRoute {
        total_cost_usd: 150_0000,
        total_time_hours: 15,
        total_carbon_kg: 60_000_000,
        labor_score: 7000,
        ..CandidateRoute::new()
    };

    assert!(optimizer.dominates(&route_a, &route_b));
    assert!(!optimizer.dominates(&route_b, &route_a));
}

#[test]
fn test_single_maritime_route() {
    let graph = s1_graph();
    let optimizer = Optimizer::new(ConstraintEngine::new());
    let result = optimizer.optimize(&graph, &s1_request());

    assert_eq!(result.routes.len(), 1);
    let route = &result.routes[0];
    assert_eq!(route.segments.len(), 1);
    assert_eq!(route.total_cost_usd, 5100_0000);
    assert_eq!(route.total_time_hours, 672);
    assert_eq!(route.total_carbon_kg, 2_925_000_000);
    assert_eq!(route.total_distance_km, 19500);
    // wage 2500 against the 1500-cent placeholder: 8333; safety 8000; union full
    assert_eq!(route.labor_score, (4 * 8333 + 4 * 8000 + 2 * 10000) / 10);
    assert_eq!(route.pareto_rank, 1);
    assert!(route.pareto_optimal);
    assert_eq!(route.segments[0].from_node, "CNSHA");
    assert_eq!(route.segments[0].to_node, "NLRTM");
    assert_eq!(route.segments[0].departure_time, 0);
    assert_eq!(route.segments[0].arrival_time, 672);
    assert!(result.candidates_evaluated >= 1);
}

#[test]
fn test_sanctioned_edge_never_returned() {
    let mut graph = s1_graph();
    let fast = edge("CNSHA-NLRTM-A", TransportMode::Air, "SANCO", 100_0000, 20, true);
    assert!(graph.add_edge("CNSHA", "NLRTM", fast));

    let optimizer = Optimizer::new(ConstraintEngine::new());
    let result = optimizer.optimize(&graph, &s1_request());

    assert!(!result.routes.is_empty());
    for route in &result.routes {
        for seg in &route.segments {
            assert_ne!(seg.carrier_code, "SANCO");
            assert_ne!(seg.mode, TransportMode::Air);
        }
    }
}

#[test]
fn test_two_leg_chain_with_transfer() {
    let mut graph = TransportGraph::new();
    graph.add_node(node("AAAAA", "AA"));
    graph.add_node(node("BBBBB", "BB"));
    graph.add_node(node("CCCCC", "CC"));
    assert!(graph.add_edge("AAAAA", "BBBBB", edge("ab", TransportMode::Road, "ROADCO", 100_0000, 10, false)));
    assert!(graph.add_edge("BBBBB", "CCCCC", edge("bc", TransportMode::Rail, "RAILCO", 200_0000, 20, false)));

    let mut req = OptimizeRequest::default();
    req.origin_code = "AAAAA".to_string();
    req.destination_code = "CCCCC".to_string();
    req.weight_kg = 1000;
    req.pickup_after = 0;
    req.deliver_by = 500;
    req.max_segments = 2;
    req.allowed_modes = vec![TransportMode::Road, TransportMode::Rail];

    let optimizer = Optimizer::new(ConstraintEngine::new());
    let result = optimizer.optimize(&graph, &req);

    assert_eq!(result.routes.len(), 1);
    let route = &result.routes[0];
    assert_eq!(route.segments.len(), 2);
    assert_eq!(route.segments[0].from_node, "AAAAA");
    assert_eq!(route.segments[0].to_node, "BBBBB");
    assert_eq!(route.segments[1].from_node, "BBBBB");
    assert_eq!(route.segments[1].to_node, "CCCCC");
    // Road to Rail carries a six-hour dwell.
    assert!(route.segments[1].departure_time - route.segments[0].arrival_time >= 6);
}

#[test]
fn test_window_smaller_than_transit_yields_nothing() {
    let graph = s1_graph();
    let mut req = s1_request();
    req.deliver_by = 100; // the single leg needs 672 hours
    let optimizer = Optimizer::new(ConstraintEngine::new());
    let result = optimizer.optimize(&graph, &req);
    assert!(result.routes.is_empty());
    assert_eq!(result.candidates_evaluated, 0);
}

#[test]
fn test_two_pareto_optimal_routes_ordered_by_score() {
    let mut graph = TransportGraph::new();
    graph.add_node(node("AAAAA", "AA"));
    graph.add_node(node("DDDDD", "DD"));
    // A cheap slow leg and a dear fast leg: neither dominates the other.
    assert!(graph.add_edge("AAAAA", "DDDDD", edge("slow", TransportMode::Maritime, "SLOWCO", 1000_0000, 100, false)));
    assert!(graph.add_edge("AAAAA", "DDDDD", edge("fast", TransportMode::Rail, "FASTCO", 2000_0000, 50, false)));

    let mut req = OptimizeRequest::default();
    req.origin_code = "AAAAA".to_string();
    req.destination_code = "DDDDD".to_string();
    req.weight_kg = 1000;
    req.pickup_after = 0;
    req.deliver_by = 500;

    let optimizer = Optimizer::new(ConstraintEngine::new());
    let result = optimizer.optimize(&graph, &req);

    assert_eq!(result.routes.len(), 2);
    assert!(result.routes.iter().all(|r| r.pareto_rank == 1 && r.pareto_optimal));
    // Under the default weights the cheap leg scores lower (better).
    assert_eq!(result.routes[0].total_cost_usd, 1000_0000);
    assert_eq!(result.routes[1].total_cost_usd, 2000_0000);
    assert!(result.routes[0].weighted_score <= result.routes[1].weighted_score);
}

#[test]
fn test_soft_cost_budget_fails_but_route_returned() {
    let graph = s1_graph();
    let mut req = s1_request();
    req.max_cost_usd = Some(1000_0000); // below the 5100-dollar minimum
    let optimizer = Optimizer::new(ConstraintEngine::new());
    let result = optimizer.optimize(&graph, &req);

    assert_eq!(result.routes.len(), 1);
    let route = &result.routes[0];
    let cost_result = route
        .constraint_results
        .iter()
        .find(|c| c.constraint_type == ConstraintType::Cost)
        .expect("cost result present");
    assert!(!cost_result.passed);
    assert!(!cost_result.is_hard);
    assert_eq!(cost_result.score, 0);
}

#[test]
fn test_optimize_twice_same_payloads() {
    let mut graph = TransportGraph::new();
    graph.add_node(node("AAAAA", "AA"));
    graph.add_node(node("BBBBB", "BB"));
    graph.add_node(node("DDDDD", "DD"));
    assert!(graph.add_edge("AAAAA", "DDDDD", edge("slow", TransportMode::Maritime, "SLOWCO", 1000_0000, 100, false)));
    assert!(graph.add_edge("AAAAA", "BBBBB", edge("ab", TransportMode::Road, "ROADCO", 300_0000, 30, false)));
    assert!(graph.add_edge("BBBBB", "DDDDD", edge("bd", TransportMode::Rail, "RAILCO", 300_0000, 30, false)));

    let mut req = OptimizeRequest::default();
    req.origin_code = "AAAAA".to_string();
    req.destination_code = "DDDDD".to_string();
    req.weight_kg = 1000;
    req.pickup_after = 0;
    req.deliver_by = 1000;

    let optimizer = Optimizer::new(ConstraintEngine::new());
    let first = optimizer.optimize(&graph, &req);
    let second = optimizer.optimize(&graph, &req);

    assert_eq!(first.candidates_evaluated, second.candidates_evaluated);
    assert_eq!(first.routes.len(), second.routes.len());
    for (a, b) in first.routes.iter().zip(second.routes.iter()) {
        // Route identifiers are fresh per run; the payloads must agree.
        assert_eq!(a.total_cost_usd, b.total_cost_usd);
        assert_eq!(a.total_time_hours, b.total_time_hours);
        assert_eq!(a.total_carbon_kg, b.total_carbon_kg);
        assert_eq!(a.total_distance_km, b.total_distance_km);
        assert_eq!(a.labor_score, b.labor_score);
        assert_eq!(a.pareto_rank, b.pareto_rank);
        assert_eq!(a.pareto_optimal, b.pareto_optimal);
        assert_eq!(a.weighted_score, b.weighted_score);
        assert_eq!(a.segments.len(), b.segments.len());
        for (sa, sb) in a.segments.iter().zip(b.segments.iter()) {
            assert_eq!(sa.from_node, sb.from_node);
            assert_eq!(sa.to_node, sb.to_node);
            assert_eq!(sa.mode, sb.mode);
            assert_eq!(sa.carrier_code, sb.carrier_code);
            assert_eq!(sa.cost_usd, sb.cost_usd);
            assert_eq!(sa.departure_time, sb.departure_time);
            assert_eq!(sa.arrival_time, sb.arrival_time);
        }
    }
}

#[test]
fn test_unknown_codes_yield_empty_result() {
    let graph = s1_graph();
    let optimizer = Optimizer::new(ConstraintEngine::new());
    let mut req = s1_request();
    req.origin_code = "NOPE1".to_string();
    let result = optimizer.optimize(&graph, &req);
    assert!(result.routes.is_empty());
    assert_eq!(result.candidates_evaluated, 0);
}

#[test]
fn test_hard_wage_constraint_filters_routes() {
    let graph = s1_graph();
    let mut cache = ConstraintCache::default();
    // The leg ends at NLRTM; demand more than the carrier pays.
    cache.min_wages.push(("NLRTM".to_string(), 3000));
    let optimizer = Optimizer::new(ConstraintEngine::with_cache(cache));
    let result = optimizer.optimize(&graph, &s1_request());
    assert!(result.routes.is_empty());
    assert!(result.candidates_evaluated >= 1);
}

#[test]
fn test_route_ids_are_fresh() {
    let a = CandidateRoute::new();
    let b = CandidateRoute::new();
    assert_eq!(a.route_id.len(), 36);
    assert_eq!(b.route_id.len(), 36);
    assert_ne!(a.route_id, b.route_id);
}

#[test]
fn test_wire_round_trip() {
    let graph = s1_graph();
    let optimizer = Optimizer::new(ConstraintEngine::new());
    let result = optimizer.optimize(&graph, &s1_request());
    let route = &result.routes[0];

    let wire = route_to_wire(route);
    assert_eq!(wire.segments[0].mode, "MARITIME");
    assert_eq!(wire.constraint_results.len(), route.constraint_results.len());

    let back = route_from_wire(&wire).expect("round trip parses");
    assert_eq!(back.route_id, route.route_id);
    assert_eq!(back.total_cost_usd, route.total_cost_usd);
    assert_eq!(back.total_time_hours, route.total_time_hours);
    assert_eq!(back.total_carbon_kg, route.total_carbon_kg);
    assert_eq!(back.total_distance_km, route.total_distance_km);
    assert_eq!(back.labor_score, route.labor_score);
    assert_eq!(back.pareto_rank, route.pareto_rank);
    assert_eq!(back.pareto_optimal, route.pareto_optimal);
    assert_eq!(back.weighted_score, route.weighted_score);
    assert_eq!(back.segments.len(), route.segments.len());
    for (sa, sb) in back.segments.iter().zip(route.segments.iter()) {
        assert_eq!(sa.segment_id, sb.segment_id);
        assert_eq!(sa.sequence, sb.sequence);
        assert_eq!(sa.from_node, sb.from_node);
        assert_eq!(sa.to_node, sb.to_node);
        assert_eq!(sa.mode, sb.mode);
        assert_eq!(sa.carrier_code, sb.carrier_code);
        assert_eq!(sa.cost_usd, sb.cost_usd);
        assert_eq!(sa.transit_hours, sb.transit_hours);
        assert_eq!(sa.carbon_kg, sb.carbon_kg);
        assert_eq!(sa.labor_score, sb.labor_score);
        assert_eq!(sa.departure_time, sb.departure_time);
        assert_eq!(sa.arrival_time, sb.arrival_time);
    }
}

#[test]
fn test_excluded_carrier_not_returned() {
    let mut graph = s1_graph();
    assert!(graph.add_edge(
        "CNSHA",
        "NLRTM",
        edge("alt", TransportMode::Rail, "ALTCO", 4000_0000, 300, false)
    ));
    let mut req = s1_request();
    req.excluded_carriers = vec!["MAEU".to_string()];
    let optimizer = Optimizer::new(ConstraintEngine::new());
    let result = optimizer.optimize(&graph, &req);
    assert!(!result.routes.is_empty());
    for route in &result.routes {
        for seg in &route.segments {
            assert_ne!(seg.carrier_code, "MAEU");
        }
    }
}

#[test]
fn test_max_routes_truncation() {
    let mut graph = TransportGraph::new();
    graph.add_node(node("AAAAA", "AA"));
    graph.add_node(node("DDDDD", "DD"));
    for i in 0..5u64 {
        let e = edge(&format!("par{i}"), TransportMode::Road, &format!("CO{i}"), 100_0000 + i * 10_0000, 10 + i, false);
        assert!(graph.add_edge("AAAAA", "DDDDD", e));
    }
    let mut req = OptimizeRequest::default();
    req.origin_code = "AAAAA".to_string();
    req.destination_code = "DDDDD".to_string();
    req.pickup_after = 0;
    req.deliver_by = 500;
    req.max_routes = 2;
    let optimizer = Optimizer::new(ConstraintEngine::new());
    let result = optimizer.optimize(&graph, &req);
    assert_eq!(result.routes.len(), 2);
    // The list is ordered by weighted score.
    assert!(result.routes[0].weighted_score <= result.routes[1].weighted_score);
}
