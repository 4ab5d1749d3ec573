use rust_routing::constraints::ConstraintEngine;
use rust_routing::load::{build_graph, EdgeRecord, NodeRecord};
use rust_routing::optimizer::Optimizer;
use rust_routing::routes::OptimizeRequest;

fn node_rec(code: &str, modes: Vec<&str>) -> NodeRecord {
    NodeRecord {
        id: format!("node-{code}"),
        code: code.to_string(),
        name: code.to_string(),
        country_code: "AA".to_string(),
        lat: 1_000_000,
        lon: 2_000_000,
        modes: modes.into_iter().map(|m| m.to_string()).collect(),
        avg_dwell_hours: None,
    }
}

fn edge_rec(from: &str, to: &str, mode: &str) -> EdgeRecord {
    EdgeRecord {
        id: format!("edge-{from}-{to}"),
        code: format!("{from}-{to}"),
        from_code: from.to_string(),
        to_code: to.to_string(),
        carrier_code: "CARR".to_string(),
        carrier_name: "Carrier".to_string(),
        mode: mode.to_string(),
        distance_km: 500,
        base_cost_usd: 100_0000,
        cost_per_kg: None,
        transit_hours: 12,
        carbon_per_tonne_km: 20,
        wage_cents: None,
        safety_rating: None,
        unionized: None,
        sanctioned: None,
        active: None,
    }
}

#[test]
fn test_build_graph_from_records() {
    let nodes = vec![
        node_rec("AAAAA", vec!["maritime", "RAIL", "warp"]),
        node_rec("BBBBB", vec!["road"]),
    ];
    let edges = vec![
        edge_rec("AAAAA", "BBBBB", "rail"),
        edge_rec("AAAAA", "BBBBB", "warp"),  // unknown mode: skipped
        edge_rec("AAAAA", "ZZZZZ", "road"),  // unknown endpoint: dropped
    ];
    let graph = build_graph(&nodes, &edges);
    assert_eq!(graph.node_count(), 2);
    assert_eq!(graph.edge_count(), 1);

    // Unknown mode names inside a node's list are skipped, the node kept.
    let a = graph.get_node("AAAAA").expect("node bound");
    assert_eq!(a.modes.len(), 2);
    // The dwell default applies when the source gives none.
    assert_eq!(a.avg_dwell_hours, 24);

    // Defaults for optional carrier attributes.
    let es = graph.edges();
    assert_eq!(es[0].cost_per_kg, 0);
    assert_eq!(es[0].carrier_wage_cents, 1500);
    assert_eq!(es[0].carrier_safety_rating, 3);
    assert!(!es[0].carrier_unionized);
    assert!(!es[0].carrier_sanctioned);
    assert!(es[0].active);
}

#[test]
fn test_built_graph_serves_requests() {
    let nodes = vec![node_rec("AAAAA", vec!["road"]), node_rec("BBBBB", vec!["road"])];
    let edges = vec![edge_rec("AAAAA", "BBBBB", "ROAD")];
    let mut graph = build_graph(&nodes, &edges);
    graph.set_load_info(1000, 25);
    assert_eq!(graph.loaded_at, 1000);
    assert_eq!(graph.load_time_ms, 25);

    let mut req = OptimizeRequest::default();
    req.origin_code = "AAAAA".to_string();
    req.destination_code = "BBBBB".to_string();
    req.pickup_after = 0;
    req.deliver_by = 100;
    let optimizer = Optimizer::new(ConstraintEngine::new());
    let result = optimizer.optimize(&graph, &req);
    assert_eq!(result.routes.len(), 1);
    assert_eq!(result.routes[0].segments[0].carrier_code, "CARR");
}
