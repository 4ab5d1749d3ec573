use rust_routing::graph::{TransportEdge, TransportGraph, TransportNode};
use rust_routing::modes::{parse_mode, TransportMode};

fn edge(code: &str, mode: TransportMode, carrier: &str) -> TransportEdge {
    TransportEdge {
        id: format!("edge-{code}"),
        code: code.to_string(),
        mode,
        carrier_code: carrier.to_string(),
        carrier_name: carrier.to_string(),
        distance_km: 1000,
        base_cost_usd: 1_000_0000,
        cost_per_kg: 0,
        transit_hours: 24,
        carbon_per_tonne_km: 20,
        carrier_wage_cents: 2000,
        carrier_safety_rating: 4,
        carrier_unionized: true,
        carrier_sanctioned: false,
        active: true,
    }
}

fn node(code: &str, name: &str, country: &str) -> TransportNode {
    TransportNode {
        id: format!("node-{code}"),
        code: code.to_string(),
        name: name.to_string(),
        country_code: country.to_string(),
        lat: 0,
        lon: 0,
        modes: vec![TransportMode::Maritime],
        avg_dwell_hours: 24,
    }
}

#[test]
fn test_create_graph() {
    let mut graph = TransportGraph::new();

    let shanghai = TransportNode {
        id: "node-1".to_string(),
        code: "CNSHA".to_string(),
        name: "Shanghai".to_string(),
        country_code: "CN".to_string(),
        lat: 31_230_400,
        lon: 121_473_700,
        modes: vec![TransportMode::Maritime, TransportMode::Rail],
        avg_dwell_hours: 24,
    };

    let rotterdam = TransportNode {
        id: "node-2".to_string(),
        code: "NLRTM".to_string(),
        name: "Rotterdam".to_string(),
        country_code: "NL".to_string(),
        lat: 51_922_500,
        lon: 4_479_200,
        modes: vec![TransportMode::Maritime, TransportMode::Rail, TransportMode::Road],
        avg_dwell_hours: 18,
    };

    graph.add_node(shanghai);
    graph.add_node(rotterdam);

    let edge = TransportEdge {
        id: "edge-1".to_string(),
        code: "CNSHA-NLRTM-M".to_string(),
        mode: TransportMode::Maritime,
        carrier_code: "MAEU".to_string(),
        carrier_name: "Maersk".to_string(),
        distance_km: 19500,
        base_cost_usd: 5000_0000,
        cost_per_kg: 100,
        transit_hours: 672,
        carbon_per_tonne_km: 15,
        carrier_wage_cents: 2500,
        carrier_safety_rating: 4,
        carrier_unionized: true,
        carrier_sanctioned: false,
        active: true,
    };

    assert!(graph.add_edge("CNSHA", "NLRTM", edge));
    assert_eq!(graph.node_count(), 2);
    assert_eq!(graph.edge_count(), 1);
}

#[test]
fn test_add_edge_unknown_endpoint_fails() {
    let mut graph = TransportGraph::new();
    graph.add_node(node("AAAAA", "A", "AA"));
    let e = edge("X", TransportMode::Road, "CARR");
    assert!(!graph.add_edge("AAAAA", "ZZZZZ", e));
    assert_eq!(graph.edge_count(), 0);
}

#[test]
fn test_get_node_and_index() {
    let mut graph = TransportGraph::new();
    graph.add_node(node("AAAAA", "A", "AA"));
    graph.add_node(node("BBBBB", "B", "BB"));
    assert_eq!(graph.get_node_index("AAAAA"), Some(0));
    assert_eq!(graph.get_node_index("BBBBB"), Some(1));
    assert_eq!(graph.get_node_index("CCCCC"), None);
    assert_eq!(graph.get_node("BBBBB").unwrap().name, "B");
    assert!(graph.get_node("CCCCC").is_none());
}

#[test]
fn test_duplicate_code_replaces_binding() {
    let mut graph = TransportGraph::new();
    graph.add_node(node("AAAAA", "first", "AA"));
    graph.add_node(node("AAAAA", "second", "AA"));
    assert_eq!(graph.get_node_index("AAAAA"), Some(1));
    assert_eq!(graph.get_node("AAAAA").unwrap().name, "second");
}

#[test]
fn test_edge_count_by_mode() {
    let mut graph = TransportGraph::new();
    graph.add_node(node("AAAAA", "A", "AA"));
    graph.add_node(node("BBBBB", "B", "BB"));
    assert!(graph.add_edge("AAAAA", "BBBBB", edge("e1", TransportMode::Maritime, "C1")));
    assert!(graph.add_edge("AAAAA", "BBBBB", edge("e2", TransportMode::Road, "C2")));
    assert!(graph.add_edge("BBBBB", "AAAAA", edge("e3", TransportMode::Road, "C3")));
    let counts = graph.edge_count_by_mode();
    assert_eq!(counts.maritime, 1);
    assert_eq!(counts.road, 2);
    assert_eq!(counts.rail, 0);
    assert_eq!(counts.air, 0);
}

#[test]
fn test_edges_from() {
    let mut graph = TransportGraph::new();
    graph.add_node(node("AAAAA", "A", "AA"));
    graph.add_node(node("BBBBB", "B", "BB"));
    assert!(graph.add_edge("AAAAA", "BBBBB", edge("e1", TransportMode::Rail, "C1")));
    let out = graph.edges_from("AAAAA");
    assert_eq!(out.len(), 1);
    assert_eq!(out[0].0.code, "BBBBB");
    assert_eq!(out[0].1.carrier_code, "C1");
    assert!(graph.edges_from("BBBBB").is_empty());
    assert!(graph.edges_from("ZZZZZ").is_empty());
}

#[test]
fn test_nodes_and_edges_listing() {
    let mut graph = TransportGraph::new();
    graph.add_node(node("AAAAA", "A", "AA"));
    graph.add_node(node("BBBBB", "B", "BB"));
    assert!(graph.add_edge("AAAAA", "BBBBB", edge("e1", TransportMode::Air, "C1")));
    let nodes = graph.nodes();
    assert_eq!(nodes.len(), 2);
    assert_eq!(nodes[0].code, "AAAAA");
    let edges = graph.edges();
    assert_eq!(edges.len(), 1);
    assert_eq!(edges[0].mode, TransportMode::Air);
}

#[test]
fn test_parse_mode_names() {
    assert_eq!(parse_mode("MARITIME"), Some(TransportMode::Maritime));
    assert_eq!(parse_mode("maritime"), Some(TransportMode::Maritime));
    assert_eq!(parse_mode("RaIl"), Some(TransportMode::Rail));
    assert_eq!(parse_mode("road"), Some(TransportMode::Road));
    assert_eq!(parse_mode("AIR"), Some(TransportMode::Air));
    assert_eq!(parse_mode("HYPERLOOP"), None);
    assert_eq!(parse_mode(""), None);
}

#[test]
fn test_mode_transfer_hours() {
    let (m, r, d, a) = (
        TransportMode::Maritime,
        TransportMode::Rail,
        TransportMode::Road,
        TransportMode::Air,
    );
    assert_eq!(m.mode_transfer_hours(&r), 24);
    assert_eq!(r.mode_transfer_hours(&m), 24);
    assert_eq!(m.mode_transfer_hours(&d), 12);
    assert_eq!(d.mode_transfer_hours(&r), 6);
    assert_eq!(a.mode_transfer_hours(&m), 4);
    assert_eq!(r.mode_transfer_hours(&a), 4);
    assert_eq!(d.mode_transfer_hours(&d), 2);
}

#[test]
fn test_default_carbon_factors() {
    assert_eq!(TransportMode::Maritime.default_carbon_factor(), 20);
    assert_eq!(TransportMode::Rail.default_carbon_factor(), 25);
    assert_eq!(TransportMode::Road.default_carbon_factor(), 100);
    assert_eq!(TransportMode::Air.default_carbon_factor(), 800);
}

#[test]
fn test_edge_cost_carbon_labor() {
    let mut e = edge("e", TransportMode::Maritime, "C");
    e.distance_km = 19500;
    e.base_cost_usd = 5000_0000;
    e.cost_per_kg = 100; // one cent per kilogram
    e.carbon_per_tonne_km = 15;
    e.carrier_wage_cents = 2500;
    // 5000 USD + 0.01 * 10000 = 5100 USD
    assert_eq!(e.calculate_cost(10000), Some(5100_0000));
    // 19500 km * 10 t * 15 g = 2925 kg, in milligrams
    assert_eq!(e.calculate_carbon(10000), Some(2_925_000_000));
    // wage part 2500/(2*1500) capped at one: 8333; safety 4/5: 8000; union: 10000
    assert_eq!(e.labor_score(1500), (4 * 8333 + 4 * 8000 + 2 * 10000) / 10);
    // a zero country minimum falls back to one half
    let half = e.labor_score(0);
    assert_eq!(half, (4 * 5000 + 4 * 8000 + 2 * 10000) / 10);
}

#[test]
fn test_edge_cost_overflow_is_reported() {
    let mut e = edge("e", TransportMode::Maritime, "C");
    e.base_cost_usd = u64::MAX;
    e.cost_per_kg = 1;
    assert_eq!(e.calculate_cost(1), None);
    e.base_cost_usd = 0;
    e.cost_per_kg = u64::MAX;
    assert_eq!(e.calculate_cost(2), None);
    let mut c = edge("c", TransportMode::Air, "C");
    c.distance_km = u64::MAX;
    c.carbon_per_tonne_km = 0;
    assert_eq!(c.calculate_carbon(u64::MAX), Some(0));
    c.carbon_per_tonne_km = 2;
    assert_eq!(c.calculate_carbon(u64::MAX), None);
}
