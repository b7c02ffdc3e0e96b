use codeskel::graph::DepGraph;
use std::collections::HashMap;

#[test]
fn test_simple_topo() {
    let mut g = DepGraph::new();
    g.add_node("A"); g.add_node("B"); g.add_node("C");
    g.add_edge("C", "B"); // C depends on B
    g.add_edge("B", "A"); // B depends on A
    let (order, cycles) = g.topo_sort();
    assert!(cycles.is_empty(), "no cycles expected");
    assert_eq!(order.len(), 3);
    let pos: HashMap<_, _> = order.iter().enumerate().map(|(i, n)| (n.clone(), i)).collect();
    // A before B (B depends on A)
    assert!(pos["A"] < pos["B"], "A must come before B");
    // B before C (C depends on B)
    assert!(pos["B"] < pos["C"], "B must come before C");
}

#[test]
fn test_cycle_detection() {
    let mut g = DepGraph::new();
    g.add_node("A"); g.add_node("B");
    g.add_edge("A", "B");
    g.add_edge("B", "A");
    let (order, cycles) = g.topo_sort();
    assert!(!cycles.is_empty(), "should detect cycle");
    assert_eq!(order.len(), 2, "all nodes should appear in output");
}

#[test]
fn test_independent_nodes() {
    let mut g = DepGraph::new();
    g.add_node("X"); g.add_node("Y"); g.add_node("Z");
    let (order, cycles) = g.topo_sort();
    assert!(cycles.is_empty());
    assert_eq!(order.len(), 3);
}

#[test]
fn test_diamond_dependency() {
    // D depends on B and C, both depend on A
    let mut g = DepGraph::new();
    g.add_edge("D", "B");
    g.add_edge("D", "C");
    g.add_edge("B", "A");
    g.add_edge("C", "A");
    let (order, cycles) = g.topo_sort();
    assert!(cycles.is_empty(), "diamond has no cycle");
    assert_eq!(order.len(), 4);
    let pos: HashMap<_, _> = order.iter().enumerate().map(|(i, n)| (n.clone(), i)).collect();
    assert!(pos["A"] < pos["B"]);
    assert!(pos["A"] < pos["C"]);
    assert!(pos["B"] < pos["D"] || pos["C"] < pos["D"]);
}

#[test]
fn test_single_node() {
    let mut g = DepGraph::new();
    g.add_node("A");
    let (order, cycles) = g.topo_sort();
    assert!(cycles.is_empty());
    assert_eq!(order, vec!["A"]);
}

#[test]
fn ties_are_broken_by_name() {
    let mut g = DepGraph::new();
    g.add_node("b"); g.add_node("c"); g.add_node("a");
    let (order, _) = g.topo_sort();
    assert_eq!(order, vec!["a", "b", "c"]);
}

#[test]
fn adding_a_node_twice_keeps_one() {
    let mut g = DepGraph::new();
    g.add_node("A");
    g.add_node("A");
    g.add_edge("A", "B");
    g.add_edge("A", "B");
    assert_eq!(g.nodes.len(), 2);
    assert_eq!(g.edges.len(), 1);
}

#[test]
fn a_broken_cycle_is_reported_once() {
    let mut g = DepGraph::new();
    g.add_edge("A", "B");
    g.add_edge("B", "C");
    g.add_edge("C", "A");
    let (order, cycles) = g.topo_sort();
    assert_eq!(order.len(), 3);
    assert_eq!(cycles.len(), 1);
}

#[test]
fn two_node_cycle_is_broken_at_the_last_name() {
    let mut g = DepGraph::new();
    g.add_edge("A", "B");
    g.add_edge("B", "A");
    let (order, cycles) = g.topo_sort();
    assert_eq!(cycles, vec![("B".to_string(), "A".to_string())]);
    assert_eq!(order, vec!["B".to_string(), "A".to_string()]);
}

#[test]
fn graphs_built_in_any_order_sort_alike() {
    let mut g1 = DepGraph::new();
    g1.add_node("D");
    g1.add_edge("A", "B");
    g1.add_edge("B", "C");
    g1.add_edge("C", "A");
    g1.add_edge("D", "C");
    let mut g2 = DepGraph::new();
    g2.add_edge("D", "C");
    g2.add_edge("C", "A");
    g2.add_edge("B", "C");
    g2.add_edge("A", "B");
    g2.add_node("D");
    assert_eq!(g1.topo_sort(), g2.topo_sort());
}
