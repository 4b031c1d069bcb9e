use gitlab_cargo_audit::graph::{DependencyGraph, GraphPackage};
use gitlab_cargo_audit::resolver::resolve;

fn package(name: &str, version: &str, local: bool) -> GraphPackage {
    GraphPackage {
        name: name.to_string(),
        version: version.to_string(),
        source: if local { None } else { Some("registry".to_string()) },
    }
}

fn graph(packages: Vec<GraphPackage>, adjacency: Vec<Vec<usize>>) -> DependencyGraph {
    DependencyGraph { packages, adjacency }
}

#[test]
fn chain_classifies_direct_and_transitive() {
    // a -> b -> c, rooted at a
    let g = graph(
        vec![package("a", "1.0.0", true), package("b", "0.2.0", false), package("c", "3.1.4", false)],
        vec![vec![1], vec![2], vec![]],
    );
    let entries = resolve(&g, 0);
    assert_eq!(entries.len(), 2);
    assert_eq!(entries[0].node, 1);
    assert!(entries[0].direct);
    assert_eq!(entries[0].path, Vec::<usize>::new());
    assert_eq!(entries[1].node, 2);
    assert!(!entries[1].direct);
    assert_eq!(entries[1].path, vec![1]);
}

#[test]
fn each_reachable_node_appears_exactly_once() {
    // diamond: a -> b, a -> c, b -> d, c -> d
    let g = graph(
        vec![
            package("a", "1.0.0", true),
            package("b", "1.0.0", false),
            package("c", "1.0.0", false),
            package("d", "1.0.0", false),
        ],
        vec![vec![1, 2], vec![3], vec![3], vec![]],
    );
    let entries = resolve(&g, 0);
    assert_eq!(entries.len(), 3);
    let nodes: Vec<usize> = entries.iter().map(|e| e.node).collect();
    assert_eq!(nodes, vec![1, 2, 3]);
    // d was discovered through b, the first predecessor dequeued
    assert!(!entries[2].direct);
    assert_eq!(entries[2].path, vec![1]);
    // no path mentions the root or the node itself
    for e in &entries {
        assert!(!e.path.contains(&0));
        assert!(!e.path.contains(&e.node));
    }
}

#[test]
fn direct_is_adjacency_not_discovery_order() {
    // a -> b, b -> c, a -> c: c is reachable transitively through b but is
    // still a direct dependency of a
    let g = graph(
        vec![package("a", "1.0.0", true), package("b", "1.0.0", false), package("c", "1.0.0", false)],
        vec![vec![1, 2], vec![2], vec![]],
    );
    let entries = resolve(&g, 0);
    assert_eq!(entries.len(), 2);
    assert_eq!(entries[1].node, 2);
    assert!(entries[1].direct);
    assert_eq!(entries[1].path, Vec::<usize>::new());
}

#[test]
fn cycle_terminates_and_reports_root_once() {
    // a -> b -> a: the root itself is reachable through the cycle
    let g = graph(
        vec![package("a", "1.0.0", true), package("b", "1.0.0", false)],
        vec![vec![1], vec![0]],
    );
    let entries = resolve(&g, 0);
    assert_eq!(entries.len(), 2);
    assert_eq!(entries[0].node, 0);
    assert!(!entries[0].direct);
    assert_eq!(entries[0].path, vec![1]);
    assert_eq!(entries[1].node, 1);
    assert!(entries[1].direct);
    assert_eq!(entries[1].path, Vec::<usize>::new());
}

#[test]
fn self_loop_root_is_direct_with_empty_path() {
    let g = graph(vec![package("a", "1.0.0", true)], vec![vec![0]]);
    let entries = resolve(&g, 0);
    assert_eq!(entries.len(), 1);
    assert_eq!(entries[0].node, 0);
    assert!(entries[0].direct);
    assert_eq!(entries[0].path, Vec::<usize>::new());
}

#[test]
fn unreachable_nodes_are_left_out() {
    // c is in the graph but nothing leads to it from a
    let g = graph(
        vec![package("a", "1.0.0", true), package("b", "1.0.0", false), package("c", "1.0.0", false)],
        vec![vec![1], vec![], vec![]],
    );
    let entries = resolve(&g, 0);
    assert_eq!(entries.len(), 1);
    assert_eq!(entries[0].node, 1);
}

#[test]
fn resolution_is_idempotent() {
    let g = graph(
        vec![
            package("a", "1.0.0", true),
            package("b", "1.0.0", false),
            package("c", "1.0.0", false),
            package("d", "1.0.0", false),
        ],
        vec![vec![1, 2], vec![3], vec![3], vec![1]],
    );
    let first = resolve(&g, 0);
    let second = resolve(&g, 0);
    assert_eq!(first.len(), second.len());
    for (x, y) in first.iter().zip(second.iter()) {
        assert_eq!(x.node, y.node);
        assert_eq!(x.direct, y.direct);
        assert_eq!(x.path, y.path);
    }
}

#[test]
fn duplicate_edges_do_not_duplicate_entries() {
    let g = graph(
        vec![package("a", "1.0.0", true), package("b", "1.0.0", false)],
        vec![vec![1, 1], vec![]],
    );
    let entries = resolve(&g, 0);
    assert_eq!(entries.len(), 1);
    assert_eq!(entries[0].node, 1);
    assert!(entries[0].direct);
}

#[test]
fn empty_root_yields_no_dependencies() {
    let g = graph(vec![package("a", "1.0.0", true)], vec![vec![]]);
    let entries = resolve(&g, 0);
    assert!(entries.is_empty());
}
