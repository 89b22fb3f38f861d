use circuit_bench::graph::single_component;

#[test]
fn a_chain_is_one_component() {
    assert!(single_component(3, &vec![(0, 1), (1, 2)]));
    assert!(single_component(4, &vec![(2, 3), (0, 1), (1, 2)]));
}

#[test]
fn a_node_left_apart_breaks_the_component() {
    assert!(!single_component(3, &vec![(0, 1)]));
    assert!(!single_component(4, &vec![(0, 1), (2, 3)]));
    assert!(!single_component(2, &vec![]));
}

#[test]
fn repeated_and_reversed_edges_add_nothing() {
    assert!(!single_component(3, &vec![(0, 1), (1, 0), (0, 1)]));
    assert!(single_component(3, &vec![(0, 1), (1, 0), (2, 0)]));
}

#[test]
fn a_loop_joins_nothing() {
    assert!(!single_component(2, &vec![(0, 0), (1, 1)]));
    assert!(single_component(1, &vec![(0, 0)]));
}

#[test]
fn no_nodes_and_one_node_are_connected() {
    assert!(single_component(0, &vec![]));
    assert!(single_component(1, &vec![]));
}

#[test]
fn a_star_is_one_component() {
    let edges: Vec<(usize, usize)> = (1..50).map(|leaf| (0, leaf)).collect();
    assert!(single_component(50, &edges));
    assert!(!single_component(51, &edges));
}
