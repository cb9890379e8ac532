use takopack::graph::{graph_from_succ, succ_proj, succ_to_pred, topo_sort};

#[test]
fn predecessors_of_a_graph() {
    let succ = vec![vec![1, 2, 2], vec![2], vec![]];
    assert_eq!(succ_to_pred(&succ), vec![vec![], vec![0], vec![0, 1]]);
}

#[test]
fn topological_order_from_seed() {
    let succ = vec![vec![1, 2], vec![2], vec![], vec![]];
    let pred = succ_to_pred(&succ);
    assert_eq!(topo_sort(&vec![0, 3], &succ, pred).unwrap(), vec![0, 3, 1, 2]);
}

#[test]
fn cycle_leaves_predecessors() {
    let succ = vec![vec![1], vec![2], vec![1]];
    let pred = succ_to_pred(&succ);
    let rem = topo_sort(&vec![0], &succ, pred).unwrap_err();
    assert_eq!(rem, vec![(1, vec![2]), (2, vec![1])]);
}

#[test]
fn projected_graph() {
    let succ = vec![vec![1, 2], vec![2], vec![0]];
    let proj = vec![0, 0, 1];
    assert_eq!(succ_proj(&succ, &proj, 2), vec![vec![0, 1], vec![0]]);
}

#[test]
fn reachable_graph_breadth_first() {
    let hard = vec![vec![1], vec![2], vec![], vec![], vec![]];
    let soft = vec![vec![3], vec![], vec![0], vec![], vec![]];
    let g = graph_from_succ(&vec![0, 0], &hard, &soft);
    let nodes: Vec<usize> = g.iter().map(|e| e.0).collect();
    assert_eq!(nodes, vec![0, 1, 3, 2]);
    assert_eq!(g[0].1, vec![1]);
}
