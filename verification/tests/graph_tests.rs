use branches::divergence::ahead_behind;
use branches::graph::AncestryGraph;
use branches::policy::is_fast_forward;
use branches::target::RefTarget;

/// A chain 0 <- 1 <- 2 and a side branch 3 whose parent is 0.
fn sample_graph() -> AncestryGraph {
    let mut g = AncestryGraph::new();
    let c0 = g.add_commit(vec![]);
    let c1 = g.add_commit(vec![c0]);
    let c2 = g.add_commit(vec![c1]);
    let c3 = g.add_commit(vec![c0]);
    assert_eq!((c0, c1, c2, c3), (0, 1, 2, 3));
    g
}

#[test]
fn ancestry_is_reflexive() {
    let g = sample_graph();
    for c in 0..g.len() {
        assert!(g.is_ancestor(c, c));
    }
}

#[test]
fn ancestry_follows_chains() {
    let g = sample_graph();
    assert!(g.is_ancestor(0, 2));
    assert!(g.is_ancestor(1, 2));
    assert!(!g.is_ancestor(2, 0));
    assert!(!g.is_ancestor(2, 1));
    assert!(!g.is_ancestor(1, 3));
    assert!(!g.is_ancestor(3, 1));
    assert!(g.is_ancestor(0, 3));
}

#[test]
fn fast_forward_reflexive_single() {
    let g = sample_graph();
    let current = RefTarget::Single(2);
    assert!(is_fast_forward(&g, Some(&current), 2));
}

#[test]
fn fast_forward_along_chain_and_not_backwards() {
    let g = sample_graph();
    let old = RefTarget::Single(0);
    assert!(is_fast_forward(&g, Some(&old), 2));
    let new = RefTarget::Single(2);
    assert!(!is_fast_forward(&g, Some(&new), 0));
}

#[test]
fn fast_forward_absent_branch_always_allowed() {
    let g = sample_graph();
    assert!(is_fast_forward(&g, None, 0));
    assert!(is_fast_forward(&g, None, 3));
}

#[test]
fn fast_forward_conflict_needs_every_head() {
    let g = sample_graph();
    let both_below = RefTarget::Conflict { adds: vec![0, 1], removes: vec![] };
    assert!(is_fast_forward(&g, Some(&both_below), 2));
    let one_sideways = RefTarget::Conflict { adds: vec![1, 3], removes: vec![] };
    assert!(!is_fast_forward(&g, Some(&one_sideways), 2));
}

#[test]
fn ahead_behind_of_equal_targets_is_zero() {
    let g = sample_graph();
    let single = RefTarget::Single(2);
    assert_eq!(ahead_behind(&g, &single, &single), (0, 0));
    let conflict = RefTarget::Conflict { adds: vec![1, 3], removes: vec![] };
    assert_eq!(ahead_behind(&g, &conflict, &conflict), (0, 0));
}

#[test]
fn ahead_behind_counts_chain_distance() {
    let g = sample_graph();
    let top = RefTarget::Single(2);
    let bottom = RefTarget::Single(0);
    assert_eq!(ahead_behind(&g, &top, &bottom), (2, 0));
    assert_eq!(ahead_behind(&g, &bottom, &top), (0, 2));
}

#[test]
fn ahead_behind_swaps_under_argument_swap() {
    let g = sample_graph();
    let a = RefTarget::Single(2);
    let b = RefTarget::Single(3);
    let forward = ahead_behind(&g, &a, &b);
    let backward = ahead_behind(&g, &b, &a);
    assert_eq!(forward, (2, 1));
    assert_eq!((forward.1, forward.0), backward);
}
