use branches::engine::effective_revision;
use branches::target::{clone_target, eq_target, RefTarget};

#[test]
fn single_targets_compare_by_commit() {
    assert!(eq_target(&RefTarget::Single(1), &RefTarget::Single(1)));
    assert!(!eq_target(&RefTarget::Single(1), &RefTarget::Single(2)));
}

#[test]
fn conflicts_compare_by_both_lists() {
    let a = RefTarget::Conflict { adds: vec![1, 2], removes: vec![0] };
    let b = RefTarget::Conflict { adds: vec![1, 2], removes: vec![0] };
    let c = RefTarget::Conflict { adds: vec![1, 2], removes: vec![] };
    assert!(eq_target(&a, &b));
    assert!(!eq_target(&a, &c));
}

#[test]
fn variants_never_compare_equal() {
    let single = RefTarget::Single(1);
    let conflict = RefTarget::Conflict { adds: vec![1], removes: vec![] };
    assert!(!eq_target(&single, &conflict));
}

#[test]
fn clone_preserves_structure() {
    let a = RefTarget::Conflict { adds: vec![3, 1], removes: vec![2] };
    let b = clone_target(&a);
    assert!(eq_target(&a, &b));
}

#[test]
fn adds_of_single_is_one_head() {
    assert_eq!(RefTarget::Single(7).adds(), vec![7]);
}

#[test]
fn adds_of_conflict_keeps_order() {
    let a = RefTarget::Conflict { adds: vec![3, 1], removes: vec![2] };
    assert_eq!(a.adds(), vec![3, 1]);
}

#[test]
fn effective_revision_defaults_to_working_copy() {
    assert_eq!(effective_revision(&None), "@");
    assert_eq!(effective_revision(&Some("v1.0".to_string())), "v1.0");
}
