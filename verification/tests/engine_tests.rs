use branches::engine::{
    apply_mutations, create_branches, delete_branches, forget_branches, set_branches,
    BranchError, Mutation, OpKind, RevisionResolution,
};
use branches::graph::AncestryGraph;
use branches::target::RefTarget;
use branches::view::{BranchEntry, BranchRecord, BranchView, RemoteEntry};

/// A chain 0 <- 1 <- 2 and a side branch 3 whose parent is 0.
fn sample_graph() -> AncestryGraph {
    let mut g = AncestryGraph::new();
    let c0 = g.add_commit(vec![]);
    let c1 = g.add_commit(vec![c0]);
    g.add_commit(vec![c1]);
    g.add_commit(vec![c0]);
    g
}

fn local_branch(name: &str, commit: usize) -> BranchEntry {
    BranchEntry {
        name: name.to_string(),
        record: BranchRecord {
            local_target: Some(RefTarget::Single(commit)),
            remote_targets: vec![],
        },
    }
}

#[test]
fn create_plans_one_mutation_per_name() {
    let view = BranchView::new();
    let names = vec!["b1".to_string()];
    let r = create_branches(&view, &names, &RevisionResolution::Resolved(0)).unwrap();
    assert_eq!(r.mutations.len(), 1);
    assert!(matches!(
        &r.mutations[0],
        Mutation::SetLocal { name, target: RefTarget::Single(0) } if name == "b1"
    ));
    assert_eq!(r.summary.kind, OpKind::CreateBranches);
    assert_eq!(r.summary.names, vec!["b1".to_string()]);
    assert_eq!(r.summary.commit, Some(0));
    assert!(!r.multiple_warning);
}

#[test]
fn create_warns_on_multiple_names() {
    let view = BranchView::new();
    let names = vec!["b1".to_string(), "b2".to_string()];
    let r = create_branches(&view, &names, &RevisionResolution::Resolved(0)).unwrap();
    assert!(r.multiple_warning);
    assert_eq!(r.mutations.len(), 2);
}

#[test]
fn create_refuses_existing_local_target() {
    let view = BranchView { entries: vec![local_branch("main", 0)] };
    let names = vec!["main".to_string()];
    let r = create_branches(&view, &names, &RevisionResolution::Resolved(0));
    assert!(matches!(r, Err(BranchError::NameCollision { name }) if name == "main"));
}

#[test]
fn create_refuses_duplicate_names_in_one_call() {
    let view = BranchView::new();
    let names = vec!["x".to_string(), "x".to_string()];
    let r = create_branches(&view, &names, &RevisionResolution::Resolved(0));
    assert!(matches!(r, Err(BranchError::NameCollision { name }) if name == "x"));
}

#[test]
fn create_reports_failed_resolution() {
    let view = BranchView::new();
    let names = vec!["b1".to_string()];
    assert!(matches!(
        create_branches(&view, &names, &RevisionResolution::NoMatch),
        Err(BranchError::NoSuchRevision)
    ));
    assert!(matches!(
        create_branches(&view, &names, &RevisionResolution::Ambiguous),
        Err(BranchError::AmbiguousRevision)
    ));
}

#[test]
fn create_collision_wins_over_resolution_error() {
    let view = BranchView { entries: vec![local_branch("main", 0)] };
    let names = vec!["main".to_string()];
    let r = create_branches(&view, &names, &RevisionResolution::NoMatch);
    assert!(matches!(r, Err(BranchError::NameCollision { name }) if name == "main"));
}

#[test]
fn set_batch_is_all_or_nothing() {
    let g = sample_graph();
    // b1 at the chain's root could fast-forward to 2; b2 sits sideways at 3.
    let view = BranchView { entries: vec![local_branch("b1", 0), local_branch("b2", 3)] };
    let names = vec!["b1".to_string(), "b2".to_string()];
    let r = set_branches(&g, &view, &names, &RevisionResolution::Resolved(2), false);
    assert!(matches!(r, Err(BranchError::NonFastForward)));
}

#[test]
fn set_override_allows_backwards_moves() {
    let g = sample_graph();
    let view = BranchView { entries: vec![local_branch("b1", 0), local_branch("b2", 3)] };
    let names = vec!["b1".to_string(), "b2".to_string()];
    let r = set_branches(&g, &view, &names, &RevisionResolution::Resolved(2), true).unwrap();
    assert_eq!(r.mutations.len(), 2);
    assert_eq!(r.summary.kind, OpKind::PointBranches);
    assert!(r.multiple_warning);
}

#[test]
fn set_fast_forward_batch_succeeds() {
    let g = sample_graph();
    let view = BranchView { entries: vec![local_branch("b1", 0), local_branch("b2", 1)] };
    let names = vec!["b1".to_string(), "b2".to_string()];
    let r = set_branches(&g, &view, &names, &RevisionResolution::Resolved(2), false).unwrap();
    assert!(matches!(
        &r.mutations[1],
        Mutation::SetLocal { name, target: RefTarget::Single(2) } if name == "b2"
    ));
}

#[test]
fn set_creates_branches_that_do_not_exist() {
    let g = sample_graph();
    let view = BranchView::new();
    let names = vec!["fresh".to_string()];
    let r = set_branches(&g, &view, &names, &RevisionResolution::Resolved(0), false);
    assert!(r.is_ok());
}

#[test]
fn delete_refuses_branch_with_only_remote_target() {
    let entry = BranchEntry {
        name: "b".to_string(),
        record: BranchRecord {
            local_target: None,
            remote_targets: vec![RemoteEntry {
                remote: "origin".to_string(),
                target: RefTarget::Single(0),
            }],
        },
    };
    let view = BranchView { entries: vec![entry] };
    let r = delete_branches(&view, &vec!["b".to_string()]);
    assert!(matches!(r, Err(BranchError::UnknownBranch { name }) if name == "b"));
}

#[test]
fn delete_plans_local_removals_only() {
    let view = BranchView { entries: vec![local_branch("a", 0), local_branch("b", 1)] };
    let r = delete_branches(&view, &vec!["a".to_string(), "b".to_string()]).unwrap();
    assert_eq!(r.mutations.len(), 2);
    assert!(matches!(&r.mutations[0], Mutation::RemoveLocal { name } if name == "a"));
    assert!(matches!(&r.mutations[1], Mutation::RemoveLocal { name } if name == "b"));
    assert_eq!(r.summary.kind, OpKind::DeleteBranches);
}

#[test]
fn forget_glob_removes_exactly_the_matches() {
    let view = BranchView {
        entries: vec![
            local_branch("feature-a", 0),
            local_branch("feature-b", 1),
            local_branch("main", 2),
        ],
    };
    let r = forget_branches(&view, &vec![], &vec!["feature-*".to_string()]).unwrap();
    assert_eq!(r.summary.names, vec!["feature-a".to_string(), "feature-b".to_string()]);
    assert!(matches!(&r.mutations[0], Mutation::RemoveBranch { name } if name == "feature-a"));
    assert!(matches!(&r.mutations[1], Mutation::RemoveBranch { name } if name == "feature-b"));

    let mut after = view;
    apply_mutations(&mut after, &r.mutations);
    assert_eq!(after.entries.len(), 1);
    assert!(after.has_local_branch(&"main".to_string()));
    assert!(!after.has_local_branch(&"feature-a".to_string()));
}

#[test]
fn forget_refuses_ill_formed_glob() {
    let view = BranchView { entries: vec![local_branch("main", 0)] };
    let r = forget_branches(&view, &vec![], &vec!["[".to_string()]);
    assert!(matches!(r, Err(BranchError::InvalidGlobPattern { pattern }) if pattern == "["));
}

#[test]
fn forget_refuses_unknown_explicit_name() {
    let view = BranchView { entries: vec![local_branch("main", 0)] };
    let r = forget_branches(&view, &vec!["nope".to_string()], &vec![]);
    assert!(matches!(r, Err(BranchError::UnknownBranch { name }) if name == "nope"));
}

#[test]
fn forget_deduplicates_explicit_and_glob_names() {
    let view = BranchView { entries: vec![local_branch("feature-a", 0)] };
    let r = forget_branches(
        &view,
        &vec!["feature-a".to_string()],
        &vec!["feature-*".to_string()],
    )
    .unwrap();
    assert_eq!(r.summary.names, vec!["feature-a".to_string()]);
    assert_eq!(r.mutations.len(), 1);
}

#[test]
fn forget_glob_may_match_nothing() {
    let view = BranchView { entries: vec![local_branch("main", 0)] };
    let r = forget_branches(&view, &vec![], &vec!["feature-*".to_string()]).unwrap();
    assert!(r.mutations.is_empty());
}

#[test]
fn create_then_apply_makes_the_branch_visible() {
    let mut view = BranchView::new();
    let names = vec!["b1".to_string()];
    let plan = create_branches(&view, &names, &RevisionResolution::Resolved(0)).unwrap();
    apply_mutations(&mut view, &plan.mutations);
    assert!(view.has_local_branch(&"b1".to_string()));
    let got = view.get_local(&"b1".to_string()).unwrap();
    assert!(matches!(got, RefTarget::Single(0)));
}

#[test]
fn delete_then_apply_prunes_empty_records() {
    let mut view = BranchView { entries: vec![local_branch("a", 0)] };
    let plan = delete_branches(&view, &vec!["a".to_string()]).unwrap();
    apply_mutations(&mut view, &plan.mutations);
    assert!(view.entries.is_empty());
}

#[test]
fn delete_then_apply_keeps_remote_targets() {
    let entry = BranchEntry {
        name: "b".to_string(),
        record: BranchRecord {
            local_target: Some(RefTarget::Single(0)),
            remote_targets: vec![RemoteEntry {
                remote: "origin".to_string(),
                target: RefTarget::Single(1),
            }],
        },
    };
    let mut view = BranchView { entries: vec![entry] };
    let plan = delete_branches(&view, &vec!["b".to_string()]).unwrap();
    apply_mutations(&mut view, &plan.mutations);
    assert_eq!(view.entries.len(), 1);
    assert!(view.entries[0].record.local_target.is_none());
    assert_eq!(view.entries[0].record.remote_targets.len(), 1);
}

#[test]
fn error_messages_name_the_offender() {
    let e = BranchError::NameCollision { name: "main".to_string() };
    assert_eq!(e.message(), "Branch already exists: main");
    assert_eq!(e.hint(), Some("Use `set` to update it."));

    let e = BranchError::UnknownBranch { name: "b".to_string() };
    assert_eq!(e.message(), "No such branch: b");
    assert_eq!(e.hint(), None);

    let e = BranchError::NonFastForward;
    assert_eq!(e.message(), "Refusing to move branch backwards or sideways.");
    assert_eq!(e.hint(), Some("Use --allow-backwards to allow it."));

    let e = BranchError::InvalidGlobPattern { pattern: "[".to_string() };
    assert_eq!(e.message(), "Invalid glob pattern: [");
}

#[test]
fn applied_creates_keep_lexicographic_order() {
    let mut view = BranchView::new();
    for name in ["mid", "alpha", "zeta"] {
        let plan =
            create_branches(&view, &vec![name.to_string()], &RevisionResolution::Resolved(0))
                .unwrap();
        apply_mutations(&mut view, &plan.mutations);
    }
    let names: Vec<&str> = view.entries.iter().map(|e| e.name.as_str()).collect();
    assert_eq!(names, vec!["alpha", "mid", "zeta"]);
}
