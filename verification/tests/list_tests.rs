use branches::divergence::DivergenceReport;
use branches::engine::{cmd_branch, BranchSubcommand, CommandOutcome, RevisionResolution};
use branches::graph::AncestryGraph;
use branches::list::list_branches;
use branches::target::{eq_target, RefTarget};
use branches::view::{BranchEntry, BranchRecord, BranchView, RemoteEntry};

/// A chain 0 <- 1 <- 2 and a side branch 3 whose parent is 0.
fn sample_graph() -> AncestryGraph {
    let mut g = AncestryGraph::new();
    let c0 = g.add_commit(vec![]);
    let c1 = g.add_commit(vec![c0]);
    g.add_commit(vec![c1]);
    g.add_commit(vec![c0]);
    g
}

fn branch_with_remotes(
    name: &str,
    local: Option<RefTarget>,
    remotes: Vec<(&str, RefTarget)>,
) -> BranchEntry {
    BranchEntry {
        name: name.to_string(),
        record: BranchRecord {
            local_target: local,
            remote_targets: remotes
                .into_iter()
                .map(|(r, t)| RemoteEntry { remote: r.to_string(), target: t })
                .collect(),
        },
    }
}

#[test]
fn listing_suppresses_structurally_equal_remote() {
    let g = sample_graph();
    let view = BranchView {
        entries: vec![branch_with_remotes(
            "b",
            Some(RefTarget::Single(1)),
            vec![("origin", RefTarget::Single(1))],
        )],
    };
    let listing = list_branches(&g, &view);
    assert_eq!(listing.len(), 1);
    assert_eq!(listing[0].name, "b");
    assert!(listing[0].remotes.is_empty());
}

#[test]
fn listing_reports_remote_ahead() {
    let g = sample_graph();
    let view = BranchView {
        entries: vec![branch_with_remotes(
            "b",
            Some(RefTarget::Single(1)),
            vec![("origin", RefTarget::Single(2))],
        )],
    };
    let listing = list_branches(&g, &view);
    assert_eq!(listing[0].remotes.len(), 1);
    assert_eq!(listing[0].remotes[0].remote, "origin");
    assert_eq!(listing[0].remotes[0].divergence, DivergenceReport::RemoteAhead { ahead: 1 });
}

#[test]
fn listing_reports_remote_behind() {
    let g = sample_graph();
    let view = BranchView {
        entries: vec![branch_with_remotes(
            "b",
            Some(RefTarget::Single(2)),
            vec![("origin", RefTarget::Single(0))],
        )],
    };
    let listing = list_branches(&g, &view);
    assert_eq!(listing[0].remotes[0].divergence, DivergenceReport::RemoteBehind { behind: 2 });
}

#[test]
fn listing_reports_divergence_on_both_sides() {
    let g = sample_graph();
    let view = BranchView {
        entries: vec![branch_with_remotes(
            "b",
            Some(RefTarget::Single(2)),
            vec![("origin", RefTarget::Single(3))],
        )],
    };
    let listing = list_branches(&g, &view);
    assert_eq!(
        listing[0].remotes[0].divergence,
        DivergenceReport::Diverged { ahead: 1, behind: 2 }
    );
}

#[test]
fn listing_reports_in_sync_for_reachability_equal_targets() {
    let g = sample_graph();
    // Different values, same single head: a conflict shaped as one head.
    let view = BranchView {
        entries: vec![branch_with_remotes(
            "b",
            Some(RefTarget::Single(1)),
            vec![("origin", RefTarget::Conflict { adds: vec![1], removes: vec![] })],
        )],
    };
    let listing = list_branches(&g, &view);
    assert_eq!(listing[0].remotes.len(), 1);
    assert_eq!(listing[0].remotes[0].divergence, DivergenceReport::InSync);
}

#[test]
fn listing_shows_deleted_local_and_all_remotes() {
    let g = sample_graph();
    let view = BranchView {
        entries: vec![branch_with_remotes(
            "gone",
            None,
            vec![("backup", RefTarget::Single(0)), ("origin", RefTarget::Single(1))],
        )],
    };
    let listing = list_branches(&g, &view);
    assert!(listing[0].local_target.is_none());
    assert_eq!(listing[0].remotes.len(), 2);
    assert_eq!(listing[0].remotes[0].divergence, DivergenceReport::NoLocal);
    assert_eq!(listing[0].remotes[1].divergence, DivergenceReport::NoLocal);
}

#[test]
fn listing_preserves_targets_structurally() {
    let g = sample_graph();
    let conflict = RefTarget::Conflict { adds: vec![1, 3], removes: vec![0] };
    let view = BranchView {
        entries: vec![branch_with_remotes("c", Some(conflict), vec![])],
    };
    let listing = list_branches(&g, &view);
    let shown = listing[0].local_target.as_ref().unwrap();
    let expected = RefTarget::Conflict { adds: vec![1, 3], removes: vec![0] };
    assert!(eq_target(shown, &expected));
}

#[test]
fn cmd_branch_dispatches_list() {
    let g = sample_graph();
    let view = BranchView {
        entries: vec![branch_with_remotes("b", Some(RefTarget::Single(0)), vec![])],
    };
    let r = cmd_branch(&g, &view, &BranchSubcommand::List, &RevisionResolution::Resolved(0));
    match r.unwrap() {
        CommandOutcome::Listed(ls) => {
            assert_eq!(ls.len(), 1);
            assert_eq!(ls[0].name, "b");
        },
        CommandOutcome::Planned(_) => panic!("list must not plan mutations"),
    }
}

#[test]
fn cmd_branch_dispatches_create() {
    let g = sample_graph();
    let view = BranchView::new();
    let sub = BranchSubcommand::Create { revision: None, names: vec!["b1".to_string()] };
    let r = cmd_branch(&g, &view, &sub, &RevisionResolution::Resolved(2));
    match r.unwrap() {
        CommandOutcome::Planned(p) => {
            assert_eq!(p.summary.commit, Some(2));
            assert_eq!(p.mutations.len(), 1);
        },
        CommandOutcome::Listed(_) => panic!("create must plan mutations"),
    }
}

#[test]
fn cmd_branch_dispatches_set_target() {
    let g = sample_graph();
    let view = BranchView::new();
    let sub = BranchSubcommand::SetTarget {
        revision: Some("2".to_string()),
        allow_backwards: false,
        names: vec!["b".to_string()],
    };
    let r = cmd_branch(&g, &view, &sub, &RevisionResolution::Resolved(2));
    assert!(matches!(r, Ok(CommandOutcome::Planned(_))));
}

#[test]
fn cmd_branch_dispatches_forget() {
    let g = sample_graph();
    let view = BranchView {
        entries: vec![branch_with_remotes("b", Some(RefTarget::Single(0)), vec![])],
    };
    let sub = BranchSubcommand::Forget { names: vec!["b".to_string()], glob: vec![] };
    match cmd_branch(&g, &view, &sub, &RevisionResolution::Resolved(0)).unwrap() {
        CommandOutcome::Planned(p) => assert_eq!(p.mutations.len(), 1),
        CommandOutcome::Listed(_) => panic!("forget must plan mutations"),
    }
}
