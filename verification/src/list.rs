//! The read-only listing: for every branch, its local target and every
//! remote target that differs from it, each with its divergence report.

use vstd::prelude::*;
use crate::divergence::{DivergenceReport, divergence_report, report_divergence};
use crate::graph::AncestryGraph;
use crate::target::{RefTarget, clone_target, eq_target, target_eq};
use crate::view::{BranchEntry, BranchView, RemoteEntry};

verus! {

/// One remote line of the listing.
pub struct RemoteListing {
    pub remote: String,
    pub target: RefTarget,
    pub divergence: DivergenceReport,
}

/// The listing of one branch: its name, its local target (`None` is shown as
/// deleted), and the remote targets that differ from the local one.
pub struct BranchListing {
    pub name: String,
    pub local_target: Option<RefTarget>,
    pub remotes: Vec<RemoteListing>,
}

/// A remote target earns a line exactly when it is not structurally equal to
/// the local target (a cheap short-circuit before any reachability query); a
/// branch with no local target lists every remote target.
pub open spec fn kept_remote(local: Option<RefTarget>, target: RefTarget) -> bool {
    match local {
        Some(l) => !target_eq(&target, &l),
        None => true,
    }
}

/// The positions of the remote entries that earn a line, in order.
pub open spec fn kept_indices(local: Option<RefTarget>, rts: Seq<RemoteEntry>) -> Seq<int>
    decreases rts.len(),
{
    if rts.len() == 0 {
        Seq::<int>::empty()
    } else {
        let pre = kept_indices(local, rts.drop_last());
        if kept_remote(local, rts.last().target) {
            pre.push(rts.len() - 1)
        } else {
            pre
        }
    }
}

/// Every kept position is a position of `rts`, holds a remote that earns a
/// line, and the positions are strictly increasing.
pub proof fn lemma_kept_indices(local: Option<RefTarget>, rts: Seq<RemoteEntry>)
    ensures
        forall|k: int|
            0 <= k < kept_indices(local, rts).len() ==> {
                &&& 0 <= #[trigger] kept_indices(local, rts)[k] < rts.len()
                &&& kept_remote(local, rts[kept_indices(local, rts)[k]].target)
            },
    decreases rts.len(),
{
    if rts.len() > 0 {
        lemma_kept_indices(local, rts.drop_last());
        let pre = kept_indices(local, rts.drop_last());
        assert(forall|k: int|
            0 <= k < pre.len() ==> rts.drop_last()[#[trigger] pre[k]] == rts[pre[k]]);
    }
}

/// Growing the remote list by one entry extends the kept positions by that
/// entry's position exactly when it earns a line.
proof fn lemma_kept_indices_extend(local: Option<RefTarget>, rts: Seq<RemoteEntry>, i: int)
    requires
        0 <= i < rts.len(),
    ensures
        kept_indices(local, rts.subrange(0, i + 1)) == if kept_remote(local, rts[i].target) {
            kept_indices(local, rts.subrange(0, i)).push(i)
        } else {
            kept_indices(local, rts.subrange(0, i))
        },
{
    let s = rts.subrange(0, i + 1);
    assert(s.drop_last() =~= rts.subrange(0, i));
    assert(s.last() == rts[i]);
    if kept_remote(local, rts[i].target) {
        assert(kept_indices(local, s) =~= kept_indices(local, rts.subrange(0, i)).push(i));
    }
}

/// The output lines correspond, in order, to the kept remote entries: same
/// remote name, structurally equal target, and the owed divergence report.
pub open spec fn matches_kept(
    g: Seq<Seq<usize>>,
    local: Option<RefTarget>,
    rts: Seq<RemoteEntry>,
    out: Seq<RemoteListing>,
) -> bool {
    &&& out.len() == kept_indices(local, rts).len()
    &&& forall|k: int|
        0 <= k < out.len() ==> {
            &&& (#[trigger] out[k]).remote@ == rts[kept_indices(local, rts)[k]].remote@
            &&& target_eq(&out[k].target, &rts[kept_indices(local, rts)[k]].target)
            &&& out[k].divergence == divergence_report(
                g,
                local,
                &rts[kept_indices(local, rts)[k]].target,
                g.len() as int,
            )
        }
}

/// What the listing owes for one branch entry.
pub open spec fn list_entry_ok(g: Seq<Seq<usize>>, e: BranchEntry, l: BranchListing) -> bool {
    &&& l.name@ == e.name@
    &&& (match (e.record.local_target, l.local_target) {
        (None, None) => true,
        (Some(t), Some(u)) => target_eq(&u, &t),
        _ => false,
    })
    &&& matches_kept(g, e.record.local_target, e.record.remote_targets@, l.remotes@)
}

/// Builds the remote lines for one branch.
fn remote_listings(g: &AncestryGraph, local: &Option<RefTarget>, rts: &Vec<RemoteEntry>) -> (r:
    Vec<RemoteListing>)
    requires
        g.wf(),
        local matches Some(l) ==> l.in_graph(g@.len() as int),
        forall|i: int|
            0 <= i < rts@.len() ==> (#[trigger] rts@[i]).target.in_graph(g@.len() as int),
    ensures
        matches_kept(g@, *local, rts@, r@),
{
    let mut r: Vec<RemoteListing> = Vec::new();
    let mut i: usize = 0;
    proof {
        assert(rts@.subrange(0, 0) =~= Seq::<RemoteEntry>::empty());
    }
    while i < rts.len()
        invariant
            g.wf(),
            local matches Some(l) ==> l.in_graph(g@.len() as int),
            forall|j: int|
                0 <= j < rts@.len() ==> (#[trigger] rts@[j]).target.in_graph(g@.len() as int),
            i <= rts@.len(),
            matches_kept(g@, *local, rts@.subrange(0, i as int), r@),
        decreases rts@.len() - i,
    {
        let entry = &rts[i];
        let keep: bool = match local {
            Some(l) => !eq_target(&entry.target, l),
            None => true,
        };
        proof {
            lemma_kept_indices_extend(*local, rts@, i as int);
        }
        if keep {
            let divergence = match local {
                Some(l) => report_divergence(g, l, &entry.target),
                None => DivergenceReport::NoLocal,
            };
            let line = RemoteListing {
                remote: entry.remote.clone(),
                target: clone_target(&entry.target),
                divergence,
            };
            r.push(line);
            proof {
                let ghost sub = rts@.subrange(0, i + 1 as int);
                assert(kept_indices(*local, sub)
                    == kept_indices(*local, rts@.subrange(0, i as int)).push(i as int));
            }
        } else {
            proof {
                assert(!kept_remote(*local, rts@[i as int].target));
                assert(kept_indices(*local, rts@.subrange(0, i + 1 as int))
                    == kept_indices(*local, rts@.subrange(0, i as int)));
            }
        }
        proof {
            lemma_kept_indices(*local, rts@.subrange(0, i as int));
            lemma_kept_indices(*local, rts@.subrange(0, i + 1 as int));
        }
        i += 1;
    }
    proof {
        assert(rts@.subrange(0, rts@.len() as int) =~= rts@);
    }
    r
}

/// Lists every branch in the view's lexicographic order: the local target,
/// and each remote target that differs from it together with its divergence
/// report.
pub fn list_branches(g: &AncestryGraph, view: &BranchView) -> (r: Vec<BranchListing>)
    requires
        g.wf(),
        view.wf(),
        view.in_graph(g@.len() as int),
    ensures
        r@.len() == view.entries@.len(),
        forall|i: int|
            0 <= i < r@.len() ==> list_entry_ok(g@, view.entries@[i], #[trigger] r@[i]),
{
    let mut r: Vec<BranchListing> = Vec::new();
    let mut i: usize = 0;
    while i < view.entries.len()
        invariant
            g.wf(),
            view.wf(),
            view.in_graph(g@.len() as int),
            i <= view.entries@.len(),
            r@.len() == i,
            forall|j: int|
                0 <= j < i ==> list_entry_ok(g@, view.entries@[j], #[trigger] r@[j]),
        decreases view.entries@.len() - i,
    {
        let entry = &view.entries[i];
        let local_target: Option<RefTarget> = match &entry.record.local_target {
            Some(t) => Some(clone_target(t)),
            None => None,
        };
        let remotes = remote_listings(g, &entry.record.local_target, &entry.record.remote_targets);
        let line = BranchListing { name: entry.name.clone(), local_target, remotes };
        r.push(line);
        i += 1;
    }
    r
}

/// Law: a remote whose target is structurally equal to the local target gets
/// no line. With pairwise distinct remote names, no output line carries that
/// remote's name.
pub proof fn lemma_equal_remote_suppressed(
    g: Seq<Seq<usize>>,
    local: RefTarget,
    rts: Seq<RemoteEntry>,
    out: Seq<RemoteListing>,
    j: int,
)
    requires
        matches_kept(g, Some(local), rts, out),
        forall|p: int, q: int| 0 <= p < q < rts.len() ==> rts[p].remote@ != rts[q].remote@,
        0 <= j < rts.len(),
        target_eq(&rts[j].target, &local),
    ensures
        forall|k: int| 0 <= k < out.len() ==> (#[trigger] out[k]).remote@ != rts[j].remote@,
{
    lemma_kept_indices(Some(local), rts);
    assert forall|k: int| 0 <= k < out.len() implies (#[trigger] out[k]).remote@ != rts[j].remote@
    by {
        let jk = kept_indices(Some(local), rts)[k];
        assert(kept_remote(Some(local), rts[jk].target));
        assert(jk != j);
        if jk < j {
            assert(rts[jk].remote@ != rts[j].remote@);
        } else {
            assert(rts[j].remote@ != rts[jk].remote@);
        }
    }
}

} // verus!
