//! The divergence calculator: how far one reference target is ahead of or
//! behind another, measured in commits reachable from one head set but not
//! the other.

use vstd::prelude::*;
use crate::graph::{AncestryGraph, is_ancestor_of};
use crate::target::RefTarget;

verus! {

/// A commit `c` is reachable from a head set when it is an ancestor of some
/// head.
pub open spec fn reachable_from(g: Seq<Seq<usize>>, heads: Seq<usize>, c: int) -> bool {
    exists|h: int| 0 <= h < heads.len() && is_ancestor_of(g, c, (#[trigger] heads[h]) as int)
}

/// How many of the commits `0..n` are reachable from `a` but not from `b`.
pub open spec fn only_reachable_count(
    g: Seq<Seq<usize>>,
    a: Seq<usize>,
    b: Seq<usize>,
    n: int,
) -> nat
    decreases n,
{
    if n <= 0 {
        0
    } else {
        only_reachable_count(g, a, b, n - 1) + (
        if reachable_from(g, a, n - 1) && !reachable_from(g, b, n - 1) {
            1 as nat
        } else {
            0 as nat
        })
    }
}

/// The divergence between a local and a remote target: commits only the
/// local side can reach, and commits only the remote side can reach.
pub open spec fn divergence_counts(
    g: Seq<Seq<usize>>,
    local: &RefTarget,
    remote: &RefTarget,
    n: int,
) -> (nat, nat) {
    (
        only_reachable_count(g, local.heads(), remote.heads(), n),
        only_reachable_count(g, remote.heads(), local.heads(), n),
    )
}

/// Decides whether `c` is reachable from the given head set.
fn reachable_from_heads(g: &AncestryGraph, heads: &Vec<usize>, c: usize) -> (r: bool)
    requires
        g.wf(),
        c < g@.len(),
        forall|i: int| 0 <= i < heads@.len() ==> (#[trigger] heads@[i]) < g@.len(),
    ensures
        r == reachable_from(g@, heads@, c as int),
{
    let mut h: usize = 0;
    while h < heads.len()
        invariant
            g.wf(),
            c < g@.len(),
            forall|i: int| 0 <= i < heads@.len() ==> (#[trigger] heads@[i]) < g@.len(),
            h <= heads@.len(),
            forall|i: int|
                0 <= i < h ==> !is_ancestor_of(g@, c as int, (#[trigger] heads@[i]) as int),
        decreases heads@.len() - h,
    {
        if g.is_ancestor(c, heads[h]) {
            return true;
        }
        h += 1;
    }
    false
}

/// Computes `(ahead, behind)` for a local target against a remote one:
/// `ahead` counts the commits reachable only from the local heads, `behind`
/// the commits reachable only from the remote heads.
pub fn ahead_behind(g: &AncestryGraph, local: &RefTarget, remote: &RefTarget) -> (r: (
    usize,
    usize,
))
    requires
        g.wf(),
        local.in_graph(g@.len() as int),
        remote.in_graph(g@.len() as int),
    ensures
        (r.0 as nat, r.1 as nat) == divergence_counts(g@, local, remote, g@.len() as int),
{
    let local_heads = local.adds();
    let remote_heads = remote.adds();
    let n = g.len();
    let mut ahead: usize = 0;
    let mut behind: usize = 0;
    let mut c: usize = 0;
    while c < n
        invariant
            g.wf(),
            n == g@.len(),
            local_heads@ == local.heads(),
            remote_heads@ == remote.heads(),
            local.in_graph(n as int),
            remote.in_graph(n as int),
            c <= n,
            ahead <= c,
            behind <= c,
            ahead == only_reachable_count(g@, local_heads@, remote_heads@, c as int),
            behind == only_reachable_count(g@, remote_heads@, local_heads@, c as int),
        decreases n - c,
    {
        let from_local = reachable_from_heads(g, &local_heads, c);
        let from_remote = reachable_from_heads(g, &remote_heads, c);
        if from_local && !from_remote {
            ahead += 1;
        }
        if from_remote && !from_local {
            behind += 1;
        }
        c += 1;
    }
    (ahead, behind)
}

/// How one remote target stands against the local target, as the listing
/// reports it: nothing to report when the two sides reach the same commits,
/// otherwise the nonzero ahead and behind counts; no comparison at all when
/// the branch has no local target.
#[derive(Clone, Copy, Debug, PartialEq, Eq, Structural)]
pub enum DivergenceReport {
    NoLocal,
    InSync,
    RemoteAhead { ahead: usize },
    RemoteBehind { behind: usize },
    Diverged { ahead: usize, behind: usize },
}

/// The report owed for a remote target against an optional local target:
/// `ahead` counts commits only the remote reaches, `behind` commits only the
/// local side reaches.
pub open spec fn divergence_report(
    g: Seq<Seq<usize>>,
    local: Option<RefTarget>,
    remote: &RefTarget,
    n: int,
) -> DivergenceReport {
    match local {
        None => DivergenceReport::NoLocal,
        Some(l) => {
            let ahead = only_reachable_count(g, remote.heads(), l.heads(), n);
            let behind = only_reachable_count(g, l.heads(), remote.heads(), n);
            if ahead == 0 && behind == 0 {
                DivergenceReport::InSync
            } else if behind == 0 {
                DivergenceReport::RemoteAhead { ahead: ahead as usize }
            } else if ahead == 0 {
                DivergenceReport::RemoteBehind { behind: behind as usize }
            } else {
                DivergenceReport::Diverged { ahead: ahead as usize, behind: behind as usize }
            }
        },
    }
}

/// Computes the divergence report for a remote target against a present
/// local target.
pub fn report_divergence(g: &AncestryGraph, local: &RefTarget, remote: &RefTarget) -> (r:
    DivergenceReport)
    requires
        g.wf(),
        local.in_graph(g@.len() as int),
        remote.in_graph(g@.len() as int),
    ensures
        r == divergence_report(g@, Some(*local), remote, g@.len() as int),
{
    let ab = ahead_behind(g, remote, local);
    let ahead = ab.0;
    let behind = ab.1;
    if ahead == 0 && behind == 0 {
        DivergenceReport::InSync
    } else if behind == 0 {
        DivergenceReport::RemoteAhead { ahead }
    } else if ahead == 0 {
        DivergenceReport::RemoteBehind { behind }
    } else {
        DivergenceReport::Diverged { ahead, behind }
    }
}

/// Law: a target never diverges from itself; equal head sets give equal
/// reachability, so nothing is reachable from only one side.
pub proof fn lemma_divergence_reflexive(g: Seq<Seq<usize>>, t: &RefTarget, n: int)
    ensures
        divergence_counts(g, t, t, n) == (0 as nat, 0 as nat),
    decreases n,
{
    if n > 0 {
        lemma_divergence_reflexive(g, t, n - 1);
    }
}

/// Law: swapping the local and remote arguments swaps the ahead and behind
/// counts.
pub proof fn lemma_divergence_symmetric(
    g: Seq<Seq<usize>>,
    local: &RefTarget,
    remote: &RefTarget,
    n: int,
)
    ensures
        divergence_counts(g, local, remote, n)
            == (divergence_counts(g, remote, local, n).1, divergence_counts(g, remote, local, n).0),
{
}

} // verus!
