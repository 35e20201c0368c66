//! The fast-forward policy: the pure predicate that gates non-conflicting
//! branch updates.

use vstd::prelude::*;
use crate::graph::{
    AncestryGraph, graph_wf, is_ancestor_of, lemma_ancestor_antisymmetric,
    lemma_ancestor_transitive,
};
use crate::target::RefTarget;

verus! {

/// Every live head of `t` is an ancestor of the proposed commit. A
/// conflicted target can only fast-forward past all of its competing heads
/// at once.
pub open spec fn target_fast_forward_ok(g: Seq<Seq<usize>>, t: &RefTarget, proposed: usize) -> bool {
    forall|i: int|
        0 <= i < t.heads().len()
            ==> is_ancestor_of(g, (#[trigger] t.heads()[i]) as int, proposed as int)
}

/// Moving a branch from `current` to `proposed` is a fast-forward: there is
/// nothing to move backward from (`None`), or every live head of the current
/// target is an ancestor of the proposed commit.
pub open spec fn fast_forward_ok(
    g: Seq<Seq<usize>>,
    current: Option<&RefTarget>,
    proposed: usize,
) -> bool {
    match current {
        None => true,
        Some(t) => target_fast_forward_ok(g, t, proposed),
    }
}

/// Decides the fast-forward policy with one ancestry query per live head.
pub fn is_fast_forward(
    g: &AncestryGraph,
    current: Option<&RefTarget>,
    proposed: usize,
) -> (r: bool)
    requires
        g.wf(),
        proposed < g@.len(),
        current matches Some(t) ==> t.in_graph(g@.len() as int),
    ensures
        r == fast_forward_ok(g@, current, proposed),
{
    match current {
        None => true,
        Some(t) => {
            let heads = t.adds();
            let mut i: usize = 0;
            while i < heads.len()
                invariant
                    current == Some(t),
                    g.wf(),
                    proposed < g@.len(),
                    heads@ == t.heads(),
                    t.in_graph(g@.len() as int),
                    i <= heads@.len(),
                    forall|j: int|
                        0 <= j < i
                            ==> is_ancestor_of(
                                g@,
                                (#[trigger] heads@[j]) as int,
                                proposed as int,
                            ),
                decreases heads@.len() - i,
            {
                if !g.is_ancestor(heads[i], proposed) {
                    proof {
                        assert(t.heads()[i as int] == heads@[i as int]);
                        assert(!fast_forward_ok(g@, current, proposed));
                    }
                    return false;
                }
                i += 1;
            }
            true
        },
    }
}

/// Law: a branch may always fast-forward to the commit it already points at.
pub proof fn lemma_fast_forward_reflexive(g: Seq<Seq<usize>>, c: usize)
    requires
        graph_wf(g),
        c < g.len(),
    ensures
        fast_forward_ok(g, Some(&RefTarget::Single(c)), c),
{
    let t = RefTarget::Single(c);
    assert(t.heads() =~= seq![c]);
    assert(is_ancestor_of(g, c as int, c as int));
}

/// Law: along an ancestry chain `a -> b -> c` of distinct commits, moving a
/// branch from `a` up to `c` is a fast-forward, and moving it from `c` back
/// down to `a` is not.
pub proof fn lemma_fast_forward_chain(g: Seq<Seq<usize>>, a: usize, b: usize, c: usize)
    requires
        graph_wf(g),
        a < g.len(),
        b < g.len(),
        c < g.len(),
        is_ancestor_of(g, a as int, b as int),
        is_ancestor_of(g, b as int, c as int),
        a != c,
    ensures
        fast_forward_ok(g, Some(&RefTarget::Single(a)), c),
        !fast_forward_ok(g, Some(&RefTarget::Single(c)), a),
{
    lemma_ancestor_transitive(g, a as int, b as int, c as int);
    let ta = RefTarget::Single(a);
    assert(ta.heads() =~= seq![a]);
    let tc = RefTarget::Single(c);
    assert(tc.heads() =~= seq![c]);
    if fast_forward_ok(g, Some(&tc), a) {
        assert(is_ancestor_of(g, tc.heads()[0] as int, a as int));
        lemma_ancestor_antisymmetric(g, a as int, c as int);
    }
}

} // verus!
