//! The reference target stored per branch: either one unambiguous commit or
//! an unresolved conflict between several competing heads.

use vstd::prelude::*;

verus! {

/// What a branch points at. `Single` is the unambiguous case. `Conflict`
/// records unresolved divergent history: `adds` holds the competing head
/// candidates, `removes` the targets they displaced (kept for reporting
/// only; policy decisions never read `removes`). This module only consumes
/// conflicts; merging targets into a conflict is the transaction layer's
/// business.
pub enum RefTarget {
    Single(usize),
    Conflict { adds: Vec<usize>, removes: Vec<usize> },
}

impl RefTarget {
    /// The live head candidates: a single target counts as a one-element
    /// head set.
    pub open spec fn heads(&self) -> Seq<usize> {
        match self {
            RefTarget::Single(c) => seq![*c],
            RefTarget::Conflict { adds, .. } => adds@,
        }
    }

    /// The displaced targets (empty for a single target).
    pub open spec fn displaced(&self) -> Seq<usize> {
        match self {
            RefTarget::Single(_) => Seq::<usize>::empty(),
            RefTarget::Conflict { removes, .. } => removes@,
        }
    }

    /// A stored target always has at least one live head.
    pub open spec fn wf(&self) -> bool {
        self.heads().len() >= 1
    }

    /// Every commit the target mentions is one of the `n` stored commits.
    pub open spec fn in_graph(&self, n: int) -> bool {
        &&& forall|i: int| 0 <= i < self.heads().len() ==> (#[trigger] self.heads()[i]) < n
        &&& forall|i: int| 0 <= i < self.displaced().len() ==> (#[trigger] self.displaced()[i]) < n
    }

    /// The live head candidates, as a vector.
    pub fn adds(&self) -> (r: Vec<usize>)
        ensures
            r@ == self.heads(),
    {
        match self {
            RefTarget::Single(c) => {
                let mut v: Vec<usize> = Vec::new();
                v.push(*c);
                proof {
                    assert(v@ =~= self.heads());
                }
                v
            },
            RefTarget::Conflict { adds, .. } => copy_ids(adds),
        }
    }
}

/// Structural equality of two targets: same variant, same commit lists.
pub open spec fn target_eq(a: &RefTarget, b: &RefTarget) -> bool {
    match (a, b) {
        (RefTarget::Single(x), RefTarget::Single(y)) => x == y,
        (
            RefTarget::Conflict { adds: xa, removes: xr },
            RefTarget::Conflict { adds: ya, removes: yr },
        ) => xa@ == ya@ && xr@ == yr@,
        _ => false,
    }
}

/// Decides structural equality of two targets.
pub fn eq_target(a: &RefTarget, b: &RefTarget) -> (r: bool)
    ensures
        r == target_eq(a, b),
{
    match (a, b) {
        (RefTarget::Single(x), RefTarget::Single(y)) => x == y,
        (
            RefTarget::Conflict { adds: xa, removes: xr },
            RefTarget::Conflict { adds: ya, removes: yr },
        ) => eq_ids(xa, ya) && eq_ids(xr, yr),
        _ => false,
    }
}

/// Copies a target, preserving its structure.
pub fn clone_target(t: &RefTarget) -> (r: RefTarget)
    ensures
        target_eq(&r, t),
        r.heads() == t.heads(),
        r.wf() == t.wf(),
{
    match t {
        RefTarget::Single(c) => RefTarget::Single(*c),
        RefTarget::Conflict { adds, removes } => RefTarget::Conflict {
            adds: copy_ids(adds),
            removes: copy_ids(removes),
        },
    }
}

/// Copies a list of commit identifiers.
pub fn copy_ids(src: &Vec<usize>) -> (r: Vec<usize>)
    ensures
        r@ == src@,
{
    let mut r: Vec<usize> = Vec::new();
    let mut i: usize = 0;
    while i < src.len()
        invariant
            i <= src@.len(),
            r@ =~= src@.subrange(0, i as int),
        decreases src@.len() - i,
    {
        r.push(src[i]);
        i += 1;
    }
    proof {
        assert(r@ =~= src@);
    }
    r
}

/// Decides equality of two lists of commit identifiers.
pub fn eq_ids(a: &Vec<usize>, b: &Vec<usize>) -> (r: bool)
    ensures
        r == (a@ == b@),
{
    if a.len() != b.len() {
        return false;
    }
    let mut i: usize = 0;
    while i < a.len()
        invariant
            a@.len() == b@.len(),
            i <= a@.len(),
            forall|j: int| 0 <= j < i ==> a@[j] == b@[j],
        decreases a@.len() - i,
    {
        if a[i] != b[i] {
            return false;
        }
        i += 1;
    }
    proof {
        assert(a@ =~= b@);
    }
    true
}

} // verus!
