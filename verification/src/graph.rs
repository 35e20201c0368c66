//! The ancestry index: a commit graph that answers reachability queries.
//!
//! Commits are identified by dense indices and the graph is topologically
//! numbered: every parent of a commit has a smaller identifier than the
//! commit itself, so every ancestry walk moves strictly downward and
//! terminates.

use vstd::prelude::*;

verus! {

/// Well-formedness of a parent table: entry `i` holds the parents of commit
/// `i`, and each parent identifier is strictly smaller than `i`.
pub open spec fn graph_wf(g: Seq<Seq<usize>>) -> bool {
    forall|i: int, k: int|
        0 <= i < g.len() && 0 <= k < g[i].len() ==> (#[trigger] g[i][k]) < i
}

/// `a` is an ancestor of `b`: either `a == b`, or a chain of parent edges
/// leads from `b` down to `a`.
pub open spec fn is_ancestor_of(g: Seq<Seq<usize>>, a: int, b: int) -> bool
    decreases b
        when graph_wf(g) && 0 <= b < g.len()
{
    a == b || exists|k: int|
        0 <= k < g[b].len() && is_ancestor_of(g, a, (#[trigger] g[b][k]) as int)
}

/// An ancestor never has a larger identifier than its descendant, and every
/// ancestor of a stored commit is itself a stored commit.
pub proof fn lemma_ancestor_bounds(g: Seq<Seq<usize>>, a: int, b: int)
    requires
        graph_wf(g),
        0 <= b < g.len(),
        is_ancestor_of(g, a, b),
    ensures
        0 <= a <= b,
    decreases b,
{
    if a != b {
        let k = choose|k: int|
            0 <= k < g[b].len() && is_ancestor_of(g, a, (#[trigger] g[b][k]) as int);
        lemma_ancestor_bounds(g, a, g[b][k] as int);
    }
}

/// Ancestry is transitive: a chain through `b` joins into one chain.
pub proof fn lemma_ancestor_transitive(g: Seq<Seq<usize>>, a: int, b: int, c: int)
    requires
        graph_wf(g),
        0 <= b < g.len(),
        0 <= c < g.len(),
        is_ancestor_of(g, a, b),
        is_ancestor_of(g, b, c),
    ensures
        is_ancestor_of(g, a, c),
    decreases c,
{
    if b != c {
        let k = choose|k: int|
            0 <= k < g[c].len() && is_ancestor_of(g, b, (#[trigger] g[c][k]) as int);
        lemma_ancestor_transitive(g, a, b, g[c][k] as int);
        assert(is_ancestor_of(g, a, g[c][k] as int));
    }
}

/// Ancestry is antisymmetric: two commits that are ancestors of each other
/// are the same commit.
pub proof fn lemma_ancestor_antisymmetric(g: Seq<Seq<usize>>, a: int, b: int)
    requires
        graph_wf(g),
        0 <= a < g.len(),
        0 <= b < g.len(),
        is_ancestor_of(g, a, b),
        is_ancestor_of(g, b, a),
    ensures
        a == b,
{
    lemma_ancestor_bounds(g, a, b);
    lemma_ancestor_bounds(g, b, a);
}

/// The ancestry index. It is read-only from the policy code's point of view;
/// commits are only ever appended, with their parents fixed at that moment.
pub struct AncestryGraph {
    parents: Vec<Vec<usize>>,
}

impl View for AncestryGraph {
    type V = Seq<Seq<usize>>;

    closed spec fn view(&self) -> Seq<Seq<usize>> {
        self.parents@.map_values(|row: Vec<usize>| row@)
    }
}

impl AncestryGraph {
    pub open spec fn wf(&self) -> bool {
        graph_wf(self@)
    }

    /// A graph with no commits.
    pub fn new() -> (g: AncestryGraph)
        ensures
            g@ =~= Seq::<Seq<usize>>::empty(),
            g.wf(),
    {
        AncestryGraph { parents: Vec::new() }
    }

    /// How many commits the graph stores; valid identifiers are `0..len`.
    pub fn len(&self) -> (n: usize)
        ensures
            n == self@.len(),
    {
        self.parents.len()
    }

    /// Appends a commit whose parents are the given (already stored)
    /// commits, and returns its identifier.
    pub fn add_commit(&mut self, parents: Vec<usize>) -> (id: usize)
        requires
            old(self).wf(),
            forall|k: int| 0 <= k < parents@.len() ==> (#[trigger] parents@[k]) < old(self)@.len(),
        ensures
            id == old(self)@.len(),
            final(self)@ =~= old(self)@.push(parents@),
            final(self).wf(),
    {
        let id = self.parents.len();
        self.parents.push(parents);
        proof {
            assert(self@ =~= old(self)@.push(parents@));
        }
        id
    }

    /// Whether `a` is an ancestor of `b` (a commit counts as its own
    /// ancestor).
    pub fn is_ancestor(&self, a: usize, b: usize) -> (r: bool)
        requires
            self.wf(),
            a < self@.len(),
            b < self@.len(),
        ensures
            r == is_ancestor_of(self@, a as int, b as int),
        decreases b,
    {
        if a == b {
            return true;
        }
        let row_len = self.parents[b].len();
        let mut k: usize = 0;
        while k < row_len
            invariant
                self.wf(),
                a < self@.len(),
                b < self@.len(),
                a != b,
                row_len == self@[b as int].len(),
                k <= row_len,
                forall|j: int| 0 <= j < k
                    ==> !(#[trigger] is_ancestor_of(self@, a as int, self@[b as int][j] as int)),
            decreases row_len - k,
        {
            let p = self.parents[b][k];
            if self.is_ancestor(a, p) {
                proof {
                    assert(is_ancestor_of(self@, a as int, self@[b as int][k as int] as int));
                }
                return true;
            }
            k += 1;
        }
        proof {
            if is_ancestor_of(self@, a as int, b as int) {
                let j = choose|j: int|
                    0 <= j < self@[b as int].len()
                        && is_ancestor_of(self@, a as int, (#[trigger] self@[b as int][j]) as int);
                assert(false);
            }
        }
        false
    }
}

} // verus!
