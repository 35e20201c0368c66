//! The branch view: the durable mapping from branch name to local and
//! per-remote reference targets. The operation engine reads it; the external
//! transaction layer applies the three primitive mutations offered here.

use vstd::prelude::*;
use crate::order::{lemma_lex_irreflexive, lemma_lex_total, lemma_lex_transitive, lex_less, lex_lt};
use crate::target::RefTarget;

verus! {

/// A remote's target for one branch.
pub struct RemoteEntry {
    pub remote: String,
    pub target: RefTarget,
}

/// Everything known about one branch name: an optional local target (absent
/// means deleted locally) and the per-remote targets.
pub struct BranchRecord {
    pub local_target: Option<RefTarget>,
    pub remote_targets: Vec<RemoteEntry>,
}

/// One named branch.
pub struct BranchEntry {
    pub name: String,
    pub record: BranchRecord,
}

/// The branch view: a mapping from branch name to record, held as a list of
/// entries in strictly increasing lexicographic name order -- the display
/// order. Every mutation keeps that order.
pub struct BranchView {
    pub entries: Vec<BranchEntry>,
}

impl BranchRecord {
    /// A record exists only while it has something to say: a local target or
    /// at least one remote target. Remote names are in strictly increasing
    /// lexicographic order (the display order, so pairwise distinct), and
    /// every stored target has a live head.
    pub open spec fn wf(&self) -> bool {
        &&& (self.local_target is Some || self.remote_targets@.len() > 0)
        &&& (self.local_target matches Some(t) ==> t.wf())
        &&& forall|i: int|
            0 <= i < self.remote_targets@.len() ==> (#[trigger] self.remote_targets@[i]).target.wf()
        &&& forall|i: int, j: int|
            0 <= i < j < self.remote_targets@.len()
                ==> lex_lt(self.remote_targets@[i].remote@, self.remote_targets@[j].remote@)
    }

    /// Every commit the record mentions is one of `n` stored commits.
    pub open spec fn in_graph(&self, n: int) -> bool {
        &&& (self.local_target matches Some(t) ==> t.in_graph(n))
        &&& forall|i: int|
            0 <= i < self.remote_targets@.len()
                ==> (#[trigger] self.remote_targets@[i]).target.in_graph(n)
    }
}

/// Pairwise distinct branch names.
pub open spec fn distinct_names(s: Seq<BranchEntry>) -> bool {
    forall|p: int, q: int| 0 <= p < q < s.len() ==> s[p].name@ != s[q].name@
}

/// Strictly increasing lexicographic name order (which makes the names
/// pairwise distinct as well).
pub open spec fn sorted_names(s: Seq<BranchEntry>) -> bool {
    forall|p: int, q: int| 0 <= p < q < s.len() ==> lex_lt(s[p].name@, s[q].name@)
}

/// A strictly sorted entry list has pairwise distinct names.
pub proof fn lemma_sorted_distinct(s: Seq<BranchEntry>)
    requires
        sorted_names(s),
    ensures
        distinct_names(s),
{
    assert forall|p: int, q: int| 0 <= p < q < s.len() implies s[p].name@ != s[q].name@ by {
        assert(lex_lt(s[p].name@, s[q].name@));
        lemma_lex_irreflexive(s[p].name@);
    }
}

/// Replacing records without touching names keeps the order.
proof fn lemma_sorted_same_names(a: Seq<BranchEntry>, b: Seq<BranchEntry>)
    requires
        sorted_names(a),
        b.len() == a.len(),
        forall|j: int| 0 <= j < a.len() ==> a[j].name@ == b[j].name@,
    ensures
        sorted_names(b),
{
    assert forall|p: int, q: int| 0 <= p < q < b.len() implies lex_lt(b[p].name@, b[q].name@) by {
        assert(lex_lt(a[p].name@, a[q].name@));
    }
}

/// Removing an entry keeps the order.
proof fn lemma_sorted_remove(a: Seq<BranchEntry>, b: Seq<BranchEntry>, i: int)
    requires
        sorted_names(a),
        0 <= i < a.len(),
        b == a.remove(i),
    ensures
        sorted_names(b),
{
    a.remove_ensures(i);
    assert forall|p: int, q: int| 0 <= p < q < b.len() implies lex_lt(b[p].name@, b[q].name@) by {
        let p0: int = if p < i { p } else { p + 1 };
        let q0: int = if q < i { q } else { q + 1 };
        assert(b[p] == a[p0]);
        assert(b[q] == a[q0]);
        assert(lex_lt(a[p0].name@, a[q0].name@));
    }
}

/// Inserting an entry between its lexicographic neighbours keeps the order.
proof fn lemma_sorted_insert(a: Seq<BranchEntry>, b: Seq<BranchEntry>, i: int, e: BranchEntry)
    requires
        sorted_names(a),
        0 <= i <= a.len(),
        b == a.insert(i, e),
        forall|j: int| 0 <= j < i ==> lex_lt((#[trigger] a[j]).name@, e.name@),
        i < a.len() ==> lex_lt(e.name@, a[i].name@),
    ensures
        sorted_names(b),
{
    a.insert_ensures(i, e);
    assert forall|p: int, q: int| 0 <= p < q < b.len() implies lex_lt(b[p].name@, b[q].name@) by {
        if p == i {
            assert(b[p] == e);
            assert(b[q] == a[q - 1]);
            if q - 1 > i {
                lemma_lex_transitive(e.name@, a[i].name@, a[q - 1].name@);
            }
        } else if q == i {
            assert(b[p] == a[p]);
            assert(b[q] == e);
        } else {
            let p0: int = if p < i { p } else { p - 1 };
            let q0: int = if q < i { q } else { q - 1 };
            assert(b[p] == a[p0]);
            assert(b[q] == a[q0]);
            if p0 < q0 {
                assert(lex_lt(a[p0].name@, a[q0].name@));
            } else {
                assert(p < i && q > i);
                assert(p0 == q0);
                lemma_lex_transitive(a[p0].name@, e.name@, a[q0].name@);
            }
        }
    }
}

/// Inserting an entry under a fresh name changes no other branch.
proof fn lemma_frame_insert(a: Seq<BranchEntry>, b: Seq<BranchEntry>, i: int, e: BranchEntry)
    requires
        distinct_names(a),
        !has_name(a, e.name@),
        0 <= i <= a.len(),
        b == a.insert(i, e),
    ensures
        distinct_names(b),
        same_branches_except(a, b, e.name@),
        has_name(b, e.name@),
        name_index(b, e.name@) == i,
        record_of(b, e.name@) == e.record,
    decreases a.len(),
{
    a.insert_ensures(i, e);
    assert forall|p: int, q: int| 0 <= p < q < b.len() implies b[p].name@ != b[q].name@ by {
        let p0: int = if p < i { p } else { p - 1 };
        let q0: int = if q < i { q } else { q - 1 };
        if p == i {
            assert(b[q] == a[q0]);
            assert((#[trigger] a[q0]).name@ != e.name@);
        } else if q == i {
            assert(b[p] == a[p0]);
            assert((#[trigger] a[p0]).name@ != e.name@);
        } else {
            assert(b[p] == a[p0]);
            assert(b[q] == a[q0]);
            if p0 < q0 {
                assert(a[p0].name@ != a[q0].name@);
            }
        }
    }
    lemma_name_index(b, e.name@, i);
    assert forall|n: Seq<char>| n != e.name@ implies same_branch(a, b, n) by {
        if has_name(a, n) {
            let j = name_index(a, n);
            lemma_name_index(a, n, j);
            let j1: int = if j < i { j } else { j + 1 };
            assert(b[j1] == a[j]);
            lemma_name_index(b, n, j1);
        }
        if has_name(b, n) {
            let j = name_index(b, n);
            assert(0 <= j < b.len() && b[j].name@ == n);
            assert(j != i);
            let j0: int = if j < i { j } else { j - 1 };
            assert(b[j] == a[j0]);
            lemma_name_index(a, n, j0);
        }
    }
}

/// Some entry is named `name`.
pub open spec fn has_name(s: Seq<BranchEntry>, name: Seq<char>) -> bool {
    exists|i: int| 0 <= i < s.len() && (#[trigger] s[i]).name@ == name
}

/// The position of the entry named `name` (meaningful only under
/// `has_name`).
pub open spec fn name_index(s: Seq<BranchEntry>, name: Seq<char>) -> int {
    choose|i: int| 0 <= i < s.len() && (#[trigger] s[i]).name@ == name
}

/// The record of the entry named `name` (meaningful only under `has_name`).
pub open spec fn record_of(s: Seq<BranchEntry>, name: Seq<char>) -> BranchRecord {
    s[name_index(s, name)].record
}

/// The branch named `name` exists and has a local target.
pub open spec fn has_local_name(s: Seq<BranchEntry>, name: Seq<char>) -> bool {
    has_name(s, name) && record_of(s, name).local_target is Some
}

/// Both entry lists say the same about the branch named `n`.
pub open spec fn same_branch(a: Seq<BranchEntry>, b: Seq<BranchEntry>, n: Seq<char>) -> bool {
    &&& has_name(a, n) == has_name(b, n)
    &&& (has_name(a, n) ==> record_of(a, n) == record_of(b, n))
}

/// Both entry lists say the same about every branch name but `except`.
pub open spec fn same_branches_except(
    a: Seq<BranchEntry>,
    b: Seq<BranchEntry>,
    except: Seq<char>,
) -> bool {
    forall|n: Seq<char>|
        #![trigger has_name(a, n)]
        #![trigger has_name(b, n)]
        #![trigger same_branch(a, b, n)]
        n != except ==> same_branch(a, b, n)
}

/// With distinct names, any index holding `name` is the index `name_index`
/// picks.
pub proof fn lemma_name_index(s: Seq<BranchEntry>, name: Seq<char>, i: int)
    requires
        distinct_names(s),
        0 <= i < s.len(),
        s[i].name@ == name,
    ensures
        has_name(s, name),
        name_index(s, name) == i,
        record_of(s, name) == s[i].record,
{
    assert(has_name(s, name));
    let j = name_index(s, name);
    if j != i {
        if j < i {
            assert(s[j].name@ != s[i].name@);
        } else {
            assert(s[i].name@ != s[j].name@);
        }
    }
}

/// Replacing the record at one position changes no other branch.
proof fn lemma_frame_update(a: Seq<BranchEntry>, b: Seq<BranchEntry>, i: int)
    requires
        distinct_names(a),
        0 <= i < a.len(),
        b.len() == a.len(),
        b[i].name@ == a[i].name@,
        forall|j: int| 0 <= j < a.len() && j != i ==> a[j] == b[j],
    ensures
        distinct_names(b),
        same_branches_except(a, b, a[i].name@),
{
    assert forall|p: int, q: int| 0 <= p < q < b.len() implies b[p].name@ != b[q].name@ by {
        assert(a[p].name@ != a[q].name@);
        assert(b[p].name@ == a[p].name@);
        assert(b[q].name@ == a[q].name@);
    }
    assert forall|n: Seq<char>| n != a[i].name@ implies {
        &&& has_name(a, n) == has_name(b, n)
        &&& (has_name(a, n) ==> record_of(a, n) == record_of(b, n))
    } by {
        if has_name(a, n) {
            let j = name_index(a, n);
            lemma_name_index(a, n, j);
            assert(j != i);
            lemma_name_index(b, n, j);
        }
        if has_name(b, n) {
            let j = name_index(b, n);
            assert(0 <= j < b.len() && b[j].name@ == n);
            assert(j != i);
            lemma_name_index(a, n, j);
        }
    }
}

/// Removing one entry removes its name and changes no other branch.
proof fn lemma_frame_remove(a: Seq<BranchEntry>, b: Seq<BranchEntry>, i: int)
    requires
        distinct_names(a),
        0 <= i < a.len(),
        b == a.remove(i),
    ensures
        distinct_names(b),
        !has_name(b, a[i].name@),
        same_branches_except(a, b, a[i].name@),
{
    a.remove_ensures(i);
    assert forall|p: int, q: int| 0 <= p < q < b.len() implies b[p].name@ != b[q].name@ by {
        let p0: int = if p < i { p } else { p + 1 };
        let q0: int = if q < i { q } else { q + 1 };
        assert(b[p] == a[p0]);
        assert(b[q] == a[q0]);
        assert(a[p0].name@ != a[q0].name@);
    }
    assert forall|j: int| 0 <= j < b.len() implies (#[trigger] b[j]).name@ != a[i].name@ by {
        let j0: int = if j < i { j } else { j + 1 };
        assert(b[j] == a[j0]);
        if j0 < i {
            assert(a[j0].name@ != a[i].name@);
        } else {
            assert(a[i].name@ != a[j0].name@);
        }
    }
    assert(!has_name(b, a[i].name@));
    assert forall|n: Seq<char>| n != a[i].name@ implies {
        &&& has_name(a, n) == has_name(b, n)
        &&& (has_name(a, n) ==> record_of(a, n) == record_of(b, n))
    } by {
        if has_name(a, n) {
            let j = name_index(a, n);
            lemma_name_index(a, n, j);
            assert(j != i);
            let j1: int = if j < i { j } else { j - 1 };
            assert(b[j1] == a[j]);
            lemma_name_index(b, n, j1);
        }
        if has_name(b, n) {
            let j = name_index(b, n);
            assert(0 <= j < b.len() && b[j].name@ == n);
            let j0: int = if j < i { j } else { j + 1 };
            assert(b[j] == a[j0]);
            lemma_name_index(a, n, j0);
        }
    }
}

impl BranchView {
    /// Names are in strictly increasing lexicographic order (so pairwise
    /// distinct) and every record is well-formed.
    pub open spec fn wf(&self) -> bool {
        &&& sorted_names(self.entries@)
        &&& forall|i: int|
            0 <= i < self.entries@.len() ==> (#[trigger] self.entries@[i]).record.wf()
    }

    /// Every commit the view mentions is one of `n` stored commits.
    pub open spec fn in_graph(&self, n: int) -> bool {
        forall|i: int|
            0 <= i < self.entries@.len() ==> (#[trigger] self.entries@[i]).record.in_graph(n)
    }

    pub open spec fn has_branch(&self, name: Seq<char>) -> bool {
        has_name(self.entries@, name)
    }

    pub open spec fn has_local(&self, name: Seq<char>) -> bool {
        has_local_name(self.entries@, name)
    }

    pub open spec fn record(&self, name: Seq<char>) -> BranchRecord {
        record_of(self.entries@, name)
    }

    /// A view with no branches.
    pub fn new() -> (v: BranchView)
        ensures
            v.entries@.len() == 0,
            v.wf(),
    {
        BranchView { entries: Vec::new() }
    }

    /// Finds the position of the entry for `name`.
    fn find(&self, name: &String) -> (r: Option<usize>)
        requires
            self.wf(),
        ensures
            match r {
                Some(i) => {
                    &&& i < self.entries@.len()
                    &&& self.entries@[i as int].name@ == name@
                    &&& self.has_branch(name@)
                    &&& i == name_index(self.entries@, name@)
                },
                None => !self.has_branch(name@),
            },
    {
        let n = self.entries.len();
        let mut i: usize = 0;
        while i < n
            invariant
                self.wf(),
                n == self.entries@.len(),
                i <= n,
                forall|j: int| 0 <= j < i ==> (#[trigger] self.entries@[j]).name@ != name@,
            decreases n - i,
        {
            if self.entries[i].name == *name {
                proof {
                    lemma_sorted_distinct(self.entries@);
                    lemma_name_index(self.entries@, name@, i as int);
                }
                return Some(i);
            }
            i += 1;
        }
        None
    }

    /// The local target of `name`, if the branch exists and has one.
    pub fn get_local(&self, name: &String) -> (r: Option<&RefTarget>)
        requires
            self.wf(),
        ensures
            r is Some == self.has_local(name@),
            r matches Some(t) ==> self.record(name@).local_target == Some(*t),
    {
        match self.find(name) {
            None => None,
            Some(i) => {
                match &self.entries[i].record.local_target {
                    None => None,
                    Some(t) => Some(t),
                }
            },
        }
    }

    /// Whether `name` currently has a local target.
    pub fn has_local_branch(&self, name: &String) -> (r: bool)
        requires
            self.wf(),
        ensures
            r == self.has_local(name@),
    {
        match self.get_local(name) {
            Some(_) => true,
            None => false,
        }
    }

    /// Points the local side of `name` at `target`, creating the branch if
    /// it does not exist. Mirrors the transaction collaborator's
    /// `set_local_branch`.
    pub fn set_local_branch(&mut self, name: String, target: RefTarget)
        requires
            old(self).wf(),
            target.wf(),
        ensures
            final(self).wf(),
            final(self).has_local(name@),
            final(self).record(name@).local_target == Some(target),
            same_branches_except(old(self).entries@, final(self).entries@, name@),
            old(self).has_branch(name@)
                ==> final(self).record(name@).remote_targets
                    == old(self).record(name@).remote_targets,
            !old(self).has_branch(name@)
                ==> final(self).record(name@).remote_targets@.len() == 0,
            final(self).has_branch(name@),
    {
        let found = self.find(&name);
        match found {
            Some(i) => {
                let ghost a = self.entries@;
                let mut e = self.entries.remove(i);
                e.record.local_target = Some(target);
                self.entries.insert(i, e);
                proof {
                    assert(self.entries@ =~= a.update(i as int, e));
                    lemma_sorted_distinct(a);
                    lemma_frame_update(a, self.entries@, i as int);
                    lemma_sorted_same_names(a, self.entries@);
                    lemma_name_index(self.entries@, name@, i as int);
                }
            },
            None => {
                let ghost a = self.entries@;
                let e = BranchEntry {
                    name,
                    record: BranchRecord {
                        local_target: Some(target),
                        remote_targets: Vec::new(),
                    },
                };
                let n = self.entries.len();
                let mut pos: usize = 0;
                while pos < n && !lex_less(&e.name, &self.entries[pos].name)
                    invariant
                        self.wf(),
                        self.entries@ == a,
                        !has_name(a, e.name@),
                        n == a.len(),
                        pos <= n,
                        forall|j: int| 0 <= j < pos ==> !lex_lt(e.name@, (#[trigger] a[j]).name@),
                    decreases n - pos,
                {
                    pos += 1;
                }
                proof {
                    assert forall|j: int| 0 <= j < pos implies lex_lt(
                        (#[trigger] a[j]).name@,
                        e.name@,
                    ) by {
                        if !lex_lt(a[j].name@, e.name@) {
                            lemma_lex_total(a[j].name@, e.name@);
                            assert((#[trigger] a[j]).name@ == e.name@);
                            assert(has_name(a, e.name@));
                        }
                    }
                }
                self.entries.insert(pos, e);
                proof {
                    lemma_sorted_distinct(a);
                    lemma_sorted_insert(a, self.entries@, pos as int, e);
                    lemma_frame_insert(a, self.entries@, pos as int, e);
                }
            },
        }
    }

    /// Clears the local target of `name`; remote targets stay, and the
    /// record is pruned once nothing is left in it. Mirrors the transaction
    /// collaborator's `remove_local_branch`. A name without an entry is left
    /// as it is.
    pub fn remove_local_branch(&mut self, name: &String)
        requires
            old(self).wf(),
        ensures
            final(self).wf(),
            !final(self).has_local(name@),
            same_branches_except(old(self).entries@, final(self).entries@, name@),
            final(self).has_branch(name@) == (old(self).has_branch(name@)
                && old(self).record(name@).remote_targets@.len() > 0),
            final(self).has_branch(name@)
                ==> final(self).record(name@).remote_targets
                    == old(self).record(name@).remote_targets,
    {
        let found = self.find(name);
        match found {
            Some(i) => {
                let ghost a = self.entries@;
                if self.entries[i].record.remote_targets.len() == 0 {
                    self.entries.remove(i);
                    proof {
                        lemma_sorted_distinct(a);
                        lemma_frame_remove(a, self.entries@, i as int);
                        lemma_sorted_remove(a, self.entries@, i as int);
                    }
                } else {
                    let mut e = self.entries.remove(i);
                    e.record.local_target = None;
                    self.entries.insert(i, e);
                    proof {
                        assert(self.entries@ =~= a.update(i as int, e));
                        lemma_sorted_distinct(a);
                        lemma_frame_update(a, self.entries@, i as int);
                        lemma_sorted_same_names(a, self.entries@);
                        lemma_name_index(self.entries@, name@, i as int);
                    }
                }
            },
            None => {},
        }
    }

    /// Removes everything known about `name`, local and remote. Mirrors the
    /// transaction collaborator's `remove_branch`. A name without an entry
    /// is left as it is.
    pub fn remove_branch(&mut self, name: &String)
        requires
            old(self).wf(),
        ensures
            final(self).wf(),
            !final(self).has_branch(name@),
            same_branches_except(old(self).entries@, final(self).entries@, name@),
    {
        let found = self.find(name);
        match found {
            Some(i) => {
                let ghost a = self.entries@;
                self.entries.remove(i);
                proof {
                    lemma_sorted_distinct(a);
                    lemma_frame_remove(a, self.entries@, i as int);
                    lemma_sorted_remove(a, self.entries@, i as int);
                }
            },
            None => {},
        }
    }
}

} // verus!
