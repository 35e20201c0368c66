//! The branch operation engine: validates inputs, applies the fast-forward
//! policy, and emits the intended mutation set for each operation. The
//! external transaction collaborator commits the mutations; the engine never
//! performs durable writes itself.

use vstd::prelude::*;
use crate::globbing::{glob_is_valid, glob_match, glob_matches, glob_pattern_ok};
use crate::graph::AncestryGraph;
use crate::list::{BranchListing, list_branches, list_entry_ok};
use crate::policy::{is_fast_forward, target_fast_forward_ok};
use crate::target::RefTarget;
use crate::target::clone_target;
use crate::view::{BranchView, same_branch, same_branches_except};

verus! {

/// The five branch operations, as the caller states them.
pub enum BranchSubcommand {
    /// Create new branches at a revision (the working-copy parent when no
    /// revision is given). Refused when a name already has a local target.
    Create { revision: Option<String>, names: Vec<String> },
    /// Delete branches locally; the deletion propagates to remotes on the
    /// next push, outside this engine.
    Delete { names: Vec<String> },
    /// Forget everything about branches, local and remote targets alike;
    /// `glob` patterns select further names to forget.
    Forget { names: Vec<String>, glob: Vec<String> },
    /// List branches and their targets.
    List,
    /// Point branches at a revision, refusing non-fast-forward moves unless
    /// `allow_backwards` is set.
    SetTarget { revision: Option<String>, allow_backwards: bool, names: Vec<String> },
}

/// Why an operation was refused. Every failure is reported before any
/// mutation is handed to the transaction collaborator, except
/// `TransactionConflict`, which the external collaborator detects while
/// committing.
#[derive(Debug)]
pub enum BranchError {
    NameCollision { name: String },
    UnknownBranch { name: String },
    AmbiguousRevision,
    NoSuchRevision,
    NonFastForward,
    InvalidGlobPattern { pattern: String },
    TransactionConflict,
}


impl BranchError {
    /// The error's message, as it is surfaced to the user.
    pub fn message(&self) -> (r: String)
        ensures
            match self {
                BranchError::NameCollision { name } => r@ == "Branch already exists: "@ + name@,
                BranchError::UnknownBranch { name } => r@ == "No such branch: "@ + name@,
                BranchError::AmbiguousRevision => r@
                    == "Revision resolved to more than one commit"@,
                BranchError::NoSuchRevision => r@ == "No such revision"@,
                BranchError::NonFastForward => r@
                    == "Refusing to move branch backwards or sideways."@,
                BranchError::InvalidGlobPattern { pattern } => r@ == "Invalid glob pattern: "@
                    + pattern@,
                BranchError::TransactionConflict => r@ == "Concurrent modification detected"@,
            },
    {
        match self {
            BranchError::NameCollision { name } => String::from_str(
                "Branch already exists: ",
            ).concat(name.as_str()),
            BranchError::UnknownBranch { name } => String::from_str("No such branch: ").concat(
                name.as_str(),
            ),
            BranchError::AmbiguousRevision => String::from_str(
                "Revision resolved to more than one commit",
            ),
            BranchError::NoSuchRevision => String::from_str("No such revision"),
            BranchError::NonFastForward => String::from_str(
                "Refusing to move branch backwards or sideways.",
            ),
            BranchError::InvalidGlobPattern { pattern } => String::from_str(
                "Invalid glob pattern: ",
            ).concat(pattern.as_str()),
            BranchError::TransactionConflict => String::from_str(
                "Concurrent modification detected",
            ),
        }
    }

    /// The remedial hint that accompanies the error, where one exists.
    pub fn hint(&self) -> (r: Option<&str>)
        ensures
            match self {
                BranchError::NameCollision { .. } => r matches Some(h) && h@
                    == "Use `set` to update it."@,
                BranchError::NonFastForward => r matches Some(h) && h@
                    == "Use --allow-backwards to allow it."@,
                _ => r is None,
            },
    {
        match self {
            BranchError::NameCollision { .. } => Some("Use `set` to update it."),
            BranchError::NonFastForward => Some("Use --allow-backwards to allow it."),
            _ => None,
        }
    }
}

/// The external revision resolver's verdict on a revision expression.
#[derive(Clone, Copy, Debug, PartialEq, Eq, Structural)]
pub enum RevisionResolution {
    Resolved(usize),
    NoMatch,
    Ambiguous,
}

/// One intended change to the branch view, named after the transaction
/// collaborator's primitives.
pub enum Mutation {
    SetLocal { name: String, target: RefTarget },
    RemoveLocal { name: String },
    RemoveBranch { name: String },
}

/// Which operation a transaction description summarizes.
#[derive(Clone, Copy, Debug, PartialEq, Eq, Structural)]
pub enum OpKind {
    CreateBranches,
    PointBranches,
    DeleteBranches,
    ForgetBranches,
}

/// The material of the human-readable transaction description: the
/// operation, the branch names it touches, and the commit it points them at,
/// if any. Rendering it as text is the caller's business.
pub struct TransactionSummary {
    pub kind: OpKind,
    pub names: Vec<String>,
    pub commit: Option<usize>,
}

/// The outcome of a mutating operation: what to commit, how to describe it,
/// and whether to warn that several branches are touched at once.
pub struct BranchPlan {
    pub summary: TransactionSummary,
    pub mutations: Vec<Mutation>,
    pub multiple_warning: bool,
}

/// The name a mutation touches.
pub open spec fn mutation_name(m: Mutation) -> Seq<char> {
    match m {
        Mutation::SetLocal { name, .. } => name@,
        Mutation::RemoveLocal { name } => name@,
        Mutation::RemoveBranch { name } => name@,
    }
}

/// Name `i` cannot be created: it already has a local target, or an earlier
/// name in the same call is the same name.
pub open spec fn collision_at(v: &BranchView, names: Seq<String>, i: int) -> bool {
    v.has_local(names[i]@) || exists|j: int| 0 <= j < i && (#[trigger] names[j])@ == names[i]@
}

/// The first name, from `i` on, that cannot be created.
pub open spec fn first_create_collision(v: &BranchView, names: Seq<String>, i: int) -> Option<
    int,
>
    decreases names.len() - i,
{
    if i >= names.len() {
        None
    } else if collision_at(v, names, i) {
        Some(i)
    } else {
        first_create_collision(v, names, i + 1)
    }
}

/// The first name, from `i` on, that has no local target.
pub open spec fn first_missing_local(v: &BranchView, names: Seq<String>, i: int) -> Option<int>
    decreases names.len() - i,
{
    if i >= names.len() {
        None
    } else if !v.has_local(names[i]@) {
        Some(i)
    } else {
        first_missing_local(v, names, i + 1)
    }
}

/// The first pattern, from `i` on, that is not a well-formed glob.
pub open spec fn first_invalid_glob(globs: Seq<String>, i: int) -> Option<int>
    decreases globs.len() - i,
{
    if i >= globs.len() {
        None
    } else if !glob_pattern_ok(globs[i]@) {
        Some(i)
    } else {
        first_invalid_glob(globs, i + 1)
    }
}

/// A plan that points every named branch at `Single(c)`, in the order the
/// names were given, and warns when more than one branch is touched.
pub open spec fn plan_sets_all(p: BranchPlan, names: Seq<String>, c: usize, kind: OpKind) -> bool {
    &&& p.mutations@.len() == names.len()
    &&& forall|i: int|
        0 <= i < names.len() ==> ((#[trigger] p.mutations@[i]) matches Mutation::SetLocal {
            name,
            target,
        } && name@ == names[i]@ && target == RefTarget::Single(c))
    &&& p.summary.kind == kind
    &&& p.summary.names@.len() == names.len()
    &&& forall|i: int| 0 <= i < names.len() ==> (#[trigger] p.summary.names@[i])@ == names[i]@
    &&& p.summary.commit == Some(c)
    &&& p.multiple_warning == (names.len() > 1)
}

/// A plan that clears the local target of every named branch, in order.
pub open spec fn plan_removes_local(p: BranchPlan, names: Seq<String>) -> bool {
    &&& p.mutations@.len() == names.len()
    &&& forall|i: int|
        0 <= i < names.len() ==> ((#[trigger] p.mutations@[i]) matches Mutation::RemoveLocal {
            name,
        } && name@ == names[i]@)
    &&& p.summary.kind == OpKind::DeleteBranches
    &&& p.summary.names@.len() == names.len()
    &&& forall|i: int| 0 <= i < names.len() ==> (#[trigger] p.summary.names@[i])@ == names[i]@
    &&& p.summary.commit is None
    &&& p.multiple_warning == false
}

/// What `Create` owes: the first colliding name is reported before the
/// resolver's verdict is consulted; then a failed resolution is reported;
/// otherwise the plan points every name at the resolved commit.
pub open spec fn create_post(
    v: &BranchView,
    names: Seq<String>,
    res: RevisionResolution,
    r: Result<BranchPlan, BranchError>,
) -> bool {
    match first_create_collision(v, names, 0) {
        Some(i) => r matches Err(e) && e matches BranchError::NameCollision { name }
            && name@ == names[i]@,
        None => match res {
            RevisionResolution::NoMatch => r matches Err(e) && e matches
                BranchError::NoSuchRevision,
            RevisionResolution::Ambiguous => r matches Err(e) && e matches
                BranchError::AmbiguousRevision,
            RevisionResolution::Resolved(c) => r matches Ok(p) && plan_sets_all(
                p,
                names,
                c,
                OpKind::CreateBranches,
            ),
        },
    }
}

/// What `Delete` owes: the first name without a local target is reported;
/// otherwise the plan clears every name's local target, and remote targets
/// are left untouched.
pub open spec fn delete_post(
    v: &BranchView,
    names: Seq<String>,
    r: Result<BranchPlan, BranchError>,
) -> bool {
    match first_missing_local(v, names, 0) {
        Some(i) => r matches Err(e) && e matches BranchError::UnknownBranch { name } && name@
            == names[i]@,
        None => r matches Ok(p) && plan_removes_local(p, names),
    }
}

/// Copies a list of names.
fn copy_names(names: &Vec<String>) -> (r: Vec<String>)
    ensures
        r@.len() == names@.len(),
        forall|i: int| 0 <= i < names@.len() ==> (#[trigger] r@[i])@ == names@[i]@,
{
    let mut r: Vec<String> = Vec::new();
    let mut i: usize = 0;
    while i < names.len()
        invariant
            i <= names@.len(),
            r@.len() == i,
            forall|j: int| 0 <= j < i ==> (#[trigger] r@[j])@ == names@[j]@,
        decreases names@.len() - i,
    {
        r.push(names[i].clone());
        i += 1;
    }
    r
}

/// One `SetLocal(Single(c))` mutation per name, in order.
fn set_all_mutations(names: &Vec<String>, c: usize) -> (r: Vec<Mutation>)
    ensures
        r@.len() == names@.len(),
        forall|i: int|
            0 <= i < names@.len() ==> ((#[trigger] r@[i]) matches Mutation::SetLocal {
                name,
                target,
            } && name@ == names@[i]@ && target == RefTarget::Single(c)),
{
    let mut r: Vec<Mutation> = Vec::new();
    let mut i: usize = 0;
    while i < names.len()
        invariant
            i <= names@.len(),
            r@.len() == i,
            forall|j: int|
                0 <= j < i ==> ((#[trigger] r@[j]) matches Mutation::SetLocal {
                    name,
                    target,
                } && name@ == names@[j]@ && target == RefTarget::Single(c)),
        decreases names@.len() - i,
    {
        r.push(Mutation::SetLocal { name: names[i].clone(), target: RefTarget::Single(c) });
        i += 1;
    }
    r
}

/// Plans the creation of branches at the resolved revision. Fails with
/// `NameCollision` on the first name that already has a local target or
/// repeats an earlier name of the same call, before any resolution error is
/// reported and before any mutation is emitted.
pub fn create_branches(
    view: &BranchView,
    names: &Vec<String>,
    resolution: &RevisionResolution,
) -> (r: Result<BranchPlan, BranchError>)
    requires
        view.wf(),
    ensures
        create_post(view, names@, *resolution, r),
{
    let mut i: usize = 0;
    while i < names.len()
        invariant
            view.wf(),
            i <= names@.len(),
            forall|j: int| 0 <= j < i ==> !collision_at(view, names@, j),
            first_create_collision(view, names@, 0) == first_create_collision(
                view,
                names@,
                i as int,
            ),
        decreases names@.len() - i,
    {
        if view.has_local_branch(&names[i]) {
            proof {
                assert(collision_at(view, names@, i as int));
            }
            return Err(BranchError::NameCollision { name: names[i].clone() });
        }
        let mut j: usize = 0;
        while j < i
            invariant
                view.wf(),
                i < names@.len(),
                j <= i,
                !view.has_local(names@[i as int]@),
                forall|k: int| 0 <= k < i ==> !collision_at(view, names@, k),
                first_create_collision(view, names@, 0) == first_create_collision(
                    view,
                    names@,
                    i as int,
                ),
                forall|k: int| 0 <= k < j ==> (#[trigger] names@[k])@ != names@[i as int]@,
            decreases i - j,
        {
            if names[j] == names[i] {
                proof {
                    assert(collision_at(view, names@, i as int));
                }
                return Err(BranchError::NameCollision { name: names[i].clone() });
            }
            j += 1;
        }
        proof {
            assert(!collision_at(view, names@, i as int));
        }
        i += 1;
    }
    match resolution {
        RevisionResolution::NoMatch => Err(BranchError::NoSuchRevision),
        RevisionResolution::Ambiguous => Err(BranchError::AmbiguousRevision),
        RevisionResolution::Resolved(c) => {
            let mutations = set_all_mutations(names, *c);
            let summary = TransactionSummary {
                kind: OpKind::CreateBranches,
                names: copy_names(names),
                commit: Some(*c),
            };
            Ok(BranchPlan { summary, mutations, multiple_warning: names.len() > 1 })
        },
    }
}

/// Plans the local deletion of branches. Fails with `UnknownBranch` on the
/// first name that has no local target; remote targets are never touched.
pub fn delete_branches(view: &BranchView, names: &Vec<String>) -> (r: Result<
    BranchPlan,
    BranchError,
>)
    requires
        view.wf(),
    ensures
        delete_post(view, names@, r),
{
    let mut i: usize = 0;
    while i < names.len()
        invariant
            view.wf(),
            i <= names@.len(),
            forall|j: int| 0 <= j < i ==> view.has_local((#[trigger] names@[j])@),
            first_missing_local(view, names@, 0) == first_missing_local(view, names@, i as int),
        decreases names@.len() - i,
    {
        if !view.has_local_branch(&names[i]) {
            return Err(BranchError::UnknownBranch { name: names[i].clone() });
        }
        i += 1;
    }
    let mut mutations: Vec<Mutation> = Vec::new();
    let mut i: usize = 0;
    while i < names.len()
        invariant
            i <= names@.len(),
            mutations@.len() == i,
            forall|j: int|
                0 <= j < i ==> ((#[trigger] mutations@[j]) matches Mutation::RemoveLocal {
                    name,
                } && name@ == names@[j]@),
        decreases names@.len() - i,
    {
        mutations.push(Mutation::RemoveLocal { name: names[i].clone() });
        i += 1;
    }
    let summary = TransactionSummary {
        kind: OpKind::DeleteBranches,
        names: copy_names(names),
        commit: None,
    };
    Ok(BranchPlan { summary, mutations, multiple_warning: false })
}


/// The current local target of `name` permits a fast-forward to `c`; a
/// branch without a local target may always be set.
pub open spec fn branch_fast_forward_ok(
    g: Seq<Seq<usize>>,
    v: &BranchView,
    name: Seq<char>,
    c: usize,
) -> bool {
    if v.has_local(name) {
        match v.record(name).local_target {
            Some(t) => target_fast_forward_ok(g, &t, c),
            None => true,
        }
    } else {
        true
    }
}

/// Every named branch permits a fast-forward to `c`.
pub open spec fn all_fast_forward(
    g: Seq<Seq<usize>>,
    v: &BranchView,
    names: Seq<String>,
    c: usize,
) -> bool {
    forall|i: int|
        0 <= i < names.len() ==> branch_fast_forward_ok(g, v, (#[trigger] names[i])@, c)
}

/// What `SetTarget` owes: a failed resolution is reported; without the
/// override, one branch that cannot fast-forward aborts the whole batch;
/// otherwise the plan points every name at the resolved commit.
pub open spec fn set_post(
    g: Seq<Seq<usize>>,
    v: &BranchView,
    names: Seq<String>,
    res: RevisionResolution,
    allow_backwards: bool,
    r: Result<BranchPlan, BranchError>,
) -> bool {
    match res {
        RevisionResolution::NoMatch => r matches Err(e) && e matches BranchError::NoSuchRevision,
        RevisionResolution::Ambiguous => r matches Err(e) && e matches
            BranchError::AmbiguousRevision,
        RevisionResolution::Resolved(c) => if !allow_backwards && !all_fast_forward(
            g,
            v,
            names,
            c,
        ) {
            r matches Err(e) && e matches BranchError::NonFastForward
        } else {
            r matches Ok(p) && plan_sets_all(p, names, c, OpKind::PointBranches)
        },
    }
}

/// Plans pointing branches at the resolved revision. Unless
/// `allow_backwards` is set, every named branch is checked against the
/// fast-forward policy first; a single failure aborts the whole batch with
/// `NonFastForward` before any mutation is emitted, so no partial
/// application is ever visible.
pub fn set_branches(
    g: &AncestryGraph,
    view: &BranchView,
    names: &Vec<String>,
    resolution: &RevisionResolution,
    allow_backwards: bool,
) -> (r: Result<BranchPlan, BranchError>)
    requires
        g.wf(),
        view.wf(),
        view.in_graph(g@.len() as int),
        *resolution matches RevisionResolution::Resolved(c) ==> c < g@.len(),
    ensures
        set_post(g@, view, names@, *resolution, allow_backwards, r),
{
    let c: usize = match resolution {
        RevisionResolution::NoMatch => {
            return Err(BranchError::NoSuchRevision);
        },
        RevisionResolution::Ambiguous => {
            return Err(BranchError::AmbiguousRevision);
        },
        RevisionResolution::Resolved(c) => *c,
    };
    if !allow_backwards {
        let mut i: usize = 0;
        while i < names.len()
            invariant
                g.wf(),
                view.wf(),
                view.in_graph(g@.len() as int),
                c < g@.len(),
                *resolution == RevisionResolution::Resolved(c),
                !allow_backwards,
                i <= names@.len(),
                forall|j: int|
                    0 <= j < i ==> branch_fast_forward_ok(g@, view, (#[trigger] names@[j])@, c),
            decreases names@.len() - i,
        {
            let name = &names[i];
            let cur = view.get_local(name);
            proof {
                if view.has_local(name@) {
                    let idx = crate::view::name_index(view.entries@, name@);
                    assert(0 <= idx < view.entries@.len()
                        && view.entries@[idx].name@ == name@);
                    assert(view.entries@[idx].record.in_graph(g@.len() as int));
                }
            }
            if !is_fast_forward(g, cur, c) {
                proof {
                    assert(!branch_fast_forward_ok(g@, view, names@[i as int]@, c));
                }
                return Err(BranchError::NonFastForward);
            }
            proof {
                assert(branch_fast_forward_ok(g@, view, names@[i as int]@, c));
            }
            i += 1;
        }
    }
    let mutations = set_all_mutations(names, c);
    let summary = TransactionSummary {
        kind: OpKind::PointBranches,
        names: copy_names(names),
        commit: Some(c),
    };
    Ok(BranchPlan { summary, mutations, multiple_warning: names.len() > 1 })
}


/// Some element of `s` is the name `n`.
pub open spec fn seq_contains_str(s: Seq<String>, n: Seq<char>) -> bool {
    exists|k: int| 0 <= k < s.len() && (#[trigger] s[k])@ == n
}

/// Some glob of the list matches `n`.
pub open spec fn matches_any_glob(globs: Seq<String>, n: Seq<char>) -> bool {
    exists|i: int| 0 <= i < globs.len() && glob_matches((#[trigger] globs[i])@, n)
}

/// `Forget` touches `n`: it was named explicitly, or it is a branch of the
/// view that some glob matches.
pub open spec fn in_forget_set(
    v: &BranchView,
    names: Seq<String>,
    globs: Seq<String>,
    n: Seq<char>,
) -> bool {
    seq_contains_str(names, n) || (v.has_branch(n) && matches_any_glob(globs, n))
}

/// A plan that removes exactly the branches `Forget` touches, each once:
/// every planned name is touched, every touched name is planned, and no name
/// is planned twice.
pub open spec fn plan_forgets(
    v: &BranchView,
    p: BranchPlan,
    names: Seq<String>,
    globs: Seq<String>,
) -> bool {
    &&& p.mutations@.len() == p.summary.names@.len()
    &&& forall|k: int|
        0 <= k < p.mutations@.len() ==> ((#[trigger] p.mutations@[k]) matches
        Mutation::RemoveBranch { name } && name@ == p.summary.names@[k]@)
    &&& forall|k: int|
        0 <= k < p.summary.names@.len() ==> in_forget_set(
            v,
            names,
            globs,
            (#[trigger] p.summary.names@[k])@,
        )
    &&& forall|n: Seq<char>|
        #[trigger] in_forget_set(v, names, globs, n) ==> seq_contains_str(p.summary.names@, n)
    &&& forall|k: int, l: int|
        0 <= k < l < p.summary.names@.len() ==> p.summary.names@[k]@ != p.summary.names@[l]@
    &&& p.summary.kind == OpKind::ForgetBranches
    &&& p.summary.commit is None
    &&& p.multiple_warning == false
}

/// What `Forget` owes: the first explicit name without a local target is
/// reported, then the first ill-formed glob; otherwise the plan removes the
/// explicit names and every branch a glob matches, deduplicated (a glob may
/// match nothing).
pub open spec fn forget_post(
    v: &BranchView,
    names: Seq<String>,
    globs: Seq<String>,
    r: Result<BranchPlan, BranchError>,
) -> bool {
    match first_missing_local(v, names, 0) {
        Some(i) => r matches Err(e) && e matches BranchError::UnknownBranch { name } && name@
            == names[i]@,
        None => match first_invalid_glob(globs, 0) {
            Some(i) => r matches Err(e) && e matches BranchError::InvalidGlobPattern { pattern }
                && pattern@ == globs[i]@,
            None => r matches Ok(p) && plan_forgets(v, p, names, globs),
        },
    }
}

/// A name found in a list is still found after the list grows at the end.
proof fn lemma_contains_grow(s: Seq<String>, t: Seq<String>, n: Seq<char>)
    requires
        seq_contains_str(s, n),
        s.len() <= t.len(),
        forall|k: int| 0 <= k < s.len() ==> t[k] == s[k],
    ensures
        seq_contains_str(t, n),
{
    let k = choose|k: int| 0 <= k < s.len() && (#[trigger] s[k])@ == n;
    assert(t[k]@ == n);
}

/// Whether the list already holds the name.
fn contains_name(v: &Vec<String>, s: &String) -> (r: bool)
    ensures
        r == seq_contains_str(v@, s@),
{
    let mut k: usize = 0;
    while k < v.len()
        invariant
            k <= v@.len(),
            forall|j: int| 0 <= j < k ==> (#[trigger] v@[j])@ != s@,
        decreases v@.len() - k,
    {
        if v[k] == *s {
            return true;
        }
        k += 1;
    }
    false
}

/// Whether any of the (well-formed) globs matches the name.
fn any_glob_matches(globs: &Vec<String>, name: &String) -> (r: bool)
    requires
        forall|i: int| 0 <= i < globs@.len() ==> glob_pattern_ok((#[trigger] globs@[i])@),
    ensures
        r == matches_any_glob(globs@, name@),
{
    let mut k: usize = 0;
    while k < globs.len()
        invariant
            forall|i: int| 0 <= i < globs@.len() ==> glob_pattern_ok((#[trigger] globs@[i])@),
            k <= globs@.len(),
            forall|j: int| 0 <= j < k ==> !glob_matches((#[trigger] globs@[j])@, name@),
        decreases globs@.len() - k,
    {
        if glob_match(globs[k].as_str(), name.as_str()) {
            return true;
        }
        k += 1;
    }
    false
}

/// Plans forgetting branches: the explicit names (each of which must have a
/// local target) together with every branch of the view that some glob
/// matches, each removed entirely, local and remote targets alike.
pub fn forget_branches(view: &BranchView, names: &Vec<String>, globs: &Vec<String>) -> (r: Result<
    BranchPlan,
    BranchError,
>)
    requires
        view.wf(),
    ensures
        forget_post(view, names@, globs@, r),
{
    let mut i: usize = 0;
    while i < names.len()
        invariant
            view.wf(),
            i <= names@.len(),
            forall|j: int| 0 <= j < i ==> view.has_local((#[trigger] names@[j])@),
            first_missing_local(view, names@, 0) == first_missing_local(view, names@, i as int),
        decreases names@.len() - i,
    {
        if !view.has_local_branch(&names[i]) {
            return Err(BranchError::UnknownBranch { name: names[i].clone() });
        }
        i += 1;
    }
    let mut i: usize = 0;
    while i < globs.len()
        invariant
            view.wf(),
            names@.len() > 0 ==> first_missing_local(view, names@, 0) is None,
            first_missing_local(view, names@, 0) is None,
            i <= globs@.len(),
            forall|j: int| 0 <= j < i ==> glob_pattern_ok((#[trigger] globs@[j])@),
            first_invalid_glob(globs@, 0) == first_invalid_glob(globs@, i as int),
        decreases globs@.len() - i,
    {
        if !glob_is_valid(globs[i].as_str()) {
            return Err(BranchError::InvalidGlobPattern { pattern: globs[i].clone() });
        }
        i += 1;
    }
    let mut out: Vec<String> = Vec::new();
    let mut i: usize = 0;
    while i < names.len()
        invariant
            view.wf(),
            i <= names@.len(),
            forall|k: int|
                0 <= k < out@.len() ==> seq_contains_str(names@, (#[trigger] out@[k])@),
            forall|j: int| 0 <= j < i ==> seq_contains_str(out@, (#[trigger] names@[j])@),
            forall|k: int, l: int| 0 <= k < l < out@.len() ==> out@[k]@ != out@[l]@,
        decreases names@.len() - i,
    {
        let ghost out0 = out@;
        if !contains_name(&out, &names[i]) {
            out.push(names[i].clone());
            proof {
                assert(out@[out0.len() as int]@ == names@[i as int]@);
                assert(seq_contains_str(out@, names@[i as int]@));
                assert forall|k: int, l: int| 0 <= k < l < out@.len() implies out@[k]@
                    != out@[l]@ by {
                    if l == out0.len() {
                        assert(out@[k] == out0[k]);
                        assert(!seq_contains_str(out0, names@[i as int]@));
                    }
                }
            }
        } else {
            proof {
                assert(seq_contains_str(out@, names@[i as int]@));
            }
        }
        proof {
            assert forall|j: int| 0 <= j < i + 1 implies seq_contains_str(
                out@,
                (#[trigger] names@[j])@,
            ) by {
                if j < i {
                    lemma_contains_grow(out0, out@, names@[j]@);
                }
            }
        }
        i += 1;
    }
    let mut i: usize = 0;
    while i < view.entries.len()
        invariant
            view.wf(),
            forall|j: int| 0 <= j < globs@.len() ==> glob_pattern_ok((#[trigger] globs@[j])@),
            i <= view.entries@.len(),
            forall|k: int|
                0 <= k < out@.len() ==> in_forget_set(view, names@, globs@, (#[trigger] out@[k])@),
            forall|j: int| 0 <= j < names@.len() ==> seq_contains_str(out@, (#[trigger] names@[j])@),
            forall|j: int|
                0 <= j < i && matches_any_glob(globs@, (#[trigger] view.entries@[j]).name@)
                    ==> seq_contains_str(out@, view.entries@[j].name@),
            forall|k: int, l: int| 0 <= k < l < out@.len() ==> out@[k]@ != out@[l]@,
        decreases view.entries@.len() - i,
    {
        let entry_name = &view.entries[i].name;
        let ghost out0 = out@;
        if any_glob_matches(globs, entry_name) {
            if !contains_name(&out, entry_name) {
                proof {
                    assert(view.has_branch(entry_name@));
                }
                out.push(entry_name.clone());
                proof {
                    assert(out@[out0.len() as int]@ == entry_name@);
                    assert(seq_contains_str(out@, entry_name@));
                    assert forall|k: int, l: int| 0 <= k < l < out@.len() implies out@[k]@
                        != out@[l]@ by {
                        if l == out0.len() {
                            assert(out@[k] == out0[k]);
                            assert(!seq_contains_str(out0, entry_name@));
                        }
                    }
                }
            } else {
                proof {
                    assert(seq_contains_str(out@, entry_name@));
                }
            }
        }
        proof {
            assert forall|j: int| 0 <= j < names@.len() implies seq_contains_str(
                out@,
                (#[trigger] names@[j])@,
            ) by {
                lemma_contains_grow(out0, out@, names@[j]@);
            }
            assert forall|j: int|
                0 <= j < i + 1 && matches_any_glob(
                    globs@,
                    (#[trigger] view.entries@[j]).name@,
                ) implies seq_contains_str(out@, view.entries@[j].name@) by {
                if j < i {
                    lemma_contains_grow(out0, out@, view.entries@[j].name@);
                } else {
                    assert(seq_contains_str(out@, entry_name@));
                }
            }
        }
        i += 1;
    }
    let mut mutations: Vec<Mutation> = Vec::new();
    let mut i: usize = 0;
    while i < out.len()
        invariant
            i <= out@.len(),
            mutations@.len() == i,
            forall|k: int|
                0 <= k < i ==> ((#[trigger] mutations@[k]) matches Mutation::RemoveBranch {
                    name,
                } && name@ == out@[k]@),
        decreases out@.len() - i,
    {
        mutations.push(Mutation::RemoveBranch { name: out[i].clone() });
        i += 1;
    }
    proof {
        assert forall|n: Seq<char>| #[trigger]
            in_forget_set(view, names@, globs@, n) implies seq_contains_str(out@, n) by {
            if seq_contains_str(names@, n) {
                let j = choose|j: int| 0 <= j < names@.len() && (#[trigger] names@[j])@ == n;
                assert(seq_contains_str(out@, names@[j]@));
            } else {
                let j = choose|j: int|
                    0 <= j < view.entries@.len() && (#[trigger] view.entries@[j]).name@ == n;
                assert(seq_contains_str(out@, view.entries@[j].name@));
            }
        }
    }
    let summary = TransactionSummary { kind: OpKind::ForgetBranches, names: out, commit: None };
    Ok(BranchPlan { summary, mutations, multiple_warning: false })
}


/// The revision expression an operation resolves: the one given, or the
/// working-copy parent.
pub fn effective_revision(revision: &Option<String>) -> (r: &str)
    ensures
        match revision {
            Some(s) => r@ == s@,
            None => r@ == "@"@,
        },
{
    match revision {
        Some(s) => s.as_str(),
        None => "@",
    }
}

/// A mutation's target, if it sets one, has a live head.
pub open spec fn mutation_wf(m: Mutation) -> bool {
    match m {
        Mutation::SetLocal { target, .. } => target.wf(),
        _ => true,
    }
}

/// What one committed mutation does to the view: the effect on the named
/// branch, and nothing else changed.
pub open spec fn mutation_post(a: &BranchView, b: &BranchView, m: Mutation) -> bool {
    match m {
        Mutation::SetLocal { name, target } => {
            &&& b.has_local(name@)
            &&& (b.record(name@).local_target matches Some(t) && crate::target::target_eq(
                &t,
                &target,
            ))
            &&& same_branches_except(a.entries@, b.entries@, name@)
        },
        Mutation::RemoveLocal { name } => {
            &&& !b.has_local(name@)
            &&& same_branches_except(a.entries@, b.entries@, name@)
            &&& b.has_branch(name@) == (a.has_branch(name@) && a.record(
                name@,
            ).remote_targets@.len() > 0)
        },
        Mutation::RemoveBranch { name } => {
            &&& !b.has_branch(name@)
            &&& same_branches_except(a.entries@, b.entries@, name@)
        },
    }
}

/// Commits one mutation to the view, as the transaction collaborator would.
pub fn apply_mutation(view: &mut BranchView, m: &Mutation)
    requires
        old(view).wf(),
        mutation_wf(*m),
    ensures
        final(view).wf(),
        mutation_post(old(view), final(view), *m),
{
    match m {
        Mutation::SetLocal { name, target } => {
            view.set_local_branch(name.clone(), clone_target(target));
        },
        Mutation::RemoveLocal { name } => {
            view.remove_local_branch(name);
        },
        Mutation::RemoveBranch { name } => {
            view.remove_branch(name);
        },
    }
}

/// Some mutation of the list touches the branch named `n`.
pub open spec fn mutations_touch(muts: Seq<Mutation>, n: Seq<char>) -> bool {
    exists|k: int| 0 <= k < muts.len() && mutation_name(#[trigger] muts[k]) == n
}

/// Commits a plan's mutations in order. Branches no mutation touches are
/// left exactly as they were.
pub fn apply_mutations(view: &mut BranchView, muts: &Vec<Mutation>)
    requires
        old(view).wf(),
        forall|k: int| 0 <= k < muts@.len() ==> mutation_wf(#[trigger] muts@[k]),
    ensures
        final(view).wf(),
        forall|n: Seq<char>|
            !mutations_touch(muts@, n) ==> #[trigger] same_branch(
                old(view).entries@,
                final(view).entries@,
                n,
            ),
{
    let ghost orig = view.entries@;
    let mut k: usize = 0;
    while k < muts.len()
        invariant
            view.wf(),
            forall|j: int| 0 <= j < muts@.len() ==> mutation_wf(#[trigger] muts@[j]),
            k <= muts@.len(),
            forall|n: Seq<char>|
                !mutations_touch(muts@, n) ==> #[trigger] same_branch(orig, view.entries@, n),
        decreases muts@.len() - k,
    {
        let ghost pre = view.entries@;
        apply_mutation(view, &muts[k]);
        proof {
            assert forall|n: Seq<char>| !mutations_touch(muts@, n) implies #[trigger] same_branch(
                orig,
                view.entries@,
                n,
            ) by {
                assert(mutation_name(muts@[k as int]) != n);
                assert(same_branch(orig, pre, n));
                assert(same_branch(pre, view.entries@, n));
            }
        }
        k += 1;
    }
}

/// What a branch operation hands back: a plan for the transaction
/// collaborator, or the listing.
pub enum CommandOutcome {
    Planned(BranchPlan),
    Listed(Vec<BranchListing>),
}

/// Dispatches one branch operation against the view. `resolution` is the
/// external resolver's verdict on the operation's effective revision; the
/// operations that take no revision ignore it.
pub fn cmd_branch(
    g: &AncestryGraph,
    view: &BranchView,
    subcommand: &BranchSubcommand,
    resolution: &RevisionResolution,
) -> (r: Result<CommandOutcome, BranchError>)
    requires
        g.wf(),
        view.wf(),
        view.in_graph(g@.len() as int),
        *resolution matches RevisionResolution::Resolved(c) ==> c < g@.len(),
    ensures
        match subcommand {
            BranchSubcommand::Create { names, .. } => match r {
                Ok(o) => o matches CommandOutcome::Planned(p) && create_post(
                    view,
                    names@,
                    *resolution,
                    Ok(p),
                ),
                Err(e) => create_post(view, names@, *resolution, Err(e)),
            },
            BranchSubcommand::Delete { names } => match r {
                Ok(o) => o matches CommandOutcome::Planned(p) && delete_post(view, names@, Ok(p)),
                Err(e) => delete_post(view, names@, Err(e)),
            },
            BranchSubcommand::Forget { names, glob } => match r {
                Ok(o) => o matches CommandOutcome::Planned(p) && forget_post(
                    view,
                    names@,
                    glob@,
                    Ok(p),
                ),
                Err(e) => forget_post(view, names@, glob@, Err(e)),
            },
            BranchSubcommand::List => r matches Ok(o) && o matches CommandOutcome::Listed(ls)
                && ls@.len() == view.entries@.len() && forall|i: int|
                0 <= i < ls@.len() ==> list_entry_ok(g@, view.entries@[i], #[trigger] ls@[i]),
            BranchSubcommand::SetTarget { allow_backwards, names, .. } => match r {
                Ok(o) => o matches CommandOutcome::Planned(p) && set_post(
                    g@,
                    view,
                    names@,
                    *resolution,
                    *allow_backwards,
                    Ok(p),
                ),
                Err(e) => set_post(g@, view, names@, *resolution, *allow_backwards, Err(e)),
            },
        },
{
    match subcommand {
        BranchSubcommand::Create { revision: _, names } => {
            match create_branches(view, names, resolution) {
                Ok(p) => Ok(CommandOutcome::Planned(p)),
                Err(e) => Err(e),
            }
        },
        BranchSubcommand::Delete { names } => {
            match delete_branches(view, names) {
                Ok(p) => Ok(CommandOutcome::Planned(p)),
                Err(e) => Err(e),
            }
        },
        BranchSubcommand::Forget { names, glob } => {
            match forget_branches(view, names, glob) {
                Ok(p) => Ok(CommandOutcome::Planned(p)),
                Err(e) => Err(e),
            }
        },
        BranchSubcommand::List => Ok(CommandOutcome::Listed(list_branches(g, view))),
        BranchSubcommand::SetTarget { revision: _, allow_backwards, names } => {
            match set_branches(g, view, names, resolution, *allow_backwards) {
                Ok(p) => Ok(CommandOutcome::Planned(p)),
                Err(e) => Err(e),
            }
        },
    }
}

} // verus!
