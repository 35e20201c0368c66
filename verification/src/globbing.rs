//! Shell-style glob matching of branch names, provided by the `glob` crate.
//!
//! Whether a pattern is well-formed, and whether a well-formed pattern
//! matches a name, are functions of the strings alone; both are named here
//! and stated as the contracts of the two wrappers.

use vstd::prelude::*;

verus! {

/// Whether `glob::Pattern::new` accepts the pattern.
pub uninterp spec fn glob_pattern_ok(pattern: Seq<char>) -> bool;

/// Whether a well-formed pattern matches a name, as `glob::Pattern::matches`
/// decides it.
pub uninterp spec fn glob_matches(pattern: Seq<char>, name: Seq<char>) -> bool;

/// Relies on glob::Pattern::new: it returns `Ok` exactly when the pattern is
/// well-formed, deciding that from the pattern string alone.
#[verifier::external_body]
pub(crate) fn glob_is_valid(pattern: &str) -> (r: bool)
    ensures
        r == glob_pattern_ok(pattern@),
{
    glob::Pattern::new(pattern).is_ok()
}

/// Relies on glob::Pattern::new and glob::Pattern::matches: compiling a
/// well-formed pattern cannot fail, and whether the compiled pattern matches
/// a name depends only on the pattern and name strings.
#[verifier::external_body]
pub(crate) fn glob_match(pattern: &str, name: &str) -> (r: bool)
    requires
        glob_pattern_ok(pattern@),
    ensures
        r == glob_matches(pattern@, name@),
{
    match glob::Pattern::new(pattern) {
        Ok(p) => p.matches(name),
        Err(_) => false,
    }
}

} // verus!
