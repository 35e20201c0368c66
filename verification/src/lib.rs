//! Named mutable references (branches) into a commit ancestry graph, and the
//! policy engine that validates and plans updates to them.
//!
//! Commits are identified by dense indices into an [`graph::AncestryGraph`];
//! equality of identifiers is equality of commits. The engine reads a
//! [`view::BranchView`], consults the fast-forward policy and the divergence
//! calculator, and emits a mutation plan for an external transaction layer
//! to commit.

pub mod divergence;
pub mod engine;
pub mod globbing;
pub mod graph;
pub mod list;
pub mod order;
pub mod policy;
pub mod target;
pub mod view;
