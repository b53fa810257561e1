//! Consolidates the third-party dependencies that the members of a cargo
//! workspace declare into the workspace's shared dependency table.
//!
//! The library holds the merge rules for dependency specifications, the
//! simplification of merged version requirements, the unification of all
//! declarations of one package, and the decisions that rewrite each manifest.
pub mod dependency;
pub mod requirement;
pub mod unify;
pub mod patch;
