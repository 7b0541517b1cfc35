//! Counts, for the inputs pinned in a flake lock file, the commits that each
//! one is behind its upstream branch on GitHub.
//!
//! The library holds the decisions: which inputs can be checked, where the
//! answer for one comparison is cached, what to do with each answer of the
//! cache and of the remote host, and how the answers add up. Reading files and
//! talking to the network is left to the caller, who performs the request that
//! each stage of a check names and reports what came of it.

pub mod cache;
pub mod escape;
pub mod failure;
pub mod input;
pub mod json;
pub mod reconcile;
pub mod text;
