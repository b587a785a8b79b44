//! The collection structures backing the harness's cross-checks: votes,
//! proposals and commits, cached per height and round in bounded windows.

pub mod commit;
pub mod proposal;
pub mod vote_cache;
