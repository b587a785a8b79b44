//! A test harness for BFT consensus implementations under test.
//!
//! The harness drives a node through scripted sequences of consensus-round
//! events (proposals, votes, commits), emulating normal, offline and byzantine
//! participants, and independently checks that the protocol's promised
//! invariants hold: a single commit per height, lock consistency across
//! rounds, and quorum-gated precommits.

pub mod actuator;
mod bytes;
pub mod check;
pub mod collection;
pub mod correctness;
pub mod error;
mod lru;
mod rng;
pub mod whitebox;
