//! The violations the blackbox harness and its collectors can raise.

use vstd::prelude::*;

verus! {

use crate::whitebox::Proposal;

/// A protocol-invariant violation observed by the blackbox harness. The first
/// violation aborts the remaining script; there is no retry.
#[derive(Debug)]
pub enum BftError {
    /// Two differing commit results were observed for one height.
    CommitDiff(u64),
    /// A commit disagrees with the proposal recorded for its height.
    CommitIncorrect(u64),
    /// A commit was observed for a height with no recorded proposal.
    CommitInvalid(u64),
    /// Reserved; no transition currently produces it.
    MislaidCommit(u64),
    /// A participant committed twice for one height.
    MultipleCommit(u64),
    /// A precommit was attempted without a prevote quorum.
    ShouldNotPrecommit(u64, u64),
    /// A proposal arrived where a vote was awaited.
    AbnormalProposal(Proposal),
    /// An ill-formed precommit was observed.
    IllegalPrecommit(u64, u64),
    /// An ill-formed prevote was observed.
    IllegalPrevote(u64, u64),
    /// The proposer index the node selected falls outside the authority list.
    ProposerBeyondList(u64, u64),
}

/// An unrecoverable fault of the harness's own environment.
#[derive(Debug)]
pub enum FrameError {
    /// The persistence sink failed.
    SQLiteErr(usize),
}

} // verus!
