//! The protocol-invariant violations the whitebox harness can raise, and the
//! environment faults of the surrounding frame.

use vstd::prelude::*;

verus! {

use crate::whitebox::{Proposal, Vote};

/// A protocol-invariant violation. The first violation aborts the remaining
/// script and is surfaced to the caller; there is no retry.
#[derive(Debug)]
pub enum BftError {
    /// Two differing commit results were observed for one height.
    CommitDiff(u64),
    /// A commit disagrees with the proposal the harness tracks.
    CommitIncorrect(u64),
    /// A commit was observed where the script allows none.
    CommitInvalid(u64),
    /// Reserved; no transition currently produces it.
    MislaidCommit(u64),
    /// A participant committed twice for one height.
    MultipleCommit(u64),
    /// A precommit was attempted without a prevote quorum.
    ShouldNotPrecommit(u64, u64),
    /// A proposal arrived where a vote was awaited.
    AbnormalProposal(Proposal),
    /// A vote of the wrong step, or for a denylisted value.
    IllegalVote(Vote),
    /// A precommit value disagrees with the quorum prevote value.
    PrecommitErr(u64, u64),
    /// Too few corroborating prevotes back the precommit value.
    PrecommitDiffPoLC(Vote),
    /// The proposer index the node selected falls outside the authority list.
    ProposerBeyondList(u64, u64),
}

/// An unrecoverable fault of the harness's own environment.
#[derive(Debug)]
pub enum FrameError {
    /// The persistence sink failed.
    SQLiteErr(usize),
}

} // verus!
