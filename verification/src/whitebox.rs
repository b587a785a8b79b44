//! Message types exchanged with the node under test, and the capability
//! contract through which the harness drives it.

pub mod actuator;
pub mod correctness;
pub mod error;

use vstd::prelude::*;

verus! {

/// An opaque participant identifier; the authority list is ordered and
/// defines proposer rotation.
pub type Address = Vec<u8>;

/// Result of a protocol-invariant check.
pub type BftResult<T> = Result<T, crate::whitebox::error::BftError>;

/// Result of an environment operation of the surrounding frame.
pub type FrameResult<T> = Result<T, crate::whitebox::error::FrameError>;

/// A message received from the node under test.
#[derive(Clone, Debug, PartialEq, Eq)]
pub enum FrameRecv {
    /// A proposal emitted by the node.
    Proposal(Proposal),
    /// A vote emitted by the node.
    Vote(Vote),
}

/// A message the harness sends to the node under test.
#[derive(Clone, Debug, PartialEq, Eq)]
pub enum FrameSend {
    /// A synthesized proposal.
    Proposal(Proposal),
    /// A synthesized vote.
    Vote(Vote),
    /// The harness's own candidate value when it occupies the proposer seat.
    Feed(Feed),
    /// A height announcement with the authority list.
    Status(Status),
}

/// A proposal for one (height, round), carrying the proposer's lock if held.
#[derive(Clone, Debug, Hash, Eq, PartialEq)]
pub struct Proposal {
    /// Consensus instance the proposal belongs to.
    pub height: u64,
    /// Sub-attempt within the height.
    pub round: u64,
    /// The proposed value.
    pub content: Vec<u8>,
    /// The authority that proposes.
    pub proposer: Address,
    /// The round of the proposer's lock, if one is held.
    pub lock_round: Option<u64>,
    /// The prevotes justifying the lock.
    pub lock_votes: Vec<Vote>,
}

/// One participant's ballot in one (height, round, step) slot.
#[derive(Clone, Debug, Hash, Eq, PartialEq)]
pub struct Vote {
    /// Consensus instance the vote belongs to.
    pub height: u64,
    /// Sub-attempt within the height.
    pub round: u64,
    /// The step the vote belongs to.
    pub vote_type: VoteType,
    /// The voted value; the empty value stands for "nil".
    pub proposal: Vec<u8>,
    /// The participant that voted.
    pub voter: Address,
}

/// A participant's commit of a result for one height.
#[derive(Clone, Debug, Hash, Eq, PartialEq)]
pub struct Commit {
    /// Identifier of the committing participant.
    pub node: u8,
    /// Consensus instance the commit concludes.
    pub height: u64,
    /// The committed result.
    pub result: Vec<u8>,
}

/// The harness's own candidate value for one height.
#[derive(Clone, Debug, Hash, Eq, PartialEq)]
pub struct Feed {
    /// Consensus instance the value is fed to.
    pub height: u64,
    /// The candidate value.
    pub proposal: Vec<u8>,
}

/// A height announcement carrying the authority list.
#[derive(Clone, Debug, Hash, Eq, PartialEq)]
pub struct Status {
    /// The announced height.
    pub height: u64,
    /// The ordered list of authorities.
    pub authority_list: Vec<Address>,
}

/// The step a vote belongs to.
#[derive(Clone, Copy, Debug, Hash, Eq, PartialEq, Structural)]
pub enum VoteType {
    /// The first voting step of a round.
    Prevote,
    /// The second voting step of a round.
    Precommit,
}

/// Mathematical content of a vote.
pub ghost struct VoteModel {
    /// Consensus instance the vote belongs to.
    pub height: u64,
    /// Sub-attempt within the height.
    pub round: u64,
    /// The step the vote belongs to.
    pub vote_type: VoteType,
    /// The voted value.
    pub proposal: Seq<u8>,
    /// The participant that voted.
    pub voter: Seq<u8>,
}

/// Mathematical content of a proposal.
pub ghost struct ProposalModel {
    /// Consensus instance the proposal belongs to.
    pub height: u64,
    /// Sub-attempt within the height.
    pub round: u64,
    /// The proposed value.
    pub content: Seq<u8>,
    /// The authority that proposes.
    pub proposer: Seq<u8>,
    /// The round of the proposer's lock, if one is held.
    pub lock_round: Option<u64>,
    /// The prevotes justifying the lock.
    pub lock_votes: Seq<VoteModel>,
}

impl Vote {
    /// The vote's mathematical content.
    pub open spec fn model(&self) -> VoteModel {
        VoteModel {
            height: self.height,
            round: self.round,
            vote_type: self.vote_type,
            proposal: self.proposal@,
            voter: self.voter@,
        }
    }

    /// Rebuilds an equal vote.
    pub fn duplicate(&self) -> (r: Vote)
        ensures
            r.model() == self.model(),
    {
        Vote {
            height: self.height,
            round: self.round,
            vote_type: self.vote_type,
            proposal: crate::bytes::copy_bytes(&self.proposal),
            voter: crate::bytes::copy_bytes(&self.voter),
        }
    }
}

impl Proposal {
    /// The proposal's mathematical content.
    pub open spec fn model(&self) -> ProposalModel {
        ProposalModel {
            height: self.height,
            round: self.round,
            content: self.content@,
            proposer: self.proposer@,
            lock_round: self.lock_round,
            lock_votes: Seq::new(self.lock_votes@.len(), |i: int| self.lock_votes@[i].model()),
        }
    }

    /// Rebuilds an equal proposal.
    pub fn duplicate(&self) -> (r: Proposal)
        ensures
            r.model() == self.model(),
    {
        let mut lock_votes: Vec<Vote> = Vec::new();
        let mut i: usize = 0;
        let n = self.lock_votes.len();
        while i < n
            invariant
                i <= n,
                n == self.lock_votes@.len(),
                lock_votes@.len() == i,
                forall|j: int|
                    0 <= j < i ==> (#[trigger] lock_votes@[j]).model()
                        == self.lock_votes@[j].model(),
            decreases n - i,
        {
            lock_votes.push(self.lock_votes[i].duplicate());
            i = i + 1;
        }
        let r = Proposal {
            height: self.height,
            round: self.round,
            content: crate::bytes::copy_bytes(&self.content),
            proposer: crate::bytes::copy_bytes(&self.proposer),
            lock_round: self.lock_round,
            lock_votes,
        };
        proof {
            assert(r.model().lock_votes =~= self.model().lock_votes);
        }
        r
    }
}

/// The capability contract with the node under test. The harness calls these
/// five operations and nothing else of the node; an adapter or a test double
/// implements them.
pub trait Support {
    /// Delivers one message to the node; fire and forget.
    fn send(&self, msg: FrameSend);

    /// Blocks until the node emits one proposal or vote.
    fn recv(&self) -> FrameRecv;

    /// Polls the node for a commit; absence means "not yet committed".
    fn try_get_commit(&self) -> Option<Commit>;

    /// Signals the node to terminate.
    fn stop(&self);

    /// Selects the authority-list index of the proposer of (height, round);
    /// index 0 means the harness itself proposes.
    fn cal_proposer(&self, height: u64, round: u64) -> usize;
}

} // verus!
