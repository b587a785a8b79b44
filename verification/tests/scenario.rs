//! End-to-end scenarios: a scripted node double answers the whitebox
//! actuator, and the tests observe the commit decisions, the lock
//! propagation and each protocol violation.

use std::cell::RefCell;
use std::rc::Rc;

use bft_test::whitebox::actuator::Actuator;
use bft_test::whitebox::correctness::test_case::{
    BftTestUnit, NO_COMMIT_BUT_LOCK, NO_COMMIT_NO_LOCK, SHOULD_COMMIT,
};
use bft_test::whitebox::error::BftError;
use bft_test::whitebox::{Commit, FrameRecv, FrameSend, Support, Vote, VoteType};

#[derive(Clone, Copy, PartialEq)]
enum RecvStyle {
    /// Answer each ballot half with an honest vote for the tracked value.
    Honest,
    /// Answer with a proposal where a vote is awaited.
    AlwaysProposal,
    /// Answer the prevote step with a precommit-typed vote.
    WrongType,
    /// Answer with a vote for a denylisted value.
    Denylisted,
    /// Answer the precommit step with a vote for a conflicting clean value.
    WrongPrecommitValue,
}

struct NodeState {
    height: u64,
    round: u64,
    value: Vec<u8>,
    recv_count: u64,
    sent: Vec<FrameSend>,
}

struct ScriptedNode {
    state: Rc<RefCell<NodeState>>,
    style: RecvStyle,
    commits: bool,
    commit_override: Option<Vec<u8>>,
    proposer: usize,
}

fn fresh_state() -> Rc<RefCell<NodeState>> {
    Rc::new(RefCell::new(NodeState {
        height: 0,
        round: 0,
        value: Vec::new(),
        recv_count: 0,
        sent: Vec::new(),
    }))
}

impl ScriptedNode {
    fn honest(state: Rc<RefCell<NodeState>>, commits: bool) -> ScriptedNode {
        ScriptedNode {
            state,
            style: RecvStyle::Honest,
            commits,
            commit_override: None,
            proposer: 1,
        }
    }
}

impl Support for ScriptedNode {
    fn send(&self, msg: FrameSend) {
        let mut st = self.state.borrow_mut();
        match &msg {
            FrameSend::Proposal(p) => {
                st.height = p.height;
                st.round = p.round;
                st.value = p.content.clone();
            }
            FrameSend::Feed(f) => {
                st.height = f.height;
                st.value = f.proposal.clone();
            }
            _ => {}
        }
        st.sent.push(msg);
    }

    fn recv(&self) -> FrameRecv {
        let mut st = self.state.borrow_mut();
        let precommit_step = st.recv_count % 2 == 1;
        st.recv_count += 1;
        let honest_type = if precommit_step { VoteType::Precommit } else { VoteType::Prevote };
        match self.style {
            RecvStyle::AlwaysProposal => FrameRecv::Proposal(bft_test::whitebox::Proposal {
                height: st.height,
                round: st.round,
                content: st.value.clone(),
                proposer: b"a0".to_vec(),
                lock_round: None,
                lock_votes: Vec::new(),
            }),
            RecvStyle::WrongType => FrameRecv::Vote(Vote {
                height: st.height,
                round: st.round,
                vote_type: VoteType::Precommit,
                proposal: st.value.clone(),
                voter: b"a0".to_vec(),
            }),
            RecvStyle::Denylisted => FrameRecv::Vote(Vote {
                height: st.height,
                round: st.round,
                vote_type: honest_type,
                proposal: vec![0, 0, 0, 0, 0, 0],
                voter: b"a0".to_vec(),
            }),
            RecvStyle::WrongPrecommitValue => {
                let value = if precommit_step { vec![5, 5, 5, 5, 5, 5] } else { st.value.clone() };
                FrameRecv::Vote(Vote {
                    height: st.height,
                    round: st.round,
                    vote_type: honest_type,
                    proposal: value,
                    voter: b"a0".to_vec(),
                })
            }
            RecvStyle::Honest => FrameRecv::Vote(Vote {
                height: st.height,
                round: st.round,
                vote_type: honest_type,
                proposal: st.value.clone(),
                voter: b"a0".to_vec(),
            }),
        }
    }

    fn try_get_commit(&self) -> Option<Commit> {
        if !self.commits {
            return None;
        }
        let st = self.state.borrow();
        let result = match &self.commit_override {
            Some(fixed) => fixed.clone(),
            None => st.value.clone(),
        };
        Some(Commit { node: 0, height: st.height, result })
    }

    fn stop(&self) {}

    fn cal_proposer(&self, _height: u64, _round: u64) -> usize {
        self.proposer
    }
}

fn four_authorities() -> Vec<Vec<u8>> {
    vec![b"a0".to_vec(), b"a1".to_vec(), b"a2".to_vec(), b"a3".to_vec()]
}

fn normal_unit() -> BftTestUnit {
    [1, 1, 1, 1, 1, 1]
}

#[test]
fn normal_script_commits_and_advances() {
    let state = fresh_state();
    let node = ScriptedNode::honest(state.clone(), true);
    let mut actuator = Actuator::new(node, 1, 0, four_authorities());
    let result = actuator.proc_test(vec![normal_unit(), SHOULD_COMMIT]);
    assert!(result.is_ok());
    assert_eq!(actuator.get_height(), 2);
    assert_eq!(actuator.get_round(), 0);

    // The committed result equals the height's proposal.
    let st = state.borrow();
    let proposal_content = st.sent.iter().find_map(|msg| match msg {
        FrameSend::Proposal(p) => Some(p.content.clone()),
        _ => None,
    });
    assert_eq!(proposal_content, Some(st.value.clone()));
}

#[test]
fn byzantine_minority_still_commits() {
    let state = fresh_state();
    let node = ScriptedNode::honest(state.clone(), true);
    let mut actuator = Actuator::new(node, 1, 0, four_authorities());
    let byzantine_unit: BftTestUnit = [2, 1, 1, 2, 1, 1];
    let result = actuator.proc_test(vec![byzantine_unit, SHOULD_COMMIT]);
    assert!(result.is_ok());
    assert_eq!(actuator.get_height(), 2);
    assert_eq!(actuator.get_round(), 0);
}

#[test]
fn lock_carried_into_next_round() {
    let state = fresh_state();
    let node = ScriptedNode::honest(state.clone(), false);
    let mut actuator = Actuator::new(node, 1, 0, four_authorities());
    let result = actuator.proc_test(vec![normal_unit(), NO_COMMIT_BUT_LOCK, normal_unit()]);
    assert!(result.is_ok());
    assert_eq!(actuator.get_round(), 1);

    let st = state.borrow();
    let proposals: Vec<_> = st
        .sent
        .iter()
        .filter_map(|msg| match msg {
            FrameSend::Proposal(p) => Some(p.clone()),
            _ => None,
        })
        .collect();
    assert_eq!(proposals.len(), 2);
    // The first round's value was freshly drawn outside the denylist.
    assert_eq!(proposals[0].content.len(), 6);
    assert_ne!(proposals[0].content, vec![0, 0, 0, 0, 0, 0]);
    assert_ne!(proposals[0].content, vec![1, 1, 1, 1, 1, 1]);
    assert_ne!(proposals[0].content, vec![2, 2, 2, 2, 2, 2]);
    // The next round's proposal carries the locked value, not a fresh draw.
    assert_eq!(proposals[1].content, proposals[0].content);
    assert_eq!(proposals[1].round, 1);
    assert_eq!(proposals[1].lock_round, Some(0));
}

#[test]
fn feed_is_drawn_outside_the_denylist() {
    let state = fresh_state();
    let mut node = ScriptedNode::honest(state.clone(), true);
    node.proposer = 0;
    let mut actuator = Actuator::new(node, 1, 0, four_authorities());
    let result = actuator.proc_test(vec![normal_unit(), SHOULD_COMMIT]);
    assert!(result.is_ok());
    assert_eq!(actuator.get_height(), 2);

    let st = state.borrow();
    let feed = st
        .sent
        .iter()
        .find_map(|msg| match msg {
            FrameSend::Feed(f) => Some(f.clone()),
            _ => None,
        })
        .expect("a feed was sent");
    assert_eq!(feed.proposal.len(), 6);
    assert_ne!(feed.proposal, vec![0, 0, 0, 0, 0, 0]);
    assert_ne!(feed.proposal, vec![1, 1, 1, 1, 1, 1]);
    assert_ne!(feed.proposal, vec![2, 2, 2, 2, 2, 2]);
}

#[test]
fn abnormal_proposal_is_rejected() {
    let state = fresh_state();
    let mut node = ScriptedNode::honest(state, false);
    node.style = RecvStyle::AlwaysProposal;
    let mut actuator = Actuator::new(node, 1, 0, four_authorities());
    let result = actuator.proc_test(vec![normal_unit()]);
    assert!(matches!(result, Err(BftError::AbnormalProposal(_))));
}

#[test]
fn wrong_step_vote_is_illegal() {
    let state = fresh_state();
    let mut node = ScriptedNode::honest(state, false);
    node.style = RecvStyle::WrongType;
    let mut actuator = Actuator::new(node, 1, 0, four_authorities());
    let result = actuator.proc_test(vec![normal_unit()]);
    assert!(matches!(result, Err(BftError::IllegalVote(_))));
}

#[test]
fn denylisted_vote_is_illegal() {
    let state = fresh_state();
    let mut node = ScriptedNode::honest(state, false);
    node.style = RecvStyle::Denylisted;
    let mut actuator = Actuator::new(node, 1, 0, four_authorities());
    let result = actuator.proc_test(vec![normal_unit()]);
    assert!(matches!(result, Err(BftError::IllegalVote(_))));
}

#[test]
fn precommit_without_quorum_is_rejected() {
    let state = fresh_state();
    let node = ScriptedNode::honest(state, false);
    let mut actuator = Actuator::new(node, 1, 0, four_authorities());
    let offline_prevotes: BftTestUnit = [0, 0, 0, 1, 1, 1];
    let result = actuator.proc_test(vec![offline_prevotes]);
    assert!(matches!(result, Err(BftError::ShouldNotPrecommit(1, 0))));
}

#[test]
fn precommit_value_must_match_quorum() {
    let state = fresh_state();
    let mut node = ScriptedNode::honest(state, false);
    node.style = RecvStyle::WrongPrecommitValue;
    let mut actuator = Actuator::new(node, 1, 0, four_authorities());
    let result = actuator.proc_test(vec![normal_unit()]);
    assert!(matches!(result, Err(BftError::PrecommitErr(1, 0))));
}

#[test]
fn unexpected_commit_is_invalid() {
    let state = fresh_state();
    let node = ScriptedNode::honest(state, true);
    let mut actuator = Actuator::new(node, 1, 0, four_authorities());
    let result = actuator.proc_test(vec![normal_unit(), NO_COMMIT_NO_LOCK]);
    assert!(matches!(result, Err(BftError::CommitInvalid(1))));

    let state = fresh_state();
    let node = ScriptedNode::honest(state, true);
    let mut actuator = Actuator::new(node, 1, 0, four_authorities());
    let result = actuator.proc_test(vec![normal_unit(), NO_COMMIT_BUT_LOCK]);
    assert!(matches!(result, Err(BftError::CommitInvalid(1))));
}

#[test]
fn commit_differing_from_proposal_is_incorrect() {
    let state = fresh_state();
    let mut node = ScriptedNode::honest(state, true);
    node.commit_override = Some(b"divergent".to_vec());
    let mut actuator = Actuator::new(node, 1, 0, four_authorities());
    let result = actuator.proc_test(vec![normal_unit(), SHOULD_COMMIT]);
    assert!(matches!(result, Err(BftError::CommitIncorrect(1))));
}

#[test]
fn proposer_beyond_list_is_rejected() {
    let state = fresh_state();
    let mut node = ScriptedNode::honest(state, false);
    node.proposer = 9;
    let mut actuator = Actuator::new(node, 1, 0, four_authorities());
    let result = actuator.proc_test(vec![normal_unit()]);
    assert!(matches!(result, Err(BftError::ProposerBeyondList(1, 0))));
}

#[test]
fn null_round_sends_no_traffic() {
    let state = fresh_state();
    let node = ScriptedNode::honest(state.clone(), false);
    let mut actuator = Actuator::new(node, 1, 0, four_authorities());
    let null_round: BftTestUnit = [7, 7, 7, 7, 7, 7];
    let result = actuator.proc_test(vec![null_round, null_round]);
    assert!(result.is_ok());
    assert_eq!(actuator.get_round(), 2);
    // Only the initial status announcement went out.
    let st = state.borrow();
    assert_eq!(st.sent.len(), 1);
    assert!(matches!(st.sent[0], FrameSend::Status(_)));
}
