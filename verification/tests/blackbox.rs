//! Tests of the blackbox actuator and of both harnesses' scripted case
//! generators.

use std::cell::RefCell;
use std::rc::Rc;

use bft_test::actuator::Actuator;
use bft_test::correctness::bft_test::{
    no_byzantine_cases, one_byzantine_cases, one_offline_cases, NO_COMMIT_NO_LOCK, SHOULD_COMMIT,
};
use bft_test::error::BftError;
use bft_test::whitebox::correctness::test_case as whitebox_cases;
use bft_test::whitebox::{Commit, FrameRecv, FrameSend, Support};

struct SilentNode {
    sent: Rc<RefCell<Vec<FrameSend>>>,
    commits: bool,
    value: Rc<RefCell<Vec<u8>>>,
}

impl Support for SilentNode {
    fn send(&self, msg: FrameSend) {
        match &msg {
            FrameSend::Proposal(p) => {
                *self.value.borrow_mut() = p.content.clone();
            }
            FrameSend::Feed(f) => {
                *self.value.borrow_mut() = f.proposal.clone();
            }
            _ => {}
        }
        self.sent.borrow_mut().push(msg);
    }

    fn recv(&self) -> FrameRecv {
        panic!("the blackbox harness never listens");
    }

    fn try_get_commit(&self) -> Option<Commit> {
        if !self.commits {
            return None;
        }
        Some(Commit { node: 0, height: 1, result: self.value.borrow().clone() })
    }

    fn stop(&self) {}

    fn cal_proposer(&self, _height: u64, _round: u64) -> usize {
        1
    }
}

fn four_authorities() -> Vec<Vec<u8>> {
    vec![b"a0".to_vec(), b"a1".to_vec(), b"a2".to_vec(), b"a3".to_vec()]
}

#[test]
fn blackbox_normal_round_commits() {
    let sent = Rc::new(RefCell::new(Vec::new()));
    let node = SilentNode { sent: sent.clone(), commits: true, value: Rc::new(RefCell::new(Vec::new())) };
    let mut actuator = Actuator::new(node, 1, 0, four_authorities());
    let result = actuator.proc_test(vec![[1, 1, 1, 1, 1, 1], SHOULD_COMMIT]);
    assert!(result.is_ok());
    assert_eq!(actuator.get_height(), 1);

    // One proposal and four votes went out for the ballot unit.
    let sent = sent.borrow();
    let proposals = sent.iter().filter(|m| matches!(m, FrameSend::Proposal(_))).count();
    let votes = sent.iter().filter(|m| matches!(m, FrameSend::Vote(_))).count();
    assert_eq!(proposals, 1);
    assert_eq!(votes, 4);
}

#[test]
fn blackbox_unexpected_commit_is_invalid() {
    let sent = Rc::new(RefCell::new(Vec::new()));
    let node = SilentNode { sent, commits: true, value: Rc::new(RefCell::new(Vec::new())) };
    let mut actuator = Actuator::new(node, 1, 0, four_authorities());
    let result = actuator.proc_test(vec![[1, 1, 1, 1, 1, 1], NO_COMMIT_NO_LOCK]);
    assert!(matches!(result, Err(BftError::CommitInvalid(1))));
}

#[test]
fn blackbox_case_generators_have_expected_shape() {
    let cases = no_byzantine_cases();
    assert_eq!(cases.len(), 200);
    for (i, unit) in cases.iter().enumerate() {
        if i % 2 == 0 {
            assert_eq!(unit, &[1, 1, 1, 1, 1, 1]);
        } else {
            assert_eq!(unit, &SHOULD_COMMIT);
        }
    }

    let cases = one_offline_cases();
    assert_eq!(cases.len(), 200);
    for (i, unit) in cases.iter().enumerate() {
        if i % 2 == 0 {
            // Exactly one offline slot in each ballot half.
            let front = unit[0..3].iter().filter(|s| **s == 0).count();
            let back = unit[3..6].iter().filter(|s| **s == 0).count();
            assert_eq!(front, 1);
            assert_eq!(back, 1);
            assert!(unit.iter().all(|s| *s == 0 || *s == 1));
        } else {
            assert_eq!(unit, &SHOULD_COMMIT);
        }
    }

    let cases = one_byzantine_cases();
    assert_eq!(cases.len(), 200);
    for (i, unit) in cases.iter().enumerate() {
        if i % 2 == 0 {
            let front = unit[0..3].iter().filter(|s| **s == 2).count();
            let back = unit[3..6].iter().filter(|s| **s == 2).count();
            assert_eq!(front, 1);
            assert_eq!(back, 1);
        } else {
            assert_eq!(unit, &SHOULD_COMMIT);
        }
    }
}

#[test]
fn whitebox_case_generators_have_expected_shape() {
    let cases = whitebox_cases::two_byzantine_cases();
    assert_eq!(cases.len(), 200);
    assert_eq!(cases[0], [2, 2, 2, 2, 2, 2]);
    assert_eq!(cases[1], whitebox_cases::SHOULD_NOT_COMMIT);
    assert_eq!(cases[198], [1, 1, 1, 1, 1, 1]);
    assert_eq!(cases[199], whitebox_cases::SHOULD_COMMIT);

    let cases = whitebox_cases::two_offline_cases();
    assert_eq!(cases.len(), 42);
    assert_eq!(cases[0], [0, 0, 0, 0, 0, 0]);
    assert_eq!(cases[2], whitebox_cases::NULL_ROUND);
    assert_eq!(cases[3], whitebox_cases::NULL_ROUND);
    assert_eq!(cases[40], [1, 1, 1, 1, 1, 1]);
    assert_eq!(cases[41], whitebox_cases::SHOULD_COMMIT);

    let cases = whitebox_cases::two_byzantine_one_offline();
    assert_eq!(cases.len(), 22);
    assert_eq!(cases[0], [2, 2, 2, 2, 2, 2]);
    assert_eq!(cases[21], whitebox_cases::SHOULD_COMMIT);

    let cases = whitebox_cases::proposal_with_lock();
    assert_eq!(cases.len(), 100);
    assert_eq!(cases[0], [1, 1, 0, 1, 0, 0]);
    assert_eq!(cases[2], [1, 1, 1, 1, 0, 0]);
    assert_eq!(cases[6], [0, 1, 1, 1, 0, 0]);
    assert_eq!(cases[8], [1, 1, 1, 1, 1, 1]);
    assert_eq!(cases[9], whitebox_cases::SHOULD_COMMIT);

    let cases = whitebox_cases::lock_proposal();
    assert_eq!(cases.len(), 22);
    for i in (0..20).step_by(2) {
        assert!(cases[i] == [1, 1, 1, 1, 0, 2] || cases[i] == [1, 2, 0, 1, 2, 0]);
        assert_eq!(cases[i + 1], whitebox_cases::SHOULD_NOT_COMMIT);
    }

    let cases = whitebox_cases::round_leap();
    assert!(cases.len() >= 40);
    assert_eq!(cases.len() % 2, 0);

    let denylist = whitebox_cases::byzantine_proposal();
    assert_eq!(denylist.len(), 3);
    assert_eq!(denylist[0], vec![0, 0, 0, 0, 0, 0]);
    assert_eq!(denylist[1], vec![1, 1, 1, 1, 1, 1]);
    assert_eq!(denylist[2], vec![2, 2, 2, 2, 2, 2]);
}
