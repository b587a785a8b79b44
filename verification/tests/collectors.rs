//! Tests of the proposal and commit collectors, including the bounded
//! windows' eviction behavior.

use bft_test::check::HeightCollector;
use bft_test::collection::commit::HeightCommitCollector;
use bft_test::collection::proposal::ProposalCollector;
use bft_test::collection::vote_cache::VoteCache;
use bft_test::error::BftError;
use bft_test::whitebox::{Commit, Proposal, Vote, VoteType};

fn proposal_at(height: u64, round: u64, content: Vec<u8>) -> Proposal {
    Proposal {
        height,
        round,
        content,
        proposer: b"a1".to_vec(),
        lock_round: None,
        lock_votes: Vec::new(),
    }
}

#[test]
fn proposal_slot_is_never_overwritten() {
    let mut collector = ProposalCollector::new();
    assert!(collector.add(proposal_at(1, 0, b"first".to_vec())));
    assert!(!collector.add(proposal_at(1, 0, b"second".to_vec())));
    let stored = collector.get_proposal(1, 0).expect("stored proposal");
    assert_eq!(stored.content, b"first".to_vec());
    assert!(collector.get_proposal(1, 1).is_none());
    assert!(collector.add(proposal_at(1, 1, b"second".to_vec())));
    let stored = collector.get_proposal(1, 1).expect("stored proposal");
    assert_eq!(stored.content, b"second".to_vec());
}

#[test]
fn first_commit_fixes_result_and_repeats_fail() {
    let mut collector = HeightCommitCollector::new();
    let first = Commit { node: 0, height: 5, result: b"res".to_vec() };
    assert!(collector.add_commit(first).is_ok());

    let differing = Commit { node: 1, height: 5, result: b"other".to_vec() };
    assert!(matches!(collector.add_commit(differing), Err(BftError::CommitDiff(5))));

    let repeat = Commit { node: 0, height: 5, result: b"res".to_vec() };
    assert!(matches!(collector.add_commit(repeat), Err(BftError::MultipleCommit(5))));

    let fresh = Commit { node: 1, height: 5, result: b"res".to_vec() };
    assert!(collector.add_commit(fresh).is_ok());
}

#[test]
fn checked_commits_must_match_their_proposal() {
    let mut collector = HeightCollector::new();
    let unproposed = Commit { node: 0, height: 3, result: b"res".to_vec() };
    assert!(matches!(collector.add_commit(unproposed), Err(BftError::CommitInvalid(3))));

    collector.add_proposal(3, b"res".to_vec());
    collector.add_proposal(3, b"ignored-second".to_vec());

    let wrong = Commit { node: 0, height: 3, result: b"bad".to_vec() };
    assert!(matches!(collector.add_commit(wrong), Err(BftError::CommitIncorrect(3))));

    let good = Commit { node: 0, height: 3, result: b"res".to_vec() };
    assert!(collector.add_commit(good).is_ok());

    let repeat = Commit { node: 0, height: 3, result: b"res".to_vec() };
    assert!(matches!(collector.add_commit(repeat), Err(BftError::MultipleCommit(3))));

    let differing = Commit { node: 1, height: 3, result: b"bad".to_vec() };
    assert!(matches!(collector.add_commit(differing), Err(BftError::CommitIncorrect(3))));
}

#[test]
fn proposal_window_evicts_oldest_height() {
    let mut collector = ProposalCollector::new();
    for h in 1..=21u64 {
        assert!(collector.add(proposal_at(h, 0, vec![h as u8])));
    }
    assert!(collector.get_proposal(1, 0).is_none());
    for h in 2..=21u64 {
        let stored = collector.get_proposal(h, 0).expect("kept height");
        assert_eq!(stored.content, vec![h as u8]);
    }
}

#[test]
fn vote_cache_evicts_oldest_height() {
    let mut cache = VoteCache::new();
    for h in 1..=17u64 {
        let vote = Vote {
            height: h,
            round: 0,
            vote_type: VoteType::Prevote,
            proposal: b"v".to_vec(),
            voter: b"a1".to_vec(),
        };
        assert!(cache.add(vote));
    }
    assert!(cache.get_voteset(1, 0, VoteType::Prevote).is_none());
    for h in 2..=17u64 {
        assert!(cache.get_voteset(h, 0, VoteType::Prevote).is_some());
    }
}

#[test]
fn vote_cache_evicts_oldest_round() {
    let mut cache = VoteCache::new();
    for r in 0..17u64 {
        let vote = Vote {
            height: 1,
            round: r,
            vote_type: VoteType::Prevote,
            proposal: b"v".to_vec(),
            voter: b"a1".to_vec(),
        };
        assert!(cache.add(vote));
    }
    assert!(cache.get_voteset(1, 0, VoteType::Prevote).is_none());
    for r in 1..17u64 {
        assert!(cache.get_voteset(1, r, VoteType::Prevote).is_some());
    }
}

#[test]
fn commit_window_eviction_forgets_participants() {
    let mut collector = HeightCommitCollector::new();
    for h in 1..=21u64 {
        let commit = Commit { node: 0, height: h, result: b"res".to_vec() };
        assert!(collector.add_commit(commit).is_ok());
    }
    // Height 1 left the bounded window, so the duplicate check no longer
    // holds a slot for it; the canonical result is still enforced.
    let repeat = Commit { node: 0, height: 1, result: b"res".to_vec() };
    assert!(collector.add_commit(repeat).is_ok());
    let differing = Commit { node: 0, height: 1, result: b"other".to_vec() };
    assert!(matches!(collector.add_commit(differing), Err(BftError::CommitDiff(1))));

    let repeat_recent = Commit { node: 0, height: 21, result: b"res".to_vec() };
    assert!(matches!(collector.add_commit(repeat_recent), Err(BftError::MultipleCommit(21))));
}
