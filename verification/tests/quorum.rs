//! Tests of the quorum threshold and of the vote-set bookkeeping.

use bft_test::whitebox::actuator::Actuator;
use bft_test::collection::vote_cache::{VoteCache, VoteSet};
use bft_test::whitebox::{Commit, FrameRecv, FrameSend, Support, Vote, VoteType};

struct IdleNode;

impl Support for IdleNode {
    fn send(&self, _msg: FrameSend) {}

    fn recv(&self) -> FrameRecv {
        panic!("the idle node never answers");
    }

    fn try_get_commit(&self) -> Option<Commit> {
        None
    }

    fn stop(&self) {}

    fn cal_proposer(&self, _height: u64, _round: u64) -> usize {
        1
    }
}

fn four_authorities() -> Vec<Vec<u8>> {
    vec![b"a0".to_vec(), b"a1".to_vec(), b"a2".to_vec(), b"a3".to_vec()]
}

#[test]
fn threshold_boundary_of_four() {
    let actuator = Actuator::new(IdleNode, 1, 0, four_authorities());
    assert!(actuator.is_above_threshold(3).is_ok());
    assert!(actuator.is_above_threshold(2).is_err());
    assert!(actuator.is_above_threshold(4).is_ok());
    assert!(actuator.is_above_threshold(0).is_err());
}

#[test]
fn threshold_tracks_list_size() {
    let mut list = four_authorities();
    list.push(b"a4".to_vec());
    list.push(b"a5".to_vec());
    list.push(b"a6".to_vec());
    let actuator = Actuator::new(IdleNode, 1, 0, list);
    assert!(actuator.is_above_threshold(5).is_ok());
    assert!(actuator.is_above_threshold(4).is_err());
}

#[test]
fn duplicate_voter_is_rejected_and_tally_unchanged() {
    let mut set = VoteSet::new();
    assert!(set.add(b"a1".to_vec(), b"value".to_vec()));
    assert_eq!(set.get_count(), 1);
    assert_eq!(set.tally_len(), 1);
    assert_eq!(set.tally_count(0), 1);

    assert!(!set.add(b"a1".to_vec(), b"value".to_vec()));
    assert_eq!(set.get_count(), 1);
    assert_eq!(set.tally_len(), 1);
    assert_eq!(set.tally_count(0), 1);

    assert!(!set.add(b"a1".to_vec(), b"other".to_vec()));
    assert_eq!(set.get_count(), 1);
    assert_eq!(set.tally_len(), 1);

    assert!(set.add(b"a2".to_vec(), b"value".to_vec()));
    assert_eq!(set.get_count(), 2);
    assert_eq!(set.tally_len(), 1);
    assert_eq!(set.tally_count(0), 2);
}

#[test]
fn extract_polc_collects_matching_votes() {
    let mut set = VoteSet::new();
    set.add(b"a1".to_vec(), b"v".to_vec());
    set.add(b"a2".to_vec(), b"w".to_vec());
    set.add(b"a3".to_vec(), b"v".to_vec());
    let polc = set.extract_polc(7, 2, VoteType::Prevote, &b"v".to_vec());
    assert_eq!(polc.len(), 2);
    assert_eq!(polc[0].voter, b"a1".to_vec());
    assert_eq!(polc[1].voter, b"a3".to_vec());
    for vote in polc.iter() {
        assert_eq!(vote.height, 7);
        assert_eq!(vote.round, 2);
        assert_eq!(vote.vote_type, VoteType::Prevote);
        assert_eq!(vote.proposal, b"v".to_vec());
    }
    let none = set.extract_polc(7, 2, VoteType::Prevote, &b"missing".to_vec());
    assert_eq!(none.len(), 0);
}

#[test]
fn vote_cache_keeps_steps_apart() {
    let mut cache = VoteCache::new();
    let prevote = Vote {
        height: 1,
        round: 0,
        vote_type: VoteType::Prevote,
        proposal: b"v".to_vec(),
        voter: b"a1".to_vec(),
    };
    let precommit = Vote {
        height: 1,
        round: 0,
        vote_type: VoteType::Precommit,
        proposal: b"v".to_vec(),
        voter: b"a1".to_vec(),
    };
    assert!(cache.add(prevote.clone()));
    assert!(cache.add(precommit));
    assert!(!cache.add(prevote));

    let set = cache.get_voteset(1, 0, VoteType::Prevote).expect("prevote set");
    assert_eq!(set.get_count(), 1);
    let set = cache.get_voteset(1, 0, VoteType::Precommit).expect("precommit set");
    assert_eq!(set.get_count(), 1);
    assert!(cache.get_voteset(1, 1, VoteType::Prevote).is_none());
    assert!(cache.get_voteset(2, 0, VoteType::Prevote).is_none());
}
