//! Tests of the whitebox script units and of the scenario table's internal
//! consistency.

use bft_test::whitebox::correctness::test_case::{
    all_cases, BftTest, BftTestUnit, NULL_ROUND, SHOULD_COMMIT, SHOULD_NOT_COMMIT,
};

fn should_commit(mut prevote: Vec<u8>, mut precommit: Vec<u8>) -> bool {
    prevote.push(1);
    precommit.push(1);
    let mut prevote_count: usize = 0;
    let mut precommit_count: usize = 0;
    for v in prevote.iter() {
        if v == &1 {
            prevote_count += 1;
        }
    }
    if prevote_count >= 3 {
        for v in precommit.iter() {
            if v == &1 {
                precommit_count += 1
            }
        }
        if precommit_count >= 3 {
            return true;
        }
    }
    false
}

#[test]
fn test_devide() {
    let unit: BftTestUnit = [1, 1, 1, 2, 2, 2];
    let cases: BftTest = vec![unit];
    for case in cases.iter() {
        let prevote = case[0..3].to_vec();
        let precommit = case[3..6].to_vec();
        assert_eq!(prevote, vec![1, 1, 1]);
        assert_eq!(precommit, vec![2, 2, 2]);
    }
}

#[test]
fn test_cases_retional() {
    let all_test_cases = all_cases();
    let mut commit_flag: bool = true;
    for (test_name, test_case) in all_test_cases.into_iter() {
        println!("Test retional of {:?}", test_name);
        for case in test_case.iter() {
            if case == &SHOULD_COMMIT || case == &SHOULD_NOT_COMMIT {
                if commit_flag {
                    assert_eq!(case.to_vec(), SHOULD_COMMIT);
                } else {
                    assert_eq!(case.to_vec(), SHOULD_NOT_COMMIT);
                }
            } else if case != &NULL_ROUND {
                let prevote = case[0..3].to_vec();
                let precommit = case[3..6].to_vec();
                commit_flag = should_commit(prevote, precommit);
            }
        }
    }
}
