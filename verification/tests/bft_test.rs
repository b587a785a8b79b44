//! Tests of the blackbox script units.

use bft_test::correctness::bft_test::{BftTest, BftTestUnit};

#[test]
fn test() {
    let unit: BftTestUnit = [1, 1, 1, 2, 2, 2];
    let cases: BftTest = vec![unit];
    for c in cases.iter() {
        let prevote = c[0..3].to_vec();
        let precommit = c[3..6].to_vec();
        assert_eq!(prevote, vec![1, 1, 1]);
        assert_eq!(precommit, vec![2, 2, 2]);
    }
}
