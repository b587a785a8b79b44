//! Scripted test cases for the blackbox harness.

use vstd::prelude::*;

verus! {

use crate::correctness::random::rand_attribute;
use crate::whitebox::correctness::test_case::{shaded, unit_filled, unit_of};

/// A basic test unit: three prevote slots, then three precommit slots.
pub type BftTestUnit = [u8; 6];

/// A BFT test case: an ordered script of units.
pub type BftTest = Vec<BftTestUnit>;

/// A scripted participant that emits nothing.
pub const OFFLINE: u8 = 0;

/// A scripted participant that votes for the current proposal.
pub const NORMAL: u8 = 1;

/// A scripted participant that votes for a denylisted conflicting value.
pub const BYZANTINE: u8 = 2;

/// Control sentinel: advance the round with no traffic sent.
pub const NULL_ROUND: BftTestUnit = [7, 7, 7, 7, 7, 7];

/// Control sentinel: the node is expected to have committed.
pub const SHOULD_COMMIT: BftTestUnit = [8, 8, 8, 8, 8, 8];

/// Control sentinel: no commit is allowed here, and the lock is forced to
/// the current proposal.
pub const NO_COMMIT_BUT_LOCK: BftTestUnit = [9, 9, 9, 8, 8, 8];

/// Control sentinel: no commit is allowed here.
pub const NO_COMMIT_NO_LOCK: BftTestUnit = [9, 9, 9, 9, 9, 9];

/// One hundred rounds of fully normal ballots, each expected to commit.
pub fn no_byzantine_cases() -> (r: BftTest)
    ensures
        r@.len() == 200,
        forall|i: int| 0 <= i < 200 && i % 2 == 0 ==> r@[i]@ == unit_filled(NORMAL),
        forall|i: int| 0 <= i < 200 && i % 2 == 1 ==> r@[i]@ == unit_filled(8),
{
    let mut cases: Vec<BftTestUnit> = Vec::new();
    let mut i: usize = 0;
    while i < 100
        invariant
            i <= 100,
            cases@.len() == 2 * i,
            forall|j: int| 0 <= j < 2 * i && j % 2 == 0 ==> cases@[j]@ == unit_filled(NORMAL),
            forall|j: int| 0 <= j < 2 * i && j % 2 == 1 ==> cases@[j]@ == unit_filled(8),
        decreases 100 - i,
    {
        cases.push(unit_of(NORMAL));
        cases.push(unit_of(8));
        i = i + 1;
    }
    cases
}

/// One hundred rounds with one offline slot in each ballot half, each round
/// still expected to commit.
pub fn one_offline_cases() -> (r: BftTest)
    ensures
        r@.len() == 200,
        forall|i: int| 0 <= i < 200 && i % 2 == 0 ==> #[trigger] shaded(r@[i]@, NORMAL, OFFLINE),
        forall|i: int| 0 <= i < 200 && i % 2 == 1 ==> r@[i]@ == unit_filled(8),
{
    let mut cases: Vec<BftTestUnit> = Vec::new();
    let mut i: usize = 0;
    while i < 100
        invariant
            i <= 100,
            cases@.len() == 2 * i,
            forall|j: int|
                0 <= j < 2 * i && j % 2 == 0 ==> #[trigger] shaded(cases@[j]@, NORMAL, OFFLINE),
            forall|j: int| 0 <= j < 2 * i && j % 2 == 1 ==> cases@[j]@ == unit_filled(8),
        decreases 100 - i,
    {
        cases.push(rand_attribute(OFFLINE, NORMAL));
        cases.push(unit_of(8));
        i = i + 1;
    }
    cases
}

/// One hundred rounds with one byzantine slot in each ballot half, each
/// round still expected to commit.
pub fn one_byzantine_cases() -> (r: BftTest)
    ensures
        r@.len() == 200,
        forall|i: int| 0 <= i < 200 && i % 2 == 0 ==> #[trigger] shaded(r@[i]@, NORMAL, BYZANTINE),
        forall|i: int| 0 <= i < 200 && i % 2 == 1 ==> r@[i]@ == unit_filled(8),
{
    let mut cases: Vec<BftTestUnit> = Vec::new();
    let mut i: usize = 0;
    while i < 100
        invariant
            i <= 100,
            cases@.len() == 2 * i,
            forall|j: int|
                0 <= j < 2 * i && j % 2 == 0 ==> #[trigger] shaded(cases@[j]@, NORMAL, BYZANTINE),
            forall|j: int| 0 <= j < 2 * i && j % 2 == 1 ==> cases@[j]@ == unit_filled(8),
        decreases 100 - i,
    {
        cases.push(rand_attribute(BYZANTINE, NORMAL));
        cases.push(unit_of(8));
        i = i + 1;
    }
    cases
}

} // verus!
