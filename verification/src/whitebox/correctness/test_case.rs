//! Scripted test cases: each unit is either a control sentinel or a
//! 6-element vector encoding two 3-slot ballots (prevote, precommit) for the
//! non-proposer participants.

use vstd::prelude::*;

verus! {

use crate::whitebox::correctness::random::{rand_attribute, rand_two_attribute};
use crate::rng::random_bool;
use std::collections::HashMap;
use vstd::string::StringExecFns;

/// A basic test unit: three prevote slots, then three precommit slots.
pub type BftTestUnit = [u8; 6];

/// A BFT test case: an ordered script of units.
pub type BftTest = Vec<BftTestUnit>;

/// A scripted participant that emits nothing and silences the rest of its
/// ballot half.
pub const OFFLINE: u8 = 0;

/// A scripted participant that votes for the current proposal.
pub const NORMAL: u8 = 1;

/// A scripted participant that votes for a denylisted conflicting value.
pub const BYZANTINE: u8 = 2;

/// Control sentinel: advance the round with no traffic sent.
pub const NULL_ROUND: BftTestUnit = [7, 7, 7, 7, 7, 7];

/// Control sentinel: the node is expected to have committed.
pub const SHOULD_COMMIT: BftTestUnit = [8, 8, 8, 8, 8, 8];

/// Control sentinel: no commit is allowed here.
pub const SHOULD_NOT_COMMIT: BftTestUnit = [9, 9, 9, 9, 9, 9];

/// Control sentinel: no commit is allowed here, and the lock is forced to
/// the current proposal before the round advances.
pub const NO_COMMIT_BUT_LOCK: BftTestUnit = [9, 9, 9, 8, 8, 8];

/// Control sentinel: no commit is allowed here; the round advances.
pub const NO_COMMIT_NO_LOCK: BftTestUnit = [9, 9, 9, 9, 9, 9];

/// A unit with every slot holding the same byte.
pub open spec fn unit_filled(x: u8) -> Seq<u8> {
    seq![x, x, x, x, x, x]
}

/// The three denylisted values a byzantine participant votes for.
pub open spec fn byz_spec() -> Seq<Seq<u8>> {
    seq![unit_filled(0), unit_filled(1), unit_filled(2)]
}

/// A unit with `attri` at the two given slots and `base` elsewhere.
pub open spec fn placed_unit(base: u8, attri: u8, i1: int, i2: int) -> Seq<u8> {
    Seq::new(6, |j: int| if j == i1 || j == i2 {
        attri
    } else {
        base
    })
}


/// True exactly when the unit is `base` everywhere but for `attri` at one
/// slot of each ballot half.
pub open spec fn shaded(s: Seq<u8>, base: u8, attri: u8) -> bool {
    exists|i1: int, i2: int|
        0 <= i1 < 3 && 3 <= i2 < 6 && #[trigger] placed_unit(base, attri, i1, i2) == s
}

/// True exactly when the unit is a ballot whose six slots all are scripted
/// participant behaviors.
pub open spec fn unit_ok(s: Seq<u8>) -> bool {
    forall|j: int| 0 <= j < s.len() ==> s[j] == OFFLINE || s[j] == NORMAL || s[j] == BYZANTINE
}

/// A byte vector with six equal bytes.
fn filled_vec(x: u8) -> (r: Vec<u8>)
    ensures
        r@ == unit_filled(x),
{
    let mut r: Vec<u8> = Vec::new();
    let mut i: usize = 0;
    while i < 6
        invariant
            i <= 6,
            r@.len() == i,
            forall|j: int| 0 <= j < i ==> r@[j] == x,
        decreases 6 - i,
    {
        r.push(x);
        i = i + 1;
    }
    proof {
        assert(r@ =~= unit_filled(x));
    }
    r
}

/// A unit with six equal slots.
pub fn unit_of(x: u8) -> (r: BftTestUnit)
    ensures
        r@ == unit_filled(x),
{
    let r: BftTestUnit = [x, x, x, x, x, x];
    proof {
        assert(r@ =~= unit_filled(x));
    }
    r
}

/// True exactly when the two units agree in every slot.
pub fn unit_eq(a: &BftTestUnit, b: &BftTestUnit) -> (r: bool)
    ensures
        r == (a@ == b@),
{
    let mut i: usize = 0;
    while i < 6
        invariant
            i <= 6,
            forall|j: int| 0 <= j < i ==> a@[j] == b@[j],
        decreases 6 - i,
    {
        if *vstd::array::array_index_get(a, i) != *vstd::array::array_index_get(b, i) {
            return false;
        }
        i = i + 1;
    }
    proof {
        assert(a@ =~= b@);
    }
    true
}

/// The denylist of disallowed values: a byzantine participant votes for one
/// of these, and no synthesized honest value collides with them.
pub fn byzantine_proposal() -> (r: Vec<Vec<u8>>)
    ensures
        r@.len() == 3,
        forall|i: int| 0 <= i < 3 ==> r@[i]@ == byz_spec()[i],
{
    let mut r: Vec<Vec<u8>> = Vec::new();
    r.push(filled_vec(0));
    r.push(filled_vec(1));
    r.push(filled_vec(2));
    r
}

/// One hundred rounds of fully normal ballots, each expected to commit.
pub fn no_byzantine_cases() -> (r: BftTest)
    ensures
        r@.len() == 200,
        forall|i: int| 0 <= i < 200 && i % 2 == 0 ==> r@[i]@ == unit_filled(NORMAL),
        forall|i: int| 0 <= i < 200 && i % 2 == 1 ==> r@[i]@ == unit_filled(8),
{
    let mut cases: Vec<BftTestUnit> = Vec::new();
    let mut i: usize = 0;
    while i < 100
        invariant
            i <= 100,
            cases@.len() == 2 * i,
            forall|j: int| 0 <= j < 2 * i && j % 2 == 0 ==> cases@[j]@ == unit_filled(NORMAL),
            forall|j: int| 0 <= j < 2 * i && j % 2 == 1 ==> cases@[j]@ == unit_filled(8),
        decreases 100 - i,
    {
        cases.push(unit_of(NORMAL));
        cases.push(unit_of(8));
        i = i + 1;
    }
    cases
}

/// One hundred rounds with one offline slot in each ballot half, each round
/// still expected to commit.
pub fn one_offline_cases() -> (r: BftTest)
    ensures
        r@.len() == 200,
        forall|i: int| 0 <= i < 200 && i % 2 == 0 ==> #[trigger] shaded(r@[i]@, NORMAL, OFFLINE),
        forall|i: int| 0 <= i < 200 && i % 2 == 1 ==> r@[i]@ == unit_filled(8),
{
    let mut cases: Vec<BftTestUnit> = Vec::new();
    let mut i: usize = 0;
    while i < 100
        invariant
            i <= 100,
            cases@.len() == 2 * i,
            forall|j: int|
                0 <= j < 2 * i && j % 2 == 0 ==> #[trigger] shaded(cases@[j]@, NORMAL, OFFLINE),
            forall|j: int| 0 <= j < 2 * i && j % 2 == 1 ==> cases@[j]@ == unit_filled(8),
        decreases 100 - i,
    {
        cases.push(rand_attribute(OFFLINE, NORMAL));
        cases.push(unit_of(8));
        i = i + 1;
    }
    cases
}

/// One hundred rounds with one byzantine slot in each ballot half, each
/// round still expected to commit.
pub fn one_byzantine_cases() -> (r: BftTest)
    ensures
        r@.len() == 200,
        forall|i: int| 0 <= i < 200 && i % 2 == 0 ==> #[trigger] shaded(r@[i]@, NORMAL, BYZANTINE),
        forall|i: int| 0 <= i < 200 && i % 2 == 1 ==> r@[i]@ == unit_filled(8),
{
    let mut cases: Vec<BftTestUnit> = Vec::new();
    let mut i: usize = 0;
    while i < 100
        invariant
            i <= 100,
            cases@.len() == 2 * i,
            forall|j: int|
                0 <= j < 2 * i && j % 2 == 0 ==> #[trigger] shaded(cases@[j]@, NORMAL, BYZANTINE),
            forall|j: int| 0 <= j < 2 * i && j % 2 == 1 ==> cases@[j]@ == unit_filled(8),
        decreases 100 - i,
    {
        cases.push(rand_attribute(BYZANTINE, NORMAL));
        cases.push(unit_of(8));
        i = i + 1;
    }
    cases
}

/// Ninety-nine rounds of fully byzantine ballots that must not commit,
/// closed by one normal round that must.
pub fn two_byzantine_cases() -> (r: BftTest)
    ensures
        r@.len() == 200,
        forall|i: int| 0 <= i < 198 && i % 2 == 0 ==> r@[i]@ == unit_filled(BYZANTINE),
        forall|i: int| 0 <= i < 198 && i % 2 == 1 ==> r@[i]@ == unit_filled(9),
        r@[198]@ == unit_filled(NORMAL),
        r@[199]@ == unit_filled(8),
{
    let mut cases: Vec<BftTestUnit> = Vec::new();
    let mut i: usize = 0;
    while i < 99
        invariant
            i <= 99,
            cases@.len() == 2 * i,
            forall|j: int| 0 <= j < 2 * i && j % 2 == 0 ==> cases@[j]@ == unit_filled(BYZANTINE),
            forall|j: int| 0 <= j < 2 * i && j % 2 == 1 ==> cases@[j]@ == unit_filled(9),
        decreases 99 - i,
    {
        cases.push(rand_two_attribute(BYZANTINE, NORMAL));
        cases.push(unit_of(9));
        i = i + 1;
    }
    cases.push(unit_of(NORMAL));
    cases.push(unit_of(8));
    cases
}

/// Ten blocks of a fully offline ballot, a no-commit check and two silent
/// rounds, closed by one normal round that must commit.
pub fn two_offline_cases() -> (r: BftTest)
    ensures
        r@.len() == 42,
        forall|i: int| 0 <= i < 40 && i % 4 == 0 ==> r@[i]@ == unit_filled(OFFLINE),
        forall|i: int| 0 <= i < 40 && i % 4 == 1 ==> r@[i]@ == unit_filled(9),
        forall|i: int| 0 <= i < 40 && (i % 4 == 2 || i % 4 == 3) ==> r@[i]@ == unit_filled(7),
        r@[40]@ == unit_filled(NORMAL),
        r@[41]@ == unit_filled(8),
{
    let mut cases: Vec<BftTestUnit> = Vec::new();
    let mut i: usize = 0;
    while i < 10
        invariant
            i <= 10,
            cases@.len() == 4 * i,
            forall|j: int| 0 <= j < 4 * i && j % 4 == 0 ==> cases@[j]@ == unit_filled(OFFLINE),
            forall|j: int| 0 <= j < 4 * i && j % 4 == 1 ==> cases@[j]@ == unit_filled(9),
            forall|j: int|
                0 <= j < 4 * i && (j % 4 == 2 || j % 4 == 3) ==> cases@[j]@ == unit_filled(7),
        decreases 10 - i,
    {
        cases.push(rand_two_attribute(OFFLINE, NORMAL));
        cases.push(unit_of(9));
        cases.push(unit_of(7));
        cases.push(unit_of(7));
        i = i + 1;
    }
    cases.push(unit_of(NORMAL));
    cases.push(unit_of(8));
    cases
}

/// Ten fully byzantine ballots that must not commit, closed by one normal
/// round that must.
pub fn two_byzantine_one_offline() -> (r: BftTest)
    ensures
        r@.len() == 22,
        forall|i: int| 0 <= i < 20 && i % 2 == 0 ==> r@[i]@ == unit_filled(BYZANTINE),
        forall|i: int| 0 <= i < 20 && i % 2 == 1 ==> r@[i]@ == unit_filled(9),
        r@[20]@ == unit_filled(NORMAL),
        r@[21]@ == unit_filled(8),
{
    let mut cases: Vec<BftTestUnit> = Vec::new();
    let mut i: usize = 0;
    while i < 10
        invariant
            i <= 10,
            cases@.len() == 2 * i,
            forall|j: int| 0 <= j < 2 * i && j % 2 == 0 ==> cases@[j]@ == unit_filled(BYZANTINE),
            forall|j: int| 0 <= j < 2 * i && j % 2 == 1 ==> cases@[j]@ == unit_filled(9),
        decreases 10 - i,
    {
        cases.push(rand_two_attribute(BYZANTINE, OFFLINE));
        cases.push(unit_of(9));
        i = i + 1;
    }
    cases.push(unit_of(NORMAL));
    cases.push(unit_of(8));
    cases
}

/// Blocks of offline rounds of a random length, each closed by one normal
/// round that must commit.
pub fn round_leap() -> (r: BftTest)
    ensures
        r@.len() % 2 == 0,
        r@.len() >= 40,
        forall|i: int|
            0 <= i < r@.len() && i % 2 == 0 ==> r@[i]@ == unit_filled(OFFLINE) || r@[i]@
                == unit_filled(NORMAL),
        forall|i: int|
            0 <= i < r@.len() && i % 2 == 1 ==> r@[i]@ == unit_filled(9) || r@[i]@ == unit_filled(
                8,
            ),
{
    let mut cases: Vec<BftTestUnit> = Vec::new();
    let mut i: usize = 0;
    while i < 10
        invariant
            i <= 10,
            cases@.len() % 2 == 0,
            cases@.len() >= 4 * i,
            cases@.len() <= 600 * i,
            forall|j: int|
                0 <= j < cases@.len() && j % 2 == 0 ==> cases@[j]@ == unit_filled(OFFLINE)
                    || cases@[j]@ == unit_filled(NORMAL),
            forall|j: int|
                0 <= j < cases@.len() && j % 2 == 1 ==> cases@[j]@ == unit_filled(9) || cases@[j]@
                    == unit_filled(8),
        decreases 10 - i,
    {
        let reps = crate::rng::random_u8();
        let mut k: u8 = 0;
        while k < reps
            invariant
                k <= reps,
                cases@.len() % 2 == 0,
                cases@.len() >= 4 * i,
                cases@.len() <= 600 * i + 2 * k,
                forall|j: int|
                    0 <= j < cases@.len() && j % 2 == 0 ==> cases@[j]@ == unit_filled(OFFLINE)
                        || cases@[j]@ == unit_filled(NORMAL),
                forall|j: int|
                    0 <= j < cases@.len() && j % 2 == 1 ==> cases@[j]@ == unit_filled(9)
                        || cases@[j]@ == unit_filled(8),
            decreases reps - k,
        {
            cases.push(rand_two_attribute(OFFLINE, NORMAL));
            cases.push(unit_of(9));
            k = k + 1;
        }
        cases.push(rand_two_attribute(OFFLINE, NORMAL));
        cases.push(unit_of(9));
        cases.push(unit_of(NORMAL));
        cases.push(unit_of(8));
        i = i + 1;
    }
    cases
}

/// Ten rounds that lock without committing, in one of two scripted shapes,
/// closed by one normal round that must commit.
pub fn lock_proposal() -> (r: BftTest)
    ensures
        r@.len() == 22,
        forall|i: int|
            0 <= i < 20 && i % 2 == 0 ==> r@[i]@ == seq![1u8, 1u8, 1u8, 1u8, 0u8, 2u8] || r@[i]@
                == seq![1u8, 2u8, 0u8, 1u8, 2u8, 0u8],
        forall|i: int| 0 <= i < 20 && i % 2 == 1 ==> r@[i]@ == unit_filled(9),
        r@[20]@ == unit_filled(NORMAL),
        r@[21]@ == unit_filled(8),
{
    let mut cases: Vec<BftTestUnit> = Vec::new();
    let mut i: usize = 0;
    while i < 10
        invariant
            i <= 10,
            cases@.len() == 2 * i,
            forall|j: int|
                0 <= j < 2 * i && j % 2 == 0 ==> cases@[j]@ == seq![1u8, 1u8, 1u8, 1u8, 0u8, 2u8]
                    || cases@[j]@ == seq![1u8, 2u8, 0u8, 1u8, 2u8, 0u8],
            forall|j: int| 0 <= j < 2 * i && j % 2 == 1 ==> cases@[j]@ == unit_filled(9),
        decreases 10 - i,
    {
        if random_bool() {
            let u: BftTestUnit = [1, 1, 1, 1, 0, 2];
            proof {
                assert(u@ =~= seq![1u8, 1u8, 1u8, 1u8, 0u8, 2u8]);
            }
            cases.push(u);
        } else {
            let u: BftTestUnit = [1, 2, 0, 1, 2, 0];
            proof {
                assert(u@ =~= seq![1u8, 2u8, 0u8, 1u8, 2u8, 0u8]);
            }
            cases.push(u);
        }
        cases.push(unit_of(9));
        i = i + 1;
    }
    cases.push(unit_of(NORMAL));
    cases.push(unit_of(8));
    cases
}

/// The slot pattern of one scripted block of partially offline rounds that
/// lock, close with a committing round.
pub open spec fn lock_block_unit(k: int) -> Seq<u8> {
    if k == 0 {
        seq![1u8, 1u8, 0u8, 1u8, 0u8, 0u8]
    } else if k == 2 {
        seq![1u8, 1u8, 1u8, 1u8, 0u8, 0u8]
    } else if k == 4 {
        seq![1u8, 1u8, 0u8, 1u8, 0u8, 0u8]
    } else if k == 6 {
        seq![0u8, 1u8, 1u8, 1u8, 0u8, 0u8]
    } else if k == 8 {
        unit_filled(1)
    } else if k == 9 {
        unit_filled(8)
    } else {
        unit_filled(9)
    }
}

/// Ten blocks of partially offline rounds carrying a lock forward, each
/// closed by one normal round that must commit.
pub fn proposal_with_lock() -> (r: BftTest)
    ensures
        r@.len() == 100,
        forall|i: int| 0 <= i < 100 ==> r@[i]@ == lock_block_unit(i % 10),
{
    let mut cases: Vec<BftTestUnit> = Vec::new();
    let mut i: usize = 0;
    while i < 10
        invariant
            i <= 10,
            cases@.len() == 10 * i,
            forall|j: int| 0 <= j < 10 * i ==> cases@[j]@ == lock_block_unit(j % 10),
        decreases 10 - i,
    {
        let u0: BftTestUnit = [1, 1, 0, 1, 0, 0];
        proof {
            assert(u0@ =~= seq![1u8, 1u8, 0u8, 1u8, 0u8, 0u8]);
        }
        cases.push(u0);
        cases.push(unit_of(9));
        let u2: BftTestUnit = [1, 1, 1, 1, 0, 0];
        proof {
            assert(u2@ =~= seq![1u8, 1u8, 1u8, 1u8, 0u8, 0u8]);
        }
        cases.push(u2);
        cases.push(unit_of(9));
        let u4: BftTestUnit = [1, 1, 0, 1, 0, 0];
        proof {
            assert(u4@ =~= seq![1u8, 1u8, 0u8, 1u8, 0u8, 0u8]);
        }
        cases.push(u4);
        cases.push(unit_of(9));
        let u6: BftTestUnit = [0, 1, 1, 1, 0, 0];
        proof {
            assert(u6@ =~= seq![0u8, 1u8, 1u8, 1u8, 0u8, 0u8]);
        }
        cases.push(u6);
        cases.push(unit_of(9));
        cases.push(unit_of(1));
        cases.push(unit_of(8));
        i = i + 1;
    }
    cases
}

/// Every named scenario, keyed by a descriptive title. A title used twice
/// keeps its first scenario.
pub fn all_cases() -> HashMap<String, BftTest> {
    let mut test_cases: HashMap<String, BftTest> = HashMap::new();
    let k1 = String::from_str("test no byzantine case");
    if !test_cases.contains_key(&k1) {
        test_cases.insert(k1, no_byzantine_cases());
    }
    let k2 = String::from_str("test one byzantine case");
    if !test_cases.contains_key(&k2) {
        test_cases.insert(k2, one_byzantine_cases());
    }
    let k3 = String::from_str("test one offline case");
    if !test_cases.contains_key(&k3) {
        test_cases.insert(k3, one_offline_cases());
    }
    let k4 = String::from_str("test two byzantine case");
    if !test_cases.contains_key(&k4) {
        test_cases.insert(k4, two_byzantine_cases());
    }
    let k5 = String::from_str("test two offline case");
    if !test_cases.contains_key(&k5) {
        test_cases.insert(k5, two_offline_cases());
    }
    let k6 = String::from_str("test two byzantine and one case");
    if !test_cases.contains_key(&k6) {
        test_cases.insert(k6, two_byzantine_one_offline());
    }
    let k7 = String::from_str("test round leap");
    if !test_cases.contains_key(&k7) {
        test_cases.insert(k7, round_leap());
    }
    let k8 = String::from_str("test lock proposal");
    if !test_cases.contains_key(&k8) {
        test_cases.insert(k8, lock_proposal());
    }
    let k9 = String::from_str("test lock proposal");
    if !test_cases.contains_key(&k9) {
        test_cases.insert(k9, proposal_with_lock());
    }
    test_cases
}

} // verus!
