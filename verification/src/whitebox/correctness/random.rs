//! Randomly shaded test units: one scripted attribute dropped into each
//! ballot half of an otherwise uniform unit.

use vstd::prelude::*;

verus! {

use crate::rng::random_index;
use crate::whitebox::correctness::test_case::{placed_unit, unit_filled, BftTestUnit};

/// The slot value of a unit that carries `attri` at `i1` and `i2` and
/// `base` elsewhere.
fn placed_slot(base: u8, attri: u8, i1: usize, i2: usize, j: usize) -> (r: u8)
    ensures
        r == if j == i1 || j == i2 {
            attri
        } else {
            base
        },
{
    if j == i1 || j == i2 {
        attri
    } else {
        base
    }
}

/// A unit of `base` slots with `attri` dropped into one random slot of each
/// ballot half.
pub fn rand_attribute(attri: u8, base: u8) -> (r: BftTestUnit)
    ensures
        exists|i1: int, i2: int|
            0 <= i1 < 3 && 3 <= i2 < 6 && #[trigger] placed_unit(base, attri, i1, i2) == r@,
{
    let index_1 = random_index(0, 3);
    let index_2 = random_index(3, 6);
    let r: BftTestUnit = [
        placed_slot(base, attri, index_1, index_2, 0),
        placed_slot(base, attri, index_1, index_2, 1),
        placed_slot(base, attri, index_1, index_2, 2),
        placed_slot(base, attri, index_1, index_2, 3),
        placed_slot(base, attri, index_1, index_2, 4),
        placed_slot(base, attri, index_1, index_2, 5),
    ];
    proof {
        assert(r@ =~= placed_unit(base, attri, index_1 as int, index_2 as int));
    }
    r
}

/// The slot value of a unit shaded at every slot that differs from either
/// drawn index; since the two indices always differ, every slot takes the
/// attribute.
fn spread_slot(base: u8, attri: u8, i1: usize, i2: usize, j: usize) -> (r: u8)
    requires
        i1 < 3,
        3 <= i2,
    ensures
        r == attri,
{
    if j != i1 || j != i2 {
        attri
    } else {
        base
    }
}

/// A unit shaded at every slot that differs from either of two draws; the
/// draws never coincide, so every slot carries `attri`.
pub fn rand_two_attribute(attri: u8, base: u8) -> (r: BftTestUnit)
    ensures
        r@ == unit_filled(attri),
{
    let index_1 = random_index(0, 3);
    let index_2 = random_index(3, 6);
    let r: BftTestUnit = [
        spread_slot(base, attri, index_1, index_2, 0),
        spread_slot(base, attri, index_1, index_2, 1),
        spread_slot(base, attri, index_1, index_2, 2),
        spread_slot(base, attri, index_1, index_2, 3),
        spread_slot(base, attri, index_1, index_2, 4),
        spread_slot(base, attri, index_1, index_2, 5),
    ];
    proof {
        assert(r@ =~= unit_filled(attri));
    }
    r
}

} // verus!
