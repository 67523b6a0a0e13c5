//! The growth policy of the backing store.

use vstd::prelude::*;
use crate::pow2::{
    next_power_of_two,
    next_power_of_two_within,
    lemma_next_power_of_two_bounds,
};

verus! {

/// The number of slots after growing a store of `capacity` slots to make
/// room for `amount` more bytes: at least double, and at least the next power
/// of two that holds the old slots, the new bytes and one slot of slack.
pub open spec fn grown_capacity(capacity: nat, amount: nat) -> nat {
    let rounded = next_power_of_two(capacity + amount + 1);
    if 2 * capacity >= rounded {
        2 * capacity
    } else {
        rounded
    }
}

/// Growing at least doubles the store, and makes room for the old slots,
/// the requested bytes and the slack slot.
pub proof fn lemma_grown_capacity_bounds(capacity: nat, amount: nat)
    ensures
        grown_capacity(capacity, amount) >= 2 * capacity,
        grown_capacity(capacity, amount) > capacity + amount,
        grown_capacity(capacity, amount) <= 2 * (capacity + amount + 1),
{
    lemma_next_power_of_two_bounds(capacity + amount + 1);
}

/// The grown number of slots, unless it would leave the signed address
/// range.
pub fn checked_grown_capacity(capacity: usize, amount: usize) -> (r: Option<usize>)
    ensures
        grown_capacity(capacity as nat, amount as nat) <= isize::MAX ==> r == Some(
            grown_capacity(capacity as nat, amount as nat) as usize,
        ),
        grown_capacity(capacity as nat, amount as nat) > isize::MAX ==> r.is_none(),
{
    let limit: usize = isize::MAX as usize;
    proof {
        lemma_grown_capacity_bounds(capacity as nat, amount as nat);
    }
    if capacity > limit / 2 {
        return None;
    }
    if amount >= limit - capacity {
        return None;
    }
    match next_power_of_two_within(capacity + amount + 1, limit) {
        None => None,
        Some(rounded) => {
            let doubled: usize = 2 * capacity;
            if doubled >= rounded {
                Some(doubled)
            } else {
                Some(rounded)
            }
        },
    }
}

} // verus!
