//! Functions that return a value.

use vstd::prelude::*;

verus! {

/// The number five.
pub fn number_of_five() -> (five: i32)
    ensures
        five == 5,
{
    5
}

/// The successor of `x`. The largest `i32` has none, so it is excluded.
pub fn value_plus_one(x: i32) -> (next: i32)
    requires
        x < i32::MAX,
    ensures
        next == x + 1,
{
    x + 1
}

} // verus!
