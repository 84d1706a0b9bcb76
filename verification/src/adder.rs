use vstd::prelude::*;

verus! {

/// Returns its argument plus one.
pub fn add_one(x: i32) -> (r: i32)
    requires
        x < i32::MAX,
    ensures
        r == x + 1,
{
    x + 1
}

} // verus!
