//! A small arithmetic helper.

use vstd::prelude::*;

verus! {

/// The sum of `x` and `y`.
pub fn add(x: i32, y: i32) -> (r: i32)
    requires
        crate::semantics::in_i32(x + y),
    ensures
        r == x + y,
{
    x + y
}

} // verus!
