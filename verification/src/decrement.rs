//! Counting a value down, one step at a time.

use vstd::prelude::*;

verus! {

/// Subtracts one from `value`, `n` times over, and returns what is left.
///
/// The result is `value - n`. The only demand on the caller is that this
/// difference can be represented: it must not fall below `i64::MIN`. With
/// `n == 0` the value comes back unchanged.
pub fn bounded_decrement(value: i64, n: u64) -> (rest: i64)
    requires
        value - n >= i64::MIN,
    ensures
        rest == value - n,
{
    let mut rest: i64 = value;
    let mut done: u64 = 0;
    while done < n
        invariant
            done <= n,
            rest == value - done,
            value - n >= i64::MIN,
        decreases n - done,
    {
        rest = rest - 1;
        done = done + 1;
    }
    rest
}

} // verus!
