use vstd::prelude::*;

verus! {

/// The smallest multiple of `m` that is at least `x`.
pub open spec fn round_up(x: int, m: int) -> int {
    if x % m == 0 {
        x
    } else {
        x + (m - x % m)
    }
}

/// `x / m` rounded towards positive infinity.
pub open spec fn ceil_div(x: int, m: int) -> int {
    if x % m == 0 {
        x / m
    } else {
        x / m + 1
    }
}

/// Calls `u32::next_multiple_of`.  Its documentation: returns the smallest
/// value greater than or equal to `self` that is a multiple of `rhs`; it
/// panics when `rhs` is zero and, with overflow checks on, when the result
/// does not fit.  The contract claims exactly that value and leaves those
/// inputs out.
#[verifier::external_body]
pub(crate) fn next_multiple_of_u32(x: u32, rhs: u32) -> (r: u32)
    requires
        rhs > 0,
        round_up(x as int, rhs as int) <= u32::MAX,
    ensures
        r == round_up(x as int, rhs as int),
{
    x.next_multiple_of(rhs)
}

/// Calls `u32::div_ceil`.  Its documentation: the quotient of `self` and
/// `rhs`, rounded towards positive infinity; it panics when `rhs` is zero.
/// The contract claims exactly that value and leaves `rhs == 0` out.
#[verifier::external_body]
pub(crate) fn div_ceil_u32(x: u32, rhs: u32) -> (r: u32)
    requires
        rhs > 0,
    ensures
        r == ceil_div(x as int, rhs as int),
{
    x.div_ceil(rhs)
}

} // verus!
