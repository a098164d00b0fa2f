//! Arithmetic that stops at the limits of `i64`.
use vstd::prelude::*;

verus! {

/// `value` held between the limits of `i64`.
pub open spec fn clamped(value: int) -> int {
    if value < i64::MIN {
        i64::MIN as int
    } else if value > i64::MAX {
        i64::MAX as int
    } else {
        value
    }
}

/// `value` held between the limits of `i64`.
pub fn clamp(value: i128) -> (r: i64)
    ensures
        r == clamped(value as int),
{
    if value < i64::MIN as i128 {
        i64::MIN
    } else if value > i64::MAX as i128 {
        i64::MAX
    } else {
        value as i64
    }
}

/// `a + b`, stopped at the limits of `i64`.
pub fn plus(a: i64, b: i64) -> (r: i64)
    ensures
        r == clamped(a + b),
{
    clamp(a as i128 + b as i128)
}

/// `a - b`, stopped at the limits of `i64`.
pub fn minus(a: i64, b: i64) -> (r: i64)
    ensures
        r == clamped(a - b),
{
    clamp(a as i128 - b as i128)
}

/// `a * b`, stopped at the limits of `i64`.
pub fn times(a: i64, b: i64) -> (r: i64)
    ensures
        r == clamped(a * b),
{
    assert(-0x4000_0000_0000_0000_0000_0000_0000_0000 <= a * b
        <= 0x4000_0000_0000_0000_0000_0000_0000_0000) by (nonlinear_arith)
        requires
            -0x8000_0000_0000_0000 <= a <= 0x7fff_ffff_ffff_ffff,
            -0x8000_0000_0000_0000 <= b <= 0x7fff_ffff_ffff_ffff,
    ;
    clamp(a as i128 * b as i128)
}

/// A number that `i64` holds stays; a larger one becomes the largest, a smaller one the
/// smallest.
pub proof fn clamping_keeps_what_fits(value: int)
    ensures
        i64::MIN <= clamped(value) <= i64::MAX,
        i64::MIN <= value <= i64::MAX ==> clamped(value) == value,
        value > i64::MAX ==> clamped(value) == i64::MAX,
        value < i64::MIN ==> clamped(value) == i64::MIN,
{
}

} // verus!
