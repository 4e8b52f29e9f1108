//! Fixed-point arithmetic: scaling by a fraction and clamping.

use vstd::prelude::*;

verus! {

/// The fixed-point representation of 1: every fractional quantity of this
/// crate (coordinates, distances, weights, step sizes) is an integer count of
/// millionths.
pub const UNIT: u32 = 1_000_000;

/// The fixed-point representation of one half.
pub const HALF: u32 = 500_000;

/// `factor * x / UNIT`, rounded toward zero.
pub open spec fn scaled(factor: int, x: int) -> int {
    if x >= 0 {
        factor * x / 1_000_000
    } else {
        -(factor * (-x) / 1_000_000)
    }
}

/// Multiplies a signed quantity by a fixed-point factor, rounding toward zero.
pub fn scale(factor: u32, x: i64) -> (r: i64)
    requires
        -0x1_0000_0000 <= x <= 0x1_0000_0000,
    ensures
        r == scaled(factor as int, x as int),
        -0x1_0000_0000_0000 <= r <= 0x1_0000_0000_0000,
{
    let magnitude: u64 = if x >= 0 {
        x as u64
    } else {
        (0 - x) as u64
    };
    assert(factor * magnitude <= 0xffff_ffff * 0x1_0000_0000) by (nonlinear_arith)
        requires
            factor <= 0xffff_ffff,
            magnitude <= 0x1_0000_0000,
    ;
    let product: u64 = (factor as u64) * magnitude;
    let quotient: u64 = product / (UNIT as u64);
    if x >= 0 {
        quotient as i64
    } else {
        0 - (quotient as i64)
    }
}

/// The value of `x` brought into `[low, high]`.
pub open spec fn clamped(x: int, low: int, high: int) -> int {
    if x < low {
        low
    } else if x > high {
        high
    } else {
        x
    }
}

/// Brings `x` into `[low, high]`.
pub fn clamp(x: i64, low: i32, high: i32) -> (r: i32)
    requires
        low <= high,
    ensures
        r == clamped(x as int, low as int, high as int),
        low <= r <= high,
{
    if x < low as i64 {
        low
    } else if x > high as i64 {
        high
    } else {
        x as i32
    }
}

} // verus!
