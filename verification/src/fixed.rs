//! Fixed-point numbers: an `i64` counts sixty-five-thousand-five-hundred-thirty-sixths.

use vstd::prelude::*;

verus! {

/// The fixed-point representation of 1: one world unit, one radian, or the factor 1.
pub const ONE: i64 = 65536;

/// The product of a fixed-point quantity and a fixed-point factor, rounded down.
pub open spec fn scaled(quantity: int, factor: int) -> int {
    (quantity * factor) / (ONE as int)
}

/// The exact product of two 64-bit numbers.
pub(crate) fn product(a: i64, b: i64) -> (p: i128)
    ensures
        p == a * b,
        -0x4000_0000_0000_0000_0000_0000_0000_0000 <= p <= 0x4000_0000_0000_0000_0000_0000_0000_0000,
{
    let wide_a: i128 = a as i128;
    let wide_b: i128 = b as i128;
    assert(-0x4000_0000_0000_0000_0000_0000_0000_0000 <= wide_a * wide_b
        <= 0x4000_0000_0000_0000_0000_0000_0000_0000) by (nonlinear_arith)
        requires
            -0x8000_0000_0000_0000 <= wide_a <= 0x7fff_ffff_ffff_ffff,
            -0x8000_0000_0000_0000 <= wide_b <= 0x7fff_ffff_ffff_ffff,
    ;
    wide_a * wide_b
}

/// Divides by `ONE`, rounding down also for negative numbers.
pub(crate) fn floor_units(p: i128) -> (r: i128)
    ensures
        r == (p as int) / (ONE as int),
{
    let quotient: i128 = p / 65536;
    let remainder: i128 = p % 65536;
    if remainder < 0 {
        quotient - 1
    } else {
        quotient
    }
}

/// Computes `scaled` without any risk of overflow by widening to 128 bits.
pub fn scale(quantity: i64, factor: i64) -> (r: i128)
    ensures
        r == scaled(quantity as int, factor as int),
        -0x4000_0000_0000_0000_0000_0000_0000 <= r <= 0x4000_0000_0000_0000_0000_0000_0000,
{
    floor_units(product(quantity, factor))
}

/// Computes `scaled(quantity, -factor)`, also when `-factor` is not an `i64`.
pub fn scale_negated(quantity: i64, factor: i64) -> (r: i128)
    ensures
        r == scaled(quantity as int, -factor),
        -0x4000_0000_0000_0000_0000_0000_0000 <= r <= 0x4000_0000_0000_0000_0000_0000_0000,
{
    let p = product(quantity, factor);
    assert(quantity * (-factor) == -(quantity * factor)) by (nonlinear_arith);
    floor_units(-p)
}

} // verus!
