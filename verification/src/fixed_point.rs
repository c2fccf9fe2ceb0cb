use vstd::prelude::*;
use fixed::types::U57F7;

verus! {

/// Raw bits of the fixed-point value one (`U57F7::ONE`): 57 integer bits and
/// 7 fractional bits, so one is 2^7.
pub const FIXED_ONE: u64 = 128;

/// Product of two `U57F7` values given by their raw bits: `U57F7`
/// multiplication keeps the high bits of the double-width product, which is
/// the product of the bits divided by 2^7, rounded down. It panics in debug
/// builds when that product overflows, which `requires` leaves out.
#[verifier::external_body]
pub(crate) fn fixed_mul(a: u64, b: u64) -> (r: u64)
    requires
        (a as int) * (b as int) < 0x80_0000_0000_0000_0000,
    ensures
        r as int == (a as int) * (b as int) / 128,
{
    (U57F7::from_bits(a) * U57F7::from_bits(b)).to_bits()
}

/// Sum of two `U57F7` values given by their raw bits. It panics in debug
/// builds on overflow, which `requires` leaves out.
#[verifier::external_body]
pub(crate) fn fixed_add(a: u64, b: u64) -> (r: u64)
    requires
        a as int + b as int <= u64::MAX,
    ensures
        r as int == a as int + b as int,
{
    (U57F7::from_bits(a) + U57F7::from_bits(b)).to_bits()
}

/// Whether the `U57F7` value with raw bits `a` is at least the integer `n`:
/// `fixed` compares a fixed-point number and an integer by their exact values.
#[verifier::external_body]
pub(crate) fn fixed_ge_int(a: u64, n: usize) -> (r: bool)
    ensures
        r == (a as int >= (n as int) * 128),
{
    U57F7::from_bits(a) >= n
}

} // verus!
