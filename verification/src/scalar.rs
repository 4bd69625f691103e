//! Scalars of the engine: IEEE single-precision values, carried as their
//! 32-bit patterns so that every structural step of the numeric code can be
//! verified. The arithmetic itself is done by outside calls behind trusted
//! wrappers, and each operation's result is given a name that the contracts
//! of the whole engine share. A name asserts that the same operands give
//! the same bits; for a result that is a NaN, the payload is whatever the
//! implementation at hand produces, and nothing in the engine reads it.

use vstd::prelude::*;

verus! {

/// The bit pattern of 0.0.
pub const F_ZERO: u32 = 0x0000_0000;

/// The bit pattern of 1.0.
pub const F_ONE: u32 = 0x3F80_0000;

/// The bit pattern of 2.0.
pub const F_TWO: u32 = 0x4000_0000;

/// The bit pattern of 0.5.
pub const F_HALF: u32 = 0x3F00_0000;

/// The bit pattern of 0.01, the slope a leaky rectifier keeps below zero.
pub const F_HUNDREDTH: u32 = 0x3C23_D70A;

/// The bit pattern of minus 1.0, the lower end of the unit range weights
/// are drawn from.
pub const F_NEG_ONE: u32 = 0xBF80_0000;

/// The single-precision sum of the two singles whose bit patterns are given.
pub uninterp spec fn fadd(a: u32, b: u32) -> u32;

/// The single-precision difference of the two singles whose bit patterns are
/// given.
pub uninterp spec fn fsub(a: u32, b: u32) -> u32;

/// The single-precision product of the two singles whose bit patterns are
/// given.
pub uninterp spec fn fmul(a: u32, b: u32) -> u32;

/// The single-precision quotient of the two singles whose bit patterns are
/// given.
pub uninterp spec fn fdiv(a: u32, b: u32) -> u32;

/// The single-precision exponential of the single whose bit pattern is given.
pub uninterp spec fn fexp(a: u32) -> u32;

/// Whether the first single compares strictly greater than the second.
pub uninterp spec fn fgt(a: u32, b: u32) -> bool;

/// Whether the first single compares greater than or equal to the second.
pub uninterp spec fn fge(a: u32, b: u32) -> bool;

/// Negation of a single: the sign bit flips and nothing else moves.
pub open spec fn fneg(a: u32) -> u32 {
    a ^ 0x8000_0000
}

/// A single drawn from the half-open unit range: at or above minus one,
/// strictly below one.
pub open spec fn unit_range(w: u32) -> bool {
    fge(w, F_NEG_ONE) && fgt(F_ONE, w)
}

/// Relies on libm::fmaf and bytemuck::cast: a fused multiply-add with factor
/// one rounds nothing but the sum, so it adds the two singles exactly as `+`
/// would; cast moves between the bit pattern and the float.
#[verifier::external_body]
pub(crate) fn add_bits(a: u32, b: u32) -> (r: u32)
    ensures
        r == fadd(a, b),
{
    libm::fmaf(bytemuck::cast(a), bytemuck::cast(0x3F80_0000u32), bytemuck::cast(b)).to_bits()
}

/// Relies on libm::fmaf and bytemuck::cast: multiplying the subtrahend by
/// minus one and adding, rounded once, is exactly single-precision
/// subtraction.
#[verifier::external_body]
pub(crate) fn sub_bits(a: u32, b: u32) -> (r: u32)
    ensures
        r == fsub(a, b),
{
    libm::fmaf(bytemuck::cast(b), bytemuck::cast(0xBF80_0000u32), bytemuck::cast(a)).to_bits()
}

/// Relies on libm::fmaf and bytemuck::cast: a fused multiply-add with the
/// addend minus zero rounds the product once, exactly as `*` would, and the
/// minus-zero addend leaves every product, signed zeros included, as it is.
#[verifier::external_body]
pub(crate) fn mul_bits(a: u32, b: u32) -> (r: u32)
    ensures
        r == fmul(a, b),
{
    libm::fmaf(bytemuck::cast(a), bytemuck::cast(b), bytemuck::cast(0x8000_0000u32)).to_bits()
}

/// Relies on libm::fmaf and bytemuck::cast: the identity multiply-add turns
/// each bit pattern into its single, and the quotient is the hardware's
/// single-precision division.
#[verifier::external_body]
pub(crate) fn div_bits(a: u32, b: u32) -> (r: u32)
    ensures
        r == fdiv(a, b),
{
    let x = libm::fmaf(bytemuck::cast(a), bytemuck::cast(0x3F80_0000u32), bytemuck::cast(0x8000_0000u32));
    let y = libm::fmaf(bytemuck::cast(b), bytemuck::cast(0x3F80_0000u32), bytemuck::cast(0x8000_0000u32));
    (x / y).to_bits()
}

/// Relies on libm::expf and bytemuck::cast: the exponential of the single
/// whose bits are given, a function of its argument alone.
#[verifier::external_body]
pub(crate) fn exp_bits(a: u32) -> (r: u32)
    ensures
        r == fexp(a),
{
    libm::expf(bytemuck::cast(a)).to_bits()
}

/// Relies on libm::fmaf, bytemuck::cast and the primitive `>` on singles.
#[verifier::external_body]
pub(crate) fn gt_bits(a: u32, b: u32) -> (r: bool)
    ensures
        r == fgt(a, b),
{
    let x = libm::fmaf(bytemuck::cast(a), bytemuck::cast(0x3F80_0000u32), bytemuck::cast(0x8000_0000u32));
    let y = libm::fmaf(bytemuck::cast(b), bytemuck::cast(0x3F80_0000u32), bytemuck::cast(0x8000_0000u32));
    x > y
}

/// Relies on libm::fmaf, bytemuck::cast and the primitive `>=` on singles.
#[verifier::external_body]
pub(crate) fn ge_bits(a: u32, b: u32) -> (r: bool)
    ensures
        r == fge(a, b),
{
    let x = libm::fmaf(bytemuck::cast(a), bytemuck::cast(0x3F80_0000u32), bytemuck::cast(0x8000_0000u32));
    let y = libm::fmaf(bytemuck::cast(b), bytemuck::cast(0x3F80_0000u32), bytemuck::cast(0x8000_0000u32));
    x >= y
}

/// Relies on rand::thread_rng and Rng::gen_range: a single drawn uniformly
/// from the half-open range from minus one to one. Of the random draw only
/// the range holds of every outcome: gen_range(low..high) documents a value
/// at or above low and strictly below high.
#[verifier::external_body]
pub(crate) fn rand_unit_bits() -> (r: u32)
    ensures
        unit_range(r),
{
    let lo = libm::fmaf(bytemuck::cast(0xBF80_0000u32), bytemuck::cast(0x3F80_0000u32), bytemuck::cast(0x8000_0000u32));
    let hi = libm::fmaf(bytemuck::cast(0x3F80_0000u32), bytemuck::cast(0x3F80_0000u32), bytemuck::cast(0x8000_0000u32));
    rand::Rng::gen_range(&mut rand::thread_rng(), lo..hi).to_bits()
}

/// Flip the sign bit: single-precision negation.
pub fn neg_bits(a: u32) -> (r: u32)
    ensures
        r == fneg(a),
{
    a ^ 0x8000_0000
}

} // verus!
