//! Scalar helpers: angle conversion, clamping and uniform random draws.

use vstd::prelude::*;
use vstd::std_specs::ops::{AddSpec, DivSpec, MulSpec, SubSpec};
use crate::constants::PI_RAW;
use crate::fixed::{Fixed, SCALE};

verus! {

/// Thirty-two random bits from the thread-local generator.
///
/// Calls `rand::thread_rng()` and `rand::Rng::gen::<u32>` on it, which hands
/// on the next 32-bit word of the generator. Nothing is claimed of the bits:
/// two calls may return anything. The generator is seeded from the
/// operating system when a thread first uses it, and that alone can fail.
#[verifier::external_body]
fn random_bits() -> (bits: u32) {
    rand::Rng::gen::<u32>(&mut rand::thread_rng())
}

/// Whether `u` lies in the half-open unit interval `[0, 1)`.
pub open spec fn is_unit_draw(u: Fixed) -> bool {
    0 <= u.raw < SCALE
}

/// The point of the segment from `min` to `max` at parameter `u`.
pub open spec fn spec_interpolate(min: Fixed, max: Fixed, u: Fixed) -> Fixed {
    min.add_spec(max.sub_spec(min).mul_spec(u))
}

/// Whether `r` is the point of the segment from `min` to `max` at some
/// parameter of the half-open unit interval.
pub open spec fn is_draw_between(min: Fixed, max: Fixed, r: Fixed) -> bool {
    exists|u: Fixed| is_unit_draw(u) && r == spec_interpolate(min, max, u)
}

/// Angle in radians of an angle in degrees.
pub open spec fn spec_degrees_to_radians(degrees: Fixed) -> Fixed {
    degrees.mul_spec(Fixed { raw: PI_RAW }).div_spec(Fixed::spec_from_int(180))
}

/// `x` limited to the interval from `min` to `max`.
pub open spec fn spec_clamp(x: Fixed, min: Fixed, max: Fixed) -> Fixed {
    if x.raw < min.raw {
        min
    } else if x.raw > max.raw {
        max
    } else {
        x
    }
}

/// Angle in radians of an angle in degrees.
#[verifier::when_used_as_spec(spec_degrees_to_radians)]
pub fn degrees_to_radians(degrees: Fixed) -> (r: Fixed)
    ensures
        r == spec_degrees_to_radians(degrees),
{
    degrees * Fixed { raw: PI_RAW } / Fixed::from_int(180)
}

/// The scalar whose fractional bits are `bits`: a point of `[0, 1)`.
pub fn unit_draw_from_bits(bits: u32) -> (r: Fixed)
    ensures
        r.raw == bits,
        is_unit_draw(r),
{
    Fixed { raw: bits as i64 }
}

/// A random scalar of the half-open unit interval.
pub fn rand_double() -> (r: Fixed)
    ensures
        is_unit_draw(r),
{
    unit_draw_from_bits(random_bits())
}

/// The point of the segment from `min` to `max` at parameter `u`.
#[verifier::when_used_as_spec(spec_interpolate)]
pub fn interpolate(min: Fixed, max: Fixed, u: Fixed) -> (r: Fixed)
    ensures
        r == spec_interpolate(min, max, u),
{
    min + (max - min) * u
}

/// A random scalar of the segment from `min` to `max`.
pub fn random_double(min: Fixed, max: Fixed) -> (r: Fixed)
    ensures
        is_draw_between(min, max, r),
{
    let u = rand_double();
    interpolate(min, max, u)
}

/// `x` limited to the interval from `min` to `max`.
#[verifier::when_used_as_spec(spec_clamp)]
pub fn clamp(x: Fixed, min: Fixed, max: Fixed) -> (r: Fixed)
    ensures
        r == spec_clamp(x, min, max),
{
    if x.raw < min.raw {
        min
    } else if x.raw > max.raw {
        max
    } else {
        x
    }
}

} // verus!
