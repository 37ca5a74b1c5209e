//! Colors and their conversion to eight-bit channels.

use vstd::prelude::*;
use vstd::std_specs::ops::{AddSpec, DivSpec};
use crate::fixed::{isqrt, lemma_isqrt_unique, lemma_trunc_div_sign, trunc_div, Fixed, SCALE};
use crate::utilities::{clamp, spec_clamp};
use crate::vec3::Vec3;

verus! {

/// A color: red, green and blue in the three components.
pub type Color = Vec3;

/// Raw value of the largest channel value that is written: 0.999.
pub const CHANNEL_MAX_RAW: i64 = 4290672328;

/// The sum of the colors of `samples`, added up from first to last.
pub open spec fn spec_color_sum(samples: Seq<Color>) -> Color
    decreases samples.len(),
{
    if samples.len() == 0 {
        Vec3::zero()
    } else {
        spec_color_sum(samples.drop_last()).add_spec(samples.last())
    }
}

/// The eight-bit value of a channel whose samples add up to `sum`: the mean
/// of the samples, gamma-corrected by a square root, limited to 0.999 and
/// multiplied by 256, rounded down. A negative mean counts as zero.
pub open spec fn spec_channel(sum: Fixed, samples_per_pixel: i32) -> u8 {
    let mean = sum.div_spec(Fixed::from_int(samples_per_pixel));
    let corrected = mean.spec_max(Fixed::zero()).spec_sqrt();
    let limited = spec_clamp(corrected, Fixed::zero(), Fixed { raw: CHANNEL_MAX_RAW });
    (256 * limited.raw / (SCALE as int)) as u8
}

/// The three eight-bit channels of a pixel whose samples add up to
/// `pixel_color`.
pub open spec fn spec_rgb(pixel_color: Color, samples_per_pixel: i32) -> (u8, u8, u8) {
    (
        spec_channel(pixel_color.x, samples_per_pixel),
        spec_channel(pixel_color.y, samples_per_pixel),
        spec_channel(pixel_color.z, samples_per_pixel),
    )
}

/// The decimal digits of `value`, as characters, without leading zeros.
pub open spec fn spec_decimal(value: u8) -> Seq<u8> {
    if value >= 100 {
        seq![(48 + value / 100) as u8, (48 + (value / 10) % 10) as u8, (48 + value % 10) as u8]
    } else if value >= 10 {
        seq![(48 + value / 10) as u8, (48 + value % 10) as u8]
    } else {
        seq![(48 + value) as u8]
    }
}

/// The line of text for a pixel: its three channels in decimal, separated
/// by one space and ended by a line feed.
pub open spec fn spec_color_line(pixel_color: Color, samples_per_pixel: i32) -> Seq<u8> {
    let (r, g, b) = spec_rgb(pixel_color, samples_per_pixel);
    spec_decimal(r) + seq![32u8] + spec_decimal(g) + seq![32u8] + spec_decimal(b) + seq![10u8]
}

/// Samples that are all pure red give the brightest red there is, however
/// many they are: the channels 255, 0 and 0.
pub proof fn lemma_constant_red(samples: Seq<Color>)
    requires
        1 <= samples.len() <= i32::MAX,
        forall|k: int|
            0 <= k < samples.len() ==> samples[k] == (Vec3 {
                x: Fixed::one(),
                y: Fixed::zero(),
                z: Fixed::zero(),
            }),
    ensures
        spec_rgb(spec_color_sum(samples), samples.len() as i32) == (255u8, 0u8, 0u8),
{
    let n = samples.len() as int;
    lemma_red_sum(samples);
    let count = n * SCALE;
    assert(Fixed::spec_from_int(n as i32).raw == count);
    assert(trunc_div(count * SCALE, count) == SCALE) by (nonlinear_arith)
        requires
            count >= 1,
            SCALE == 0x1_0000_0000,
    ;
    assert(trunc_div(0 * SCALE, count) == 0) by (nonlinear_arith)
        requires
            count >= 1,
    ;
    assert(SCALE * SCALE == 0x1_0000_0000_0000_0000int) by (nonlinear_arith)
        requires
            SCALE == 0x1_0000_0000,
    ;
    lemma_isqrt_unique(SCALE * SCALE, SCALE as int);
    assert(0 * SCALE == 0);
    lemma_isqrt_unique(0, 0);
    assert(256int * 4290672328int / 4294967296int == 255int) by (nonlinear_arith);
    assert(256int * 0int / 4294967296int == 0int) by (nonlinear_arith);
}

/// The sum of `n` pure reds has `n` in its red channel and nothing else.
proof fn lemma_red_sum(samples: Seq<Color>)
    requires
        samples.len() <= i32::MAX,
        forall|k: int|
            0 <= k < samples.len() ==> samples[k] == (Vec3 {
                x: Fixed::one(),
                y: Fixed::zero(),
                z: Fixed::zero(),
            }),
    ensures
        spec_color_sum(samples) == (Vec3 {
            x: Fixed { raw: (samples.len() * SCALE) as i64 },
            y: Fixed::zero(),
            z: Fixed::zero(),
        }),
        samples.len() * SCALE <= i64::MAX,
    decreases samples.len(),
{
    let n = samples.len() as int;
    assert(n * SCALE <= i64::MAX) by (nonlinear_arith)
        requires
            0 <= n <= 0x7fff_ffff,
            SCALE == 0x1_0000_0000,
    ;
    if samples.len() > 0 {
        lemma_red_sum(samples.drop_last());
        assert((n - 1) * SCALE + SCALE == n * SCALE) by (nonlinear_arith);
    } else {
        assert(0 * SCALE == 0);
    }
}

/// The eight-bit value of a channel whose samples add up to `sum`: the mean
/// of the samples, gamma-corrected by a square root, limited to 0.999 and
/// multiplied by 256, rounded down. A negative mean counts as zero.
#[verifier::when_used_as_spec(spec_channel)]
pub fn channel(sum: Fixed, samples_per_pixel: i32) -> (value: u8)
    requires
        samples_per_pixel != 0,
    ensures
        value == spec_channel(sum, samples_per_pixel),
{
    let mean = sum / Fixed::from_int(samples_per_pixel);
    let corrected = mean.max(Fixed::zero()).sqrt();
    let limited = clamp(corrected, Fixed::zero(), Fixed { raw: CHANNEL_MAX_RAW });
    (256 * limited.raw / SCALE) as u8
}

/// The three eight-bit channels of a pixel whose samples add up to
/// `pixel_color`.
#[verifier::when_used_as_spec(spec_rgb)]
pub fn rgb(pixel_color: Color, samples_per_pixel: i32) -> (channels: (u8, u8, u8))
    requires
        samples_per_pixel != 0,
    ensures
        channels == spec_rgb(pixel_color, samples_per_pixel),
{
    (
        channel(pixel_color.x, samples_per_pixel),
        channel(pixel_color.y, samples_per_pixel),
        channel(pixel_color.z, samples_per_pixel),
    )
}

/// Appends the decimal digits of `value` to `output`.
pub fn push_decimal(output: &mut Vec<u8>, value: u8)
    ensures
        final(output)@ == old(output)@ + spec_decimal(value),
{
    if value >= 100 {
        output.push(48 + value / 100);
    }
    if value >= 10 {
        output.push(48 + (value / 10) % 10);
    }
    output.push(48 + value % 10);
    assert(output@ =~= old(output)@ + spec_decimal(value));
}

/// Appends to `output` the line of text for a pixel whose samples add up to
/// `pixel_color`.
pub fn write_color(output: &mut Vec<u8>, pixel_color: Color, samples_per_pixel: i32)
    requires
        samples_per_pixel != 0,
    ensures
        final(output)@ == old(output)@ + spec_color_line(pixel_color, samples_per_pixel),
{
    let (r, g, b) = rgb(pixel_color, samples_per_pixel);
    push_decimal(output, r);
    output.push(32);
    push_decimal(output, g);
    output.push(32);
    push_decimal(output, b);
    output.push(10);
    assert(output@ =~= old(output)@ + spec_color_line(pixel_color, samples_per_pixel));
}

} // verus!
