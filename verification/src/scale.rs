//! Integer rescaling primitives shared by the colour model and the renderer.

use vstd::prelude::*;

verus! {

/// `value` rescaled by the fraction `(factor + 1) / 256`.
///
/// The `+ 1` makes a factor of 255 the identity.
pub open spec fn scale8(value: int, factor: int) -> int {
    (value * (factor + 1)) / 256
}

/// `value` rescaled by the fraction `(factor + 1) / 65536`.
pub open spec fn scale16(value: int, factor: int) -> int {
    (value * (factor + 1)) / 65536
}

/// `value` rescaled by the fraction `(factor + 1) / 2^32`.
pub open spec fn scale32(value: int, factor: int) -> int {
    (value * (factor + 1)) / 0x1_0000_0000
}

/// A scaled value never exceeds either operand, and the extreme factors are
/// exact: 255 keeps the value, 0 sends every 8-bit value to 0.
pub proof fn lemma_scale8_bounds(value: int, factor: int)
    requires
        0 <= value <= 255,
        0 <= factor <= 255,
    ensures
        0 <= scale8(value, factor) <= value,
        scale8(value, factor) <= factor,
        scale8(value, 255) == value,
        scale8(value, 0) == 0,
        scale8(0, factor) == 0,
{
    assert(0 <= value * (factor + 1) <= value * 256) by (nonlinear_arith)
        requires
            0 <= value,
            0 <= factor <= 255,
    ;
    assert(value * (factor + 1) <= 255 * (factor + 1)) by (nonlinear_arith)
        requires
            0 <= value <= 255,
            0 <= factor,
    ;
}

/// Scales `input` down to the range `0..=output_max`.
pub fn u8_scale(input: u8, output_max: u8) -> (out: u8)
    ensures
        out == scale8(input as int, output_max as int),
        out <= input,
        out <= output_max,
{
    proof {
        lemma_scale8_bounds(input as int, output_max as int);
        assert(0 <= input * (output_max + 1) <= 255 * 256) by (nonlinear_arith)
            requires
                0 <= input <= 255,
                0 <= output_max <= 255,
        ;
    }
    let wide: u16 = input as u16 * (output_max as u16 + 1);
    assert(wide >> 8 == wide / 256) by (bit_vector);
    (wide >> 8) as u8
}

/// Scales `val` down to the range `0..=scale`, in 16 bits.
pub fn u16_scale(val: u16, scale: u16) -> (out: u16)
    ensures
        out == scale16(val as int, scale as int),
        out <= val,
        out <= scale,
{
    proof {
        lemma_scale16_bounds(val as int, scale as int);
        assert(0 <= val * (scale + 1) <= 65535 * 65536) by (nonlinear_arith)
            requires
                0 <= val <= 65535,
                0 <= scale <= 65535,
        ;
    }
    let wide: u32 = val as u32 * (scale as u32 + 1);
    assert(wide >> 16 == wide / 65536) by (bit_vector);
    (wide >> 16) as u16
}

/// Scales `val` down to the range `0..=scale`, in 32 bits.
pub fn u32_scale(val: u32, scale: u32) -> (out: u32)
    ensures
        out == scale32(val as int, scale as int),
        out <= val,
        out <= scale,
{
    proof {
        lemma_scale32_bounds(val as int, scale as int);
        assert(0 <= val * (scale + 1) <= 0xffff_ffff * 0x1_0000_0000) by (nonlinear_arith)
            requires
                0 <= val <= 0xffff_ffff,
                0 <= scale <= 0xffff_ffff,
        ;
    }
    let wide: u64 = val as u64 * (scale as u64 + 1);
    assert(wide >> 32 == wide / 0x1_0000_0000) by (bit_vector);
    (wide >> 32) as u32
}

/// The 16-bit counterpart of [`lemma_scale8_bounds`].
pub proof fn lemma_scale16_bounds(value: int, factor: int)
    requires
        0 <= value <= 65535,
        0 <= factor <= 65535,
    ensures
        0 <= scale16(value, factor) <= value,
        scale16(value, factor) <= factor,
        scale16(value, 65535) == value,
        scale16(value, 0) == 0,
{
    assert(0 <= value * (factor + 1) <= value * 65536) by (nonlinear_arith)
        requires
            0 <= value,
            0 <= factor <= 65535,
    ;
    assert(value * (factor + 1) <= 65535 * (factor + 1)) by (nonlinear_arith)
        requires
            0 <= value <= 65535,
            0 <= factor,
    ;
}

/// The 32-bit counterpart of [`lemma_scale8_bounds`].
pub proof fn lemma_scale32_bounds(value: int, factor: int)
    requires
        0 <= value <= 0xffff_ffff,
        0 <= factor <= 0xffff_ffff,
    ensures
        0 <= scale32(value, factor) <= value,
        scale32(value, factor) <= factor,
        scale32(value, 0xffff_ffff) == value,
        scale32(value, 0) == 0,
{
    assert(0 <= value * (factor + 1) <= value * 0x1_0000_0000) by (nonlinear_arith)
        requires
            0 <= value,
            0 <= factor <= 0xffff_ffff,
    ;
    assert(value * (factor + 1) <= 0xffff_ffff * (factor + 1)) by (nonlinear_arith)
        requires
            0 <= value <= 0xffff_ffff,
            0 <= factor,
    ;
}

/// How far `input` lies along `0..=input_max`, as a fraction of 255.
pub open spec fn fraction8(input: int, input_max: int) -> int {
    (input * 255) / input_max
}

/// How far `input` lies along `0..=input_max`, as a fraction of 65535.
pub open spec fn fraction16(input: int, input_max: int) -> int {
    (input * 65535) / input_max
}

/// `input`, held to at most `input_max`, mapped proportionally onto
/// `0..=output_max`.
pub open spec fn map_range_spec(input: int, input_max: int, output_max: int) -> int {
    let clipped = if input > input_max { input_max } else { input };
    scale8(output_max, fraction8(clipped, input_max))
}

/// A fraction of an in-range input is itself in range, and exact at both ends.
pub proof fn lemma_fraction8_bounds(input: int, input_max: int)
    requires
        0 <= input <= input_max,
        0 < input_max,
    ensures
        0 <= fraction8(input, input_max) <= 255,
        fraction8(0, input_max) == 0,
        fraction8(input_max, input_max) == 255,
{
    assert(0 <= (input * 255) / input_max <= 255) by (nonlinear_arith)
        requires
            0 <= input <= input_max,
            0 < input_max,
    ;
    assert((input_max * 255) / input_max == 255) by (nonlinear_arith)
        requires
            0 < input_max,
    ;
}

/// A mapped value stays within `0..=output_max`; the bottom of the input
/// range maps to 0 and the top, or anything above it, to `output_max`.
pub proof fn lemma_map_range_bounds(input: int, input_max: int, output_max: int)
    requires
        0 <= input <= 255,
        0 < input_max <= 255,
        0 <= output_max <= 255,
    ensures
        0 <= map_range_spec(input, input_max, output_max) <= output_max,
        map_range_spec(0, input_max, output_max) == 0,
        input >= input_max ==> map_range_spec(input, input_max, output_max) == output_max,
{
    let clipped = if input > input_max { input_max } else { input };
    lemma_fraction8_bounds(clipped, input_max);
    lemma_fraction8_bounds(0, input_max);
    lemma_scale8_bounds(output_max, fraction8(clipped, input_max));
    lemma_scale8_bounds(output_max, 0);
}

/// Maps `input`, taken from `0..=input_max`, onto `0..=output_max`. An input
/// above `input_max` counts as `input_max`.
pub fn map_range(input: u8, input_max: u8, output_max: u8) -> (out: u8)
    requires
        input_max > 0,
    ensures
        out == map_range_spec(input as int, input_max as int, output_max as int),
        out <= output_max,
{
    let mut input_clip: u8 = input;
    if input > input_max {
        input_clip = input_max;
    }
    proof {
        lemma_fraction8_bounds(input_clip as int, input_max as int);
        lemma_map_range_bounds(input as int, input_max as int, output_max as int);
    }
    let percent_in: u8 = ((input_clip as u16 * 255) / (input_max as u16)) as u8;
    u8_scale(output_max, percent_in)
}

/// Maps `input`, taken from `0..=input_max`, onto `0..=output_max`, as
/// [`map_range`] does: an input above `input_max` counts as `input_max`.
pub fn u8_map_range(input: u8, input_max: u8, output_max: u8) -> (out: u8)
    requires
        input_max > 0,
    ensures
        out == map_range_spec(input as int, input_max as int, output_max as int),
        out <= output_max,
{
    map_range(input, input_max, output_max)
}

/// `input`, held to at most `input_max`, mapped proportionally onto
/// `0..=output_max`, in 16 bits.
pub open spec fn map_range16_spec(input: int, input_max: int, output_max: int) -> int {
    let clipped = if input > input_max { input_max } else { input };
    scale16(output_max, fraction16(clipped, input_max))
}

/// A 16-bit fraction of an in-range input is itself in range, and exact at
/// both ends.
pub proof fn lemma_fraction16_bounds(input: int, input_max: int)
    requires
        0 <= input <= input_max,
        0 < input_max,
    ensures
        0 <= fraction16(input, input_max) <= 65535,
        fraction16(0, input_max) == 0,
        fraction16(input_max, input_max) == 65535,
{
    assert(0 <= (input * 65535) / input_max <= 65535) by (nonlinear_arith)
        requires
            0 <= input <= input_max,
            0 < input_max,
    ;
    assert((input_max * 65535) / input_max == 65535) by (nonlinear_arith)
        requires
            0 < input_max,
    ;
}

/// A value mapped in 16 bits stays within `0..=output_max`; the bottom of
/// the input range maps to 0 and the top, or anything above it, to
/// `output_max`.
pub proof fn lemma_map_range16_bounds(input: int, input_max: int, output_max: int)
    requires
        0 <= input <= 65535,
        0 < input_max <= 65535,
        0 <= output_max <= 65535,
    ensures
        0 <= map_range16_spec(input, input_max, output_max) <= output_max,
        map_range16_spec(0, input_max, output_max) == 0,
        input >= input_max ==> map_range16_spec(input, input_max, output_max) == output_max,
{
    let clipped = if input > input_max { input_max } else { input };
    lemma_fraction16_bounds(clipped, input_max);
    lemma_fraction16_bounds(0, input_max);
    lemma_scale16_bounds(output_max, fraction16(clipped, input_max));
    lemma_scale16_bounds(output_max, 0);
}

/// The 16-bit counterpart of [`map_range`]: an input above `input_max`
/// counts as `input_max`.
pub fn u16_map_range(input: u16, input_max: u16, output_max: u16) -> (out: u16)
    requires
        input_max > 0,
    ensures
        out == map_range16_spec(input as int, input_max as int, output_max as int),
        out <= output_max,
{
    let mut input_clip: u16 = input;
    if input > input_max {
        input_clip = input_max;
    }
    proof {
        lemma_fraction16_bounds(input_clip as int, input_max as int);
        assert(input_clip * 65535 <= 65535 * 65535) by (nonlinear_arith)
            requires
                0 <= input_clip <= 65535,
        ;
    }
    let percent_in: u16 = ((input_clip as u32 * 65535) / (input_max as u32)) as u16;
    u16_scale(output_max, percent_in)
}

} // verus!
