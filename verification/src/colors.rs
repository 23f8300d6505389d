//! The colour model: RGB pixels in 8 and 16 bits per channel, HSV colours in
//! 8-bit fixed point, the six-sector conversion from HSV to RGB and linear
//! interpolation between HSV colours.

use vstd::prelude::*;
use crate::scale::{lemma_fraction8_bounds, lemma_scale8_bounds, map_range, scale8, u8_scale};

verus! {

/// An RGB colour with 8 bits per channel.
#[derive(Debug, Copy, Clone, PartialEq, Eq, Structural)]
pub struct Pixel {
    pub r: u8,
    pub g: u8,
    pub b: u8,
}

impl Pixel {
    pub fn new(r: u8, g: u8, b: u8) -> (pixel: Self)
        ensures
            pixel == (Pixel { r, g, b }),
    {
        Self { r, g, b }
    }

    pub fn set_rgb(&mut self, rgb: &Pixel)
        ensures
            *final(self) == *rgb,
    {
        self.r = rgb.r;
        self.g = rgb.g;
        self.b = rgb.b;
    }

    pub fn set_r(&mut self, r: u8)
        ensures
            *final(self) == (Pixel { r, ..*old(self) }),
    {
        self.r = r;
    }

    pub fn get_r(&self) -> (r: u8)
        ensures
            r == self.r,
    {
        self.r
    }

    pub fn set_g(&mut self, g: u8)
        ensures
            *final(self) == (Pixel { g, ..*old(self) }),
    {
        self.g = g;
    }

    pub fn get_g(&self) -> (g: u8)
        ensures
            g == self.g,
    {
        self.g
    }

    pub fn set_b(&mut self, b: u8)
        ensures
            *final(self) == (Pixel { b, ..*old(self) }),
    {
        self.b = b;
    }

    pub fn get_b(&self) -> (b: u8)
        ensures
            b == self.b,
    {
        self.b
    }
}

/// An RGB colour with 16 bits per channel, as an analog output takes it.
#[derive(Debug, Copy, Clone, PartialEq, Eq, Structural)]
pub struct Pixel16 {
    pub r: u16,
    pub g: u16,
    pub b: u16,
}

impl Pixel16 {
    pub fn new(r: u16, g: u16, b: u16) -> (pixel: Self)
        ensures
            pixel == (Pixel16 { r, g, b }),
    {
        Self { r, g, b }
    }

    pub fn set_rgb(&mut self, rgb: &Pixel16)
        ensures
            *final(self) == *rgb,
    {
        self.r = rgb.r;
        self.g = rgb.g;
        self.b = rgb.b;
    }

    pub fn set_r(&mut self, r: u16)
        ensures
            *final(self) == (Pixel16 { r, ..*old(self) }),
    {
        self.r = r;
    }

    pub fn get_r(&self) -> (r: u16)
        ensures
            r == self.r,
    {
        self.r
    }

    pub fn set_g(&mut self, g: u16)
        ensures
            *final(self) == (Pixel16 { g, ..*old(self) }),
    {
        self.g = g;
    }

    pub fn get_g(&self) -> (g: u16)
        ensures
            g == self.g,
    {
        self.g
    }

    pub fn set_b(&mut self, b: u16)
        ensures
            *final(self) == (Pixel16 { b, ..*old(self) }),
    {
        self.b = b;
    }

    pub fn get_b(&self) -> (b: u16)
        ensures
            b == self.b,
    {
        self.b
    }
}

/// An HSV colour in 8-bit fixed point: each channel runs over `0..=255`,
/// which stands for the unit interval. The hue wheel has six sectors of 43
/// steps each.
#[derive(Debug, Copy, Clone, PartialEq, Eq, Structural)]
pub struct PixelHsv {
    pub h: u8,
    pub s: u8,
    pub v: u8,
}

/// The channel that neither leads nor follows in a sector: `v * (1 - s)`.
pub open spec fn channel_p(s: int, v: int) -> int {
    scale8(v, 255 - s)
}

/// The channel that falls along a sector: `v * (1 - s * f)`.
pub open spec fn channel_q(s: int, v: int, f: int) -> int {
    scale8(v, 255 - scale8(s, f))
}

/// The channel that rises along a sector: `v * (1 - s * (1 - f))`.
pub open spec fn channel_t(s: int, v: int, f: int) -> int {
    scale8(v, 255 - scale8(s, 255 - f))
}

/// The colour at fraction `f` of a sector of the hue wheel.
pub open spec fn sector_color(sector: int, s: int, v: int, f: int) -> Pixel {
    let p = channel_p(s, v) as u8;
    let q = channel_q(s, v, f) as u8;
    let t = channel_t(s, v, f) as u8;
    let v = v as u8;
    if sector == 0 {
        Pixel { r: v, g: t, b: p }
    } else if sector == 1 {
        Pixel { r: q, g: v, b: p }
    } else if sector == 2 {
        Pixel { r: p, g: v, b: t }
    } else if sector == 3 {
        Pixel { r: p, g: q, b: v }
    } else if sector == 4 {
        Pixel { r: t, g: p, b: v }
    } else if sector == 5 {
        Pixel { r: v, g: p, b: q }
    } else {
        Pixel { r: 0, g: 0, b: 0 }
    }
}

/// The RGB colour of an HSV colour: grey where the saturation is 0, else the
/// colour of the hue's sector at the hue's place within it.
pub open spec fn hsv_to_rgb(hsv: PixelHsv) -> Pixel {
    if hsv.s == 0 {
        Pixel { r: hsv.v, g: hsv.v, b: hsv.v }
    } else {
        sector_color(hsv.h as int / 43, hsv.s as int, hsv.v as int, (hsv.h as int % 43) * 6)
    }
}

/// One channel carried from `from` towards `to` by the fraction `t / 255`,
/// truncated towards `from`.
pub open spec fn interp8(from: int, to: int, t: int) -> int {
    if from >= to {
        from - scale8(from - to, t)
    } else {
        from + scale8(to - from, t)
    }
}

/// The colour at fraction `t / 255` of the way from `col1` to `col2`, each
/// channel on its own and the hue by its numeric difference, never around
/// the wheel.
pub open spec fn hsv_interp_spec(col1: PixelHsv, col2: PixelHsv, t: u8) -> PixelHsv {
    PixelHsv {
        h: interp8(col1.h as int, col2.h as int, t as int) as u8,
        s: interp8(col1.s as int, col2.s as int, t as int) as u8,
        v: interp8(col1.v as int, col2.v as int, t as int) as u8,
    }
}

/// The three channel formulas stay within 8 bits, and below the value.
proof fn lemma_channels_in_range(s: int, v: int, f: int)
    requires
        0 <= s <= 255,
        0 <= v <= 255,
        0 <= f <= 255,
    ensures
        0 <= channel_p(s, v) <= v,
        0 <= channel_q(s, v, f) <= v,
        0 <= channel_t(s, v, f) <= v,
{
    lemma_scale8_bounds(v, 255 - s);
    lemma_scale8_bounds(s, f);
    lemma_scale8_bounds(s, 255 - f);
    lemma_scale8_bounds(v, 255 - scale8(s, f));
    lemma_scale8_bounds(v, 255 - scale8(s, 255 - f));
}

/// No channel of a converted colour exceeds the value of the colour, and
/// one channel, at least, is the value.
pub proof fn lemma_rgb_within_value(hsv: PixelHsv)
    ensures
        hsv_to_rgb(hsv).r <= hsv.v,
        hsv_to_rgb(hsv).g <= hsv.v,
        hsv_to_rgb(hsv).b <= hsv.v,
        hsv_to_rgb(hsv).r == hsv.v || hsv_to_rgb(hsv).g == hsv.v || hsv_to_rgb(hsv).b == hsv.v,
{
    lemma_channels_in_range(hsv.s as int, hsv.v as int, (hsv.h as int % 43) * 6);
}

/// An interpolated channel lies between its endpoints, and the ends of the
/// range are exact: 0 gives `from`, 255 gives `to`.
pub proof fn lemma_interp8_bounds(from: int, to: int, t: int)
    requires
        0 <= from <= 255,
        0 <= to <= 255,
        0 <= t <= 255,
    ensures
        from <= to ==> from <= interp8(from, to, t) <= to,
        from >= to ==> to <= interp8(from, to, t) <= from,
        interp8(from, to, 0) == from,
        interp8(from, to, 255) == to,
        interp8(from, from, t) == from,
{
    if from >= to {
        lemma_scale8_bounds(from - to, t);
    } else {
        lemma_scale8_bounds(to - from, t);
    }
    lemma_scale8_bounds(0, t);
}

/// Without saturation every hue is the grey of the value, also by the
/// sector formulas themselves.
pub proof fn lemma_unsaturated_is_grey(hsv: PixelHsv)
    requires
        hsv.s == 0,
    ensures
        hsv_to_rgb(hsv) == (Pixel { r: hsv.v, g: hsv.v, b: hsv.v }),
        sector_color(hsv.h as int / 43, 0, hsv.v as int, (hsv.h as int % 43) * 6) == (Pixel {
            r: hsv.v,
            g: hsv.v,
            b: hsv.v,
        }),
{
    let f: int = (hsv.h as int % 43) * 6;
    lemma_scale8_bounds(0, f);
    lemma_scale8_bounds(0, 255 - f);
    lemma_scale8_bounds(hsv.v as int, 255);
}

/// Continuity across the sector boundaries of the hue wheel: where a sector
/// begins, at fraction 0, its formula gives the colour that the sector
/// before it reaches at the end of its range, at fraction 255. A hue on a
/// boundary, `43 * sector`, therefore has that colour.
pub proof fn lemma_sector_boundary_continuous(sector: int, s: u8, v: u8)
    requires
        0 <= sector < 6,
    ensures
        sector_color(sector, s as int, v as int, 0) == sector_color(
            (sector + 5) % 6,
            s as int,
            v as int,
            255,
        ),
        s > 0 ==> hsv_to_rgb(PixelHsv { h: (43 * sector) as u8, s, v }) == sector_color(
            (sector + 5) % 6,
            s as int,
            v as int,
            255,
        ),
{
    lemma_scale8_bounds(s as int, 0);
    lemma_scale8_bounds(s as int, 255);
    lemma_scale8_bounds(v as int, 255);
}

/// Where a sector ends, at fraction 252, the falling channel is within 3 of
/// the low channel and the rising channel within 3 of the value.
proof fn lemma_sector_end_channels(s: int, v: int)
    requires
        0 <= s <= 255,
        0 <= v <= 255,
    ensures
        channel_p(s, v) <= channel_q(s, v, 252) <= channel_p(s, v) + 3,
        v - 3 <= channel_t(s, v, 252) <= v,
{
    // The saturation at fraction 252 falls short of the whole by 3 at most.
    let k = scale8(s, 252);
    assert(s - 3 <= k <= s);
    let low = v * (256 - s);
    let gain = v * (s - k);
    assert(v * (256 - k) == low + gain) by (nonlinear_arith)
        requires
            low == v * (256 - s),
            gain == v * (s - k),
    ;
    assert(0 <= gain <= 765) by (nonlinear_arith)
        requires
            gain == v * (s - k),
            0 <= v <= 255,
            0 <= s - k <= 3,
    ;
    assert(channel_q(s, v, 252) == (low + gain) / 256);
    assert(channel_p(s, v) == low / 256);
    // The saturation at fraction 3 is 3 at most.
    let m = scale8(s, 3);
    assert(0 <= m <= 3);
    let loss = v * m;
    assert(v * (256 - m) == 256 * v - loss) by (nonlinear_arith)
        requires
            loss == v * m,
    ;
    assert(0 <= loss <= 765) by (nonlinear_arith)
        requires
            loss == v * m,
            0 <= v <= 255,
            0 <= m <= 3,
    ;
    assert(channel_t(s, v, 252) == (256 * v - loss) / 256);
}

/// In steps of the 8-bit scale, the colour at the end of a sector is within
/// 3 of the colour that the next sector begins with, in every channel: the
/// hue wheel has no jump at a sector boundary.
pub proof fn lemma_sector_boundary_step(sector: int, s: u8, v: u8)
    requires
        1 <= sector < 6,
    ensures
        ({
            let before = sector_color(sector - 1, s as int, v as int, 252);
            let after = sector_color(sector, s as int, v as int, 0);
            &&& -3 <= before.r - after.r <= 3
            &&& -3 <= before.g - after.g <= 3
            &&& -3 <= before.b - after.b <= 3
        }),
        s > 0 ==> hsv_to_rgb(PixelHsv { h: (43 * sector - 1) as u8, s, v }) == sector_color(
            sector - 1,
            s as int,
            v as int,
            252,
        ),
        s > 0 ==> hsv_to_rgb(PixelHsv { h: (43 * sector) as u8, s, v }) == sector_color(
            sector,
            s as int,
            v as int,
            0,
        ),
{
    lemma_sector_end_channels(s as int, v as int);
    lemma_scale8_bounds(s as int, 0);
    lemma_scale8_bounds(s as int, 255);
    lemma_scale8_bounds(v as int, 255);
    lemma_channels_in_range(s as int, v as int, 252);
    lemma_channels_in_range(s as int, v as int, 0);
}

impl PixelHsv {
    pub fn new(h: u8, s: u8, v: u8) -> (hsv: Self)
        ensures
            hsv == (PixelHsv { h, s, v }),
    {
        Self { h, s, v }
    }

    pub fn set_hsv(&mut self, hsv: &PixelHsv)
        ensures
            *final(self) == *hsv,
    {
        self.h = hsv.h;
        self.s = hsv.s;
        self.v = hsv.v;
    }

    pub fn set_h(&mut self, h: u8)
        ensures
            *final(self) == (PixelHsv { h, ..*old(self) }),
    {
        self.h = h;
    }

    pub fn get_h(&self) -> (h: u8)
        ensures
            h == self.h,
    {
        self.h
    }

    pub fn set_s(&mut self, s: u8)
        ensures
            *final(self) == (PixelHsv { s, ..*old(self) }),
    {
        self.s = s;
    }

    pub fn get_s(&self) -> (s: u8)
        ensures
            s == self.s,
    {
        self.s
    }

    pub fn set_v(&mut self, v: u8)
        ensures
            *final(self) == (PixelHsv { v, ..*old(self) }),
    {
        self.v = v;
    }

    pub fn get_v(&self) -> (v: u8)
        ensures
            v == self.v,
    {
        self.v
    }

    /// This colour as RGB.
    pub fn to_rgb(&self) -> (rgb: Pixel)
        ensures
            rgb == hsv_to_rgb(*self),
            self.s == 0 ==> rgb == (Pixel { r: self.v, g: self.v, b: self.v }),
    {
        hsv_2_rgb(*self)
    }
}

/// Converts an HSV colour to RGB by the six-sector formulas, each product
/// truncated, never rounded.
pub fn hsv_2_rgb(pixel: PixelHsv) -> (rgb: Pixel)
    ensures
        rgb == hsv_to_rgb(pixel),
        pixel.s == 0 ==> rgb == (Pixel { r: pixel.v, g: pixel.v, b: pixel.v }),
{
    if pixel.s == 0 {
        Pixel { r: pixel.v, g: pixel.v, b: pixel.v }
    } else {
        let i: u8 = pixel.h / 43;
        let f: u8 = pixel.h % 43 * 6;
        proof {
            lemma_scale8_bounds(pixel.s as int, f as int);
            lemma_scale8_bounds(pixel.s as int, 255 - f);
        }
        let p: u8 = u8_scale(pixel.v, 255 - pixel.s);
        let q: u8 = u8_scale(pixel.v, 255 - u8_scale(pixel.s, f));
        let t: u8 = u8_scale(pixel.v, 255 - u8_scale(pixel.s, 255 - f));

        match i {
            0 => Pixel { r: pixel.v, g: t, b: p },
            1 => Pixel { r: q, g: pixel.v, b: p },
            2 => Pixel { r: p, g: pixel.v, b: t },
            3 => Pixel { r: p, g: q, b: pixel.v },
            4 => Pixel { r: t, g: p, b: pixel.v },
            5 => Pixel { r: pixel.v, g: p, b: q },
            _ => Pixel { r: 0, g: 0, b: 0 },
        }
    }
}

/// One channel of [`hsv_interp`].
fn interp_channel(from: u8, to: u8, value: u8) -> (out: u8)
    ensures
        out == interp8(from as int, to as int, value as int),
{
    proof {
        lemma_interp8_bounds(from as int, to as int, value as int);
        lemma_fraction8_bounds(value as int, 255);
    }
    if from == to {
        from
    } else if from > to {
        from - map_range(value, 255, from - to)
    } else {
        from + map_range(value, 255, to - from)
    }
}

/// Interpolates from `col1` to `col2`: `value` 0 gives `col1`, 255 gives
/// `col2`, and equal endpoints give themselves at every `value`.
pub fn hsv_interp(col1: &PixelHsv, col2: &PixelHsv, value: u8) -> (out: PixelHsv)
    ensures
        out == hsv_interp_spec(*col1, *col2, value),
        *col1 == *col2 ==> out == *col1,
        value == 0 ==> out == *col1,
        value == 255 ==> out == *col2,
{
    proof {
        lemma_interp8_bounds(col1.h as int, col2.h as int, value as int);
        lemma_interp8_bounds(col1.s as int, col2.s as int, value as int);
        lemma_interp8_bounds(col1.v as int, col2.v as int, value as int);
    }
    PixelHsv {
        h: interp_channel(col1.h, col2.h, value),
        s: interp_channel(col1.s, col2.s, value),
        v: interp_channel(col1.v, col2.v, value),
    }
}

} // verus!
