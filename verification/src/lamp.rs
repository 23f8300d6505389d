//! Lamp patterns: fills that bend a gradient by a lookup table, by paced
//! sprites, or by the glow of sweeping sprites.

use vstd::prelude::*;
use crate::colors::{hsv_2_rgb, hsv_interp, hsv_interp_spec, hsv_to_rgb, Pixel, PixelHsv};
use crate::leds::{
    lemma_with_pixels_none, position, position_spec, shifted, Leds, LedsView, MAX_LEDS,
};
use crate::paced::{PacedView, RandomSprite};
use crate::sweep::Sprite;

verus! {

/// A colour with its hue moved by `amount` steps around the wheel, either
/// way.
pub open spec fn hue_moved(hsv: PixelHsv, amount: int) -> PixelHsv {
    PixelHsv { h: ((hsv.h + amount) % 256) as u8, ..hsv }
}

/// How far a paced sprite is from the middle of its scale.
pub open spec fn offset_from_middle(sprite: PacedView) -> int {
    sprite.value - sprite.scale / 2
}

/// The colour of pixel `index` in a gradient whose hue the value of a
/// sprite moves on.
pub open spec fn gradient_mod_color(
    start: PixelHsv,
    end: PixelHsv,
    sprite: PacedView,
    index: int,
    len: nat,
) -> Pixel {
    hsv_to_rgb(
        hue_moved(hsv_interp_spec(start, end, position_spec(index, len)), sprite.value as int),
    )
}

/// The colours of a gradient over `len` pixels, the hue of each moved on by
/// the value of the sprite of the same index.
pub open spec fn gradient_mod_colors(
    start: PixelHsv,
    end: PixelHsv,
    sprites: Seq<RandomSprite>,
    len: nat,
) -> Seq<Pixel> {
    Seq::new(len, |i: int| gradient_mod_color(start, end, sprites[i]@, i, len))
}

/// The place between two colours that a table gives pixel `index`: the
/// table is read at the pixel's position, moved on by `offset` around the
/// table.
pub open spec fn table_value(table: Seq<u8>, offset: u8, index: int, len: nat) -> u8 {
    table[shifted(position_spec(index, len), offset) as int]
}

/// The colour of pixel `index` in a wave that a table shapes.
pub open spec fn sine_color(
    start: PixelHsv,
    end: PixelHsv,
    table: Seq<u8>,
    offset: u8,
    index: int,
    len: nat,
) -> Pixel {
    hsv_to_rgb(hsv_interp_spec(start, end, table_value(table, offset, index, len)))
}

/// The colours of a wave that a table shapes, over `len` pixels.
pub open spec fn sine_colors(
    start: PixelHsv,
    end: PixelHsv,
    table: Seq<u8>,
    offset: u8,
    len: nat,
) -> Seq<Pixel> {
    Seq::new(len, |i: int| sine_color(start, end, table, offset, i, len))
}

/// The colour of pixel `index` in a wave whose hue a sprite moves, on or
/// back, by its distance from the middle of its scale.
pub open spec fn sine_mod_color(
    start: PixelHsv,
    end: PixelHsv,
    table: Seq<u8>,
    offset: u8,
    sprite: PacedView,
    index: int,
    len: nat,
) -> Pixel {
    hsv_to_rgb(
        hue_moved(
            hsv_interp_spec(start, end, table_value(table, offset, index, len)),
            offset_from_middle(sprite),
        ),
    )
}

/// The colours of a wave over `len` pixels, the hue of each moved by the
/// sprite of the same index.
pub open spec fn sine_mod_colors(
    start: PixelHsv,
    end: PixelHsv,
    table: Seq<u8>,
    offset: u8,
    sprites: Seq<RandomSprite>,
    len: nat,
) -> Seq<Pixel> {
    Seq::new(len, |i: int| sine_mod_color(start, end, table, offset, sprites[i]@, i, len))
}

/// How far pixel `index` lies along a strip of `len` pixels, as a fraction
/// of 65535.
pub open spec fn position16_spec(index: int, len: nat) -> u16 {
    if len <= 1 {
        0
    } else {
        ((index * 65535) / (len - 1)) as u16
    }
}

/// The light that a sprite throws on a place: full on the sprite, fading by
/// the sprite's falloff for each step of distance, in 8 bits.
pub open spec fn glow(pos: u16, sprite: Sprite) -> int {
    let delta = if pos >= sprite.pos {
        pos - sprite.pos
    } else {
        sprite.pos - pos
    };
    let dimming = delta * sprite.falloff;
    if dimming > 65535 {
        0
    } else {
        (65535 - dimming) / 256
    }
}

/// The light that sprites throw on a place together.
pub open spec fn glow_sum(pos: u16, sprites: Seq<Sprite>) -> int
    decreases sprites.len(),
{
    if sprites.len() == 0 {
        0
    } else {
        glow_sum(pos, sprites.drop_last()) + glow(pos, sprites.last())
    }
}

/// The light on a place, held to 255.
pub open spec fn brightness(pos: u16, sprites: Seq<Sprite>) -> u8 {
    if glow_sum(pos, sprites) > 255 {
        255
    } else {
        glow_sum(pos, sprites) as u8
    }
}

/// The colour of pixel `index`, between the background and the foreground
/// by the light that the sprites throw on it.
pub open spec fn sprites_color(
    fg_color: PixelHsv,
    bg_color: PixelHsv,
    sprites: Seq<Sprite>,
    index: int,
    len: nat,
) -> Pixel {
    hsv_to_rgb(
        hsv_interp_spec(bg_color, fg_color, brightness(position16_spec(index, len), sprites)),
    )
}

/// The colours of `len` pixels in the light of the sprites.
pub open spec fn sprites_colors(
    fg_color: PixelHsv,
    bg_color: PixelHsv,
    sprites: Seq<Sprite>,
    len: nat,
) -> Seq<Pixel> {
    Seq::new(len, |i: int| sprites_color(fg_color, bg_color, sprites, i, len))
}

/// The light of a sprite is within 8 bits, and so the light of sprites
/// together is not negative.
pub proof fn lemma_glow_bounds(pos: u16, sprites: Seq<Sprite>)
    ensures
        0 <= glow_sum(pos, sprites),
        forall|k: int| 0 <= k < sprites.len() ==> 0 <= glow(pos, #[trigger] sprites[k]) <= 255,
    decreases sprites.len(),
{
    if sprites.len() > 0 {
        lemma_glow_bounds(pos, sprites.drop_last());
    }
    assert forall|k: int| 0 <= k < sprites.len() implies 0 <= glow(pos, #[trigger] sprites[k])
        <= 255 by {
        let sprite = sprites[k];
        let delta = if pos >= sprite.pos {
            pos - sprite.pos
        } else {
            sprite.pos - pos
        };
        assert(0 <= delta * sprite.falloff) by (nonlinear_arith)
            requires
                0 <= delta,
                0 <= sprite.falloff,
        ;
    }
}

/// The place of pixel `index` on a strip of `len` pixels, in 16 bits.
fn position16(index: usize, len: usize) -> (pos: u16)
    requires
        index < len <= MAX_LEDS,
    ensures
        pos == position16_spec(index as int, len as nat),
{
    if len <= 1 {
        0
    } else {
        assert((index * 65535) / (len - 1) as int <= 65535) by (nonlinear_arith)
            requires
                0 <= index <= len - 1,
                len - 1 > 0,
        ;
        ((index as u32 * 65535) / (len as u32 - 1)) as u16
    }
}

/// Moves a hue on by the value of a sprite.
fn add_hue(hsv: PixelHsv, sprite: &RandomSprite) -> (out: PixelHsv)
    ensures
        out == hue_moved(hsv, sprite@.value as int),
{
    let mut out: PixelHsv = hsv;
    out.h = hsv.h.wrapping_add(sprite.get_value());
    out
}

/// Moves a hue by a sprite's distance from the middle of its scale.
fn move_hue(hsv: PixelHsv, sprite: &RandomSprite) -> (out: PixelHsv)
    ensures
        out == hue_moved(hsv, offset_from_middle(sprite@)),
{
    let value: i16 = sprite.get_value() as i16;
    let half: i16 = (sprite.get_scale() as i16) / 2;
    assert(0 <= half <= 127);
    let rand_bi: i16 = value - half;
    assert(-127 <= rand_bi <= 255);
    let mut out: PixelHsv = hsv;
    if rand_bi < 0 {
        out.h = hsv.h.wrapping_sub((-rand_bi) as u8);
    } else if rand_bi > 0 {
        out.h = hsv.h.wrapping_add(rand_bi as u8);
    }
    assert(out.h == (hsv.h + rand_bi) % 256);
    out
}

/// The light that the sprites throw on a place, held to 255.
fn light_at(pos: u16, sprites: &[Sprite]) -> (light: u8)
    ensures
        light == brightness(pos, sprites@),
{
    let mut light: u8 = 0;
    let mut k: usize = 0;
    proof {
        lemma_glow_bounds(pos, sprites@);
        lemma_glow_bounds(pos, sprites@.take(0));
    }
    while k < sprites.len()
        invariant
            k <= sprites@.len(),
            light == brightness(pos, sprites@.take(k as int)),
            0 <= glow_sum(pos, sprites@.take(k as int)),
            forall|j: int| 0 <= j < sprites@.len() ==> 0 <= glow(pos, #[trigger] sprites@[j]) <= 255,
        decreases sprites@.len() - k,
    {
        let sprite: Sprite = sprites[k];
        let delta: u16 = if pos >= sprite.pos {
            pos - sprite.pos
        } else {
            sprite.pos - pos
        };
        assert(delta * sprite.falloff <= 65535 * 65535) by (nonlinear_arith)
            requires
                0 <= delta <= 65535,
                0 <= sprite.falloff <= 65535,
        ;
        let dimming: u32 = delta as u32 * sprite.falloff as u32;
        let mix: u16 = if dimming > 65535 {
            0
        } else {
            (65535 - dimming) as u16
        };
        assert(mix >> 8 == mix / 256) by (bit_vector);
        let mix_8: u8 = (mix >> 8) as u8;
        proof {
            assert(sprites@.take(k + 1).drop_last() =~= sprites@.take(k as int));
            assert(sprites@.take(k + 1).last() == sprites@[k as int]);
            assert(mix_8 == glow(pos, sprites@[k as int]));
        }
        light = light.saturating_add(mix_8);
        k += 1;
    }
    assert(sprites@.take(sprites@.len() as int) =~= sprites@);
    light
}

/// The lowest reading of a potentiometer that counts.
pub const ADC_MIN: u16 = 500;

/// The highest reading of a potentiometer.
pub const ADC_MAX: u16 = 4095;

/// The hue that the reading of a potentiometer chooses: readings from 500
/// up are stretched by 5/4, held to 12 bits, and the top 8 bits taken.
pub open spec fn pot_hue(raw: u16) -> u8 {
    let above = if raw < 500 {
        0
    } else {
        raw - 500
    };
    let stretched = above * 5 / 4;
    if stretched > 4095 {
        255
    } else {
        (stretched / 16) as u8
    }
}

/// Turns the reading of a potentiometer into a hue. Readings are those of
/// a converter of 12 bits; the stretch is computed in 16.
pub fn adjust_pot(raw: u16) -> (hue: u8)
    requires
        raw <= 13607,
    ensures
        hue == pot_hue(raw),
{
    let stretched: u16 = raw.saturating_sub(ADC_MIN) * 5 / 4;
    let adjusted: u16 = if stretched > ADC_MAX {
        ADC_MAX
    } else {
        stretched
    };
    assert(adjusted >> 4 == adjusted / 16) by (bit_vector);
    (adjusted >> 4) as u8
}

/// The number of frames for which a wave keeps its offset.
pub const SINE_SPEED: u8 = 100;

/// The clock that moves a wave along: the offset into the table, and the
/// frames counted since it last moved.
#[derive(Debug, Copy, Clone, PartialEq, Eq, Structural)]
pub struct SineClock {
    pub offset: u8,
    pub timer: u8,
}

impl SineClock {
    /// The clock after one frame: with every hundredth frame the offset
    /// moves on by one, around the table.
    pub open spec fn after_frame(self) -> SineClock {
        if (self.timer + 1) % 256 >= 100 {
            SineClock { offset: ((self.offset + 1) % 256) as u8, timer: 0 }
        } else {
            SineClock { timer: ((self.timer + 1) % 256) as u8, ..self }
        }
    }

    /// A clock at offset 0.
    pub fn new() -> (clock: Self)
        ensures
            clock == (SineClock { offset: 0, timer: 0 }),
    {
        SineClock { offset: 0, timer: 0 }
    }

    /// Counts one frame.
    pub fn tick(&mut self)
        ensures
            *final(self) == old(self).after_frame(),
    {
        self.timer = self.timer.wrapping_add(1);
        if self.timer >= SINE_SPEED {
            self.timer = 0;
            self.offset = self.offset.wrapping_add(1);
        }
    }
}

impl Leds {
    /// Fills the strip with a gradient and moves the hue of each pixel on
    /// by the value of the sprite of the same index.
    pub fn fill_gradient_mod(&mut self, start: PixelHsv, end: PixelHsv, rand: &[RandomSprite])
        requires
            old(self).wf(),
            rand@.len() >= old(self)@.len,
        ensures
            final(self).wf(),
            final(self)@ == old(self)@.with_pixels(
                0,
                gradient_mod_colors(start, end, rand@, old(self)@.len),
            ),
    {
        let len: usize = self.len();
        let ghost before = self@;
        let ghost colors = gradient_mod_colors(start, end, rand@, len as nat);
        proof {
            lemma_with_pixels_none(before, 0);
            assert(colors.take(0) =~= Seq::empty());
        }
        let mut i: usize = 0;
        while i < len
            invariant
                i <= len <= MAX_LEDS,
                len <= rand@.len(),
                before.wf(),
                before.len == len,
                colors == gradient_mod_colors(start, end, rand@, len as nat),
                self.wf(),
                self@ == before.with_pixels(0, colors.take(i as int)),
            decreases len - i,
        {
            let hsv: PixelHsv = add_hue(hsv_interp(&start, &end, position(i, len)), &rand[i]);
            let rgb: Pixel = hsv_2_rgb(hsv);
            self.paint_next(Ghost(before), Ghost(colors), i, rgb);
            i += 1;
        }
        assert(colors.take(len as int) =~= colors);
    }

    /// Fills the strip with a wave between two colours. The table `sin`
    /// gives the place between the colours for each place around the strip,
    /// and `offset` moves the wave along.
    pub fn fill_sine(&mut self, start: PixelHsv, end: PixelHsv, sin: &[u8; 256], offset: u8)
        requires
            old(self).wf(),
        ensures
            final(self).wf(),
            final(self)@ == old(self)@.with_pixels(
                0,
                sine_colors(start, end, sin@, offset, old(self)@.len),
            ),
    {
        let len: usize = self.len();
        let ghost before = self@;
        let ghost colors = sine_colors(start, end, sin@, offset, len as nat);
        proof {
            lemma_with_pixels_none(before, 0);
            assert(colors.take(0) =~= Seq::empty());
        }
        let mut i: usize = 0;
        while i < len
            invariant
                i <= len <= MAX_LEDS,
                before.wf(),
                before.len == len,
                colors == sine_colors(start, end, sin@, offset, len as nat),
                self.wf(),
                self@ == before.with_pixels(0, colors.take(i as int)),
            decreases len - i,
        {
            let table_index: u8 = position(i, len).wrapping_add(offset);
            let hsv: PixelHsv = hsv_interp(&start, &end, sin[table_index as usize]);
            let rgb: Pixel = hsv_2_rgb(hsv);
            self.paint_next(Ghost(before), Ghost(colors), i, rgb);
            i += 1;
        }
        assert(colors.take(len as int) =~= colors);
    }

    /// Fills the strip with a wave, as [`Leds::fill_sine`] does, and moves
    /// the hue of each pixel by the sprite of the same index: on where the
    /// sprite is above the middle of its scale, back where it is below.
    pub fn fill_sine_mod(
        &mut self,
        start: PixelHsv,
        end: PixelHsv,
        sin: &[u8; 256],
        offset: u8,
        rand: &[RandomSprite],
    )
        requires
            old(self).wf(),
            rand@.len() >= old(self)@.len,
        ensures
            final(self).wf(),
            final(self)@ == old(self)@.with_pixels(
                0,
                sine_mod_colors(start, end, sin@, offset, rand@, old(self)@.len),
            ),
    {
        let len: usize = self.len();
        let ghost before = self@;
        let ghost colors = sine_mod_colors(start, end, sin@, offset, rand@, len as nat);
        proof {
            lemma_with_pixels_none(before, 0);
            assert(colors.take(0) =~= Seq::empty());
        }
        let mut i: usize = 0;
        while i < len
            invariant
                i <= len <= MAX_LEDS,
                len <= rand@.len(),
                before.wf(),
                before.len == len,
                colors == sine_mod_colors(start, end, sin@, offset, rand@, len as nat),
                self.wf(),
                self@ == before.with_pixels(0, colors.take(i as int)),
            decreases len - i,
        {
            let table_index: u8 = position(i, len).wrapping_add(offset);
            let hsv: PixelHsv = move_hue(
                hsv_interp(&start, &end, sin[table_index as usize]),
                &rand[i],
            );
            let rgb: Pixel = hsv_2_rgb(hsv);
            self.paint_next(Ghost(before), Ghost(colors), i, rgb);
            i += 1;
        }
        assert(colors.take(len as int) =~= colors);
    }

    /// Fills the strip with the light of sweeping sprites: each pixel lies
    /// between the background and the foreground colour by the light that
    /// the sprites throw on it together.
    pub fn fill_sprites(&mut self, sprites: &[Sprite], fg_color: &PixelHsv, bg_color: &PixelHsv)
        requires
            old(self).wf(),
        ensures
            final(self).wf(),
            final(self)@ == old(self)@.with_pixels(
                0,
                sprites_colors(*fg_color, *bg_color, sprites@, old(self)@.len),
            ),
    {
        let len: usize = self.len();
        let ghost before = self@;
        let ghost colors = sprites_colors(*fg_color, *bg_color, sprites@, len as nat);
        proof {
            lemma_with_pixels_none(before, 0);
            assert(colors.take(0) =~= Seq::empty());
        }
        let mut i: usize = 0;
        while i < len
            invariant
                i <= len <= MAX_LEDS,
                before.wf(),
                before.len == len,
                colors == sprites_colors(*fg_color, *bg_color, sprites@, len as nat),
                self.wf(),
                self@ == before.with_pixels(0, colors.take(i as int)),
            decreases len - i,
        {
            let light: u8 = light_at(position16(i, len), sprites);
            let rgb: Pixel = hsv_2_rgb(hsv_interp(bg_color, fg_color, light));
            self.paint_next(Ghost(before), Ghost(colors), i, rgb);
            i += 1;
        }
        assert(colors.take(len as int) =~= colors);
    }
}

} // verus!
