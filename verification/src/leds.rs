//! The frame renderer: a strip of logical pixels and the buffer that holds
//! their encoding for one of three kinds of output.
//!
//! * A clocked strip takes a 4-byte start frame of zeros, then 4 bytes per
//!   pixel (a brightness byte fixed at 255, then blue, green, red), then one
//!   byte of end frame for every two pixels.
//! * A single-wire strip takes 3 bytes per pixel (red, green, blue) and
//!   nothing else.
//! * An analog output is a single pixel, held as three 16-bit duty values.

use vstd::prelude::*;
use vstd::arithmetic::div_mod::{
    lemma_fundamental_div_mod, lemma_fundamental_div_mod_converse, lemma_mod_self_0,
    lemma_small_mod,
};
use crate::sprites::{RandomSprite, RandomSprites};
use crate::colors::{
    hsv_interp, hsv_interp_spec, hsv_to_rgb, lemma_interp8_bounds, Pixel, Pixel16, PixelHsv,
};

verus! {

/// The most pixels a strip can have.
pub const MAX_LEDS: usize = 1024;

/// The kind of output that a strip drives.
#[derive(Debug, Copy, Clone, PartialEq, Eq, Structural)]
pub enum LedType {
    /// Clocked RGB.
    Apa102,
    /// Single-wire RGB.
    Ws2801,
    /// Three PWM channels.
    Analog,
}

/// What is handed to the transport: bytes for an addressable strip, duty
/// values for an analog output.
#[derive(Debug, PartialEq, Eq)]
pub enum BufferType {
    Addressable(Vec<u8>),
    Analog([u16; 3]),
}

/// The number of buffer entries that `len` pixels of a kind take.
pub open spec fn buffer_len(led_type: LedType, len: nat) -> nat {
    match led_type {
        LedType::Apa102 => 4 + 4 * len + (len + 1) / 2,
        LedType::Ws2801 => 3 * len,
        LedType::Analog => 3,
    }
}

/// The number of bytes that one pixel takes in an addressable frame.
pub open spec fn slot_width(led_type: LedType) -> int {
    match led_type {
        LedType::Apa102 => 4,
        LedType::Ws2801 => 3,
        LedType::Analog => 0,
    }
}

/// Where the bytes of pixel `index` begin in an addressable frame.
pub open spec fn slot_start(led_type: LedType, index: int) -> int {
    match led_type {
        LedType::Apa102 => 4 + 4 * index,
        LedType::Ws2801 => 3 * index,
        LedType::Analog => 0,
    }
}

/// The bytes of one pixel on an addressable strip.
pub open spec fn encode(led_type: LedType, rgb: Pixel) -> Seq<u8> {
    match led_type {
        LedType::Apa102 => seq![255u8, rgb.b, rgb.g, rgb.r],
        LedType::Ws2801 => seq![rgb.r, rgb.g, rgb.b],
        LedType::Analog => Seq::empty(),
    }
}

/// The duty values of an 8-bit colour: each channel in the high byte.
pub open spec fn duty8(rgb: Pixel) -> Seq<u16> {
    seq![(rgb.r as int * 256) as u16, (rgb.g as int * 256) as u16, (rgb.b as int * 256) as u16]
}

/// The duty values of a 16-bit colour.
pub open spec fn duty16(rgb: Pixel16) -> Seq<u16> {
    seq![rgb.r, rgb.g, rgb.b]
}

/// `frame` with the slots of the pixels `first .. first + colors.len()`
/// overwritten by the encodings of `colors`, and every other byte kept.
pub open spec fn paint(led_type: LedType, frame: Seq<u8>, first: int, colors: Seq<Pixel>) -> Seq<
    u8,
> {
    Seq::new(
        frame.len(),
        |j: int|
            {
                let k = j - slot_start(led_type, first);
                let w = slot_width(led_type);
                if 0 <= k < w * colors.len() {
                    encode(led_type, colors[k / w])[k % w]
                } else {
                    frame[j]
                }
            },
    )
}

/// The colour of an unlit pixel.
pub open spec fn black() -> Pixel {
    Pixel { r: 0, g: 0, b: 0 }
}

/// What a strip is, to its callers: its kind, its number of pixels, and what
/// its buffer holds. An addressable strip has a `frame` and no `duty`; an
/// analog output has a `duty` and no `frame`. The number of buffer entries
/// in use is no part of it: it is `buffer_len` of the kind and the number
/// of pixels.
pub struct LedsView {
    pub led_type: LedType,
    pub len: nat,
    pub frame: Seq<u8>,
    pub duty: Seq<u16>,
}

impl LedsView {
    /// The buffer has the size that the kind and the number of pixels call
    /// for.
    pub open spec fn wf(self) -> bool {
        &&& self.len <= 1024
        &&& match self.led_type {
            LedType::Analog => self.len == 1 && self.frame.len() == 0 && self.duty.len() == 3,
            _ => self.frame.len() == buffer_len(self.led_type, self.len) && self.duty.len() == 0,
        }
    }

    /// A new strip: every buffer entry 0. An analog output has one pixel,
    /// whatever count is asked for.
    pub open spec fn blank(led_type: LedType, led_count: nat) -> LedsView {
        match led_type {
            LedType::Analog => LedsView {
                led_type,
                len: 1,
                frame: Seq::empty(),
                duty: Seq::new(3, |i: int| 0u16),
            },
            _ => LedsView {
                led_type,
                len: led_count,
                frame: Seq::new(buffer_len(led_type, led_count), |i: int| 0u8),
                duty: Seq::empty(),
            },
        }
    }

    /// The strip after the pixels `first .. first + colors.len()` took the
    /// colours `colors`.
    pub open spec fn with_pixels(self, first: int, colors: Seq<Pixel>) -> LedsView {
        match self.led_type {
            LedType::Analog => if first <= 0 < first + colors.len() {
                LedsView { duty: duty8(colors[-first]), ..self }
            } else {
                self
            },
            _ => LedsView { frame: paint(self.led_type, self.frame, first, colors), ..self },
        }
    }

    /// The strip after pixel `index` took the colour `rgb`: unchanged where
    /// there is no such pixel.
    pub open spec fn set_led(self, rgb: Pixel, index: int) -> LedsView {
        if 0 <= index < self.len {
            self.with_pixels(index, seq![rgb])
        } else {
            self
        }
    }

    /// The strip after pixel `index` took the 16-bit colour `rgb`: only an
    /// analog output has such a pixel.
    pub open spec fn set_led16(self, rgb: Pixel16, index: int) -> LedsView {
        if self.led_type == LedType::Analog && 0 <= index < self.len {
            LedsView { duty: duty16(rgb), ..self }
        } else {
            self
        }
    }

    /// The strip with every pixel unlit.
    pub open spec fn all_off(self) -> LedsView {
        self.with_pixels(0, Seq::new(self.len, |i: int| black()))
    }

    /// The strip after a series of single-pixel writes, first to last.
    pub open spec fn after_writes(self, writes: Seq<(Pixel, int)>) -> LedsView
        decreases writes.len(),
    {
        if writes.len() == 0 {
            self
        } else {
            self.after_writes(writes.drop_last()).set_led(writes.last().0, writes.last().1)
        }
    }
}

/// How far pixel `index` lies along a strip of `len` pixels, as a fraction of
/// 255. The only pixel of a strip of one lies at 0.
pub open spec fn position_spec(index: int, len: nat) -> u8 {
    if len <= 1 {
        0
    } else {
        ((index * 255) / (len - 1)) as u8
    }
}

/// A phase added to a position, around the circle of 256 steps.
pub open spec fn shifted(pos: u8, phase: u8) -> u8 {
    ((pos + phase) % 256) as u8
}

/// The distance between two numbers.
pub open spec fn gap(a: int, b: int) -> int {
    if a >= b {
        a - b
    } else {
        b - a
    }
}

/// The place of pixel `index` in a mirrored gradient over `len` pixels:
/// the bipolar fold `|2 * pos - 1|` of its position, as a fraction of 255.
/// It is 255 at both ends of the strip and 0 at the middle pixel of a strip
/// with an odd number of pixels. The only pixel of a strip of one lies at
/// position 0, and so at 255.
pub open spec fn mirrored_place(index: int, len: nat) -> u8 {
    if len <= 1 {
        255
    } else {
        ((gap(2 * index, len - 1) * 255) / (len - 1)) as u8
    }
}

/// The place of pixel `index` in a triangle wave at `phase`: the bipolar
/// fold of the position moved on by the phase, around the strip. The phase
/// counts in 256ths of a turn.
///
/// In 256ths of a pixel step, a turn is `256 * (len - 1)` long and the
/// pixel lies `256 * index + phase * (len - 1)` along it.
pub open spec fn triangle_place(phase: u8, index: int, len: nat) -> u8 {
    let span: int = if len <= 1 {
        1
    } else {
        len - 1
    };
    let at: int = if len <= 1 {
        0
    } else {
        index
    };
    let turn = 256 * span;
    let along = (256 * at + phase * span) % turn;
    ((gap(2 * along, turn) * 255) / turn) as u8
}

/// The colour of pixel `index` in a gradient over `len` pixels.
pub open spec fn gradient_color(start: PixelHsv, end: PixelHsv, index: int, len: nat) -> Pixel {
    hsv_to_rgb(hsv_interp_spec(start, end, position_spec(index, len)))
}

/// The colour of pixel `index` in a mirrored gradient over `len` pixels:
/// `end` at place 0 and `start` at place 255.
pub open spec fn dual_color(start: PixelHsv, end: PixelHsv, index: int, len: nat) -> Pixel {
    hsv_to_rgb(hsv_interp_spec(end, start, mirrored_place(index, len)))
}

/// The colour of pixel `index` in a triangle wave at `phase`: `end` at
/// place 0 and `start` at place 255, on every kind of output.
pub open spec fn triangle_color(
    start: PixelHsv,
    end: PixelHsv,
    phase: u8,
    index: int,
    len: nat,
) -> Pixel {
    hsv_to_rgb(hsv_interp_spec(end, start, triangle_place(phase, index, len)))
}

/// The colour of a pixel whose sprite is at `value`: `end` at 0, `start`
/// at 255.
pub open spec fn random_color(start: PixelHsv, end: PixelHsv, value: u8) -> Pixel {
    hsv_to_rgb(hsv_interp_spec(end, start, value))
}

/// The colours that sprites give the pixels of a strip of `len` pixels:
/// pixel and sprite are paired from the first on, as far as both last.
pub open spec fn random_colors(
    start: PixelHsv,
    end: PixelHsv,
    sprites: Seq<RandomSprite>,
    len: nat,
) -> Seq<Pixel> {
    Seq::new(
        if sprites.len() < len {
            sprites.len()
        } else {
            len
        },
        |i: int| random_color(start, end, sprites[i].value),
    )
}

/// The colours of a gradient over `len` pixels: `start` at the first pixel,
/// `end` at the last.
pub open spec fn gradient_colors(start: PixelHsv, end: PixelHsv, len: nat) -> Seq<Pixel> {
    Seq::new(len, |i: int| gradient_color(start, end, i, len))
}

/// The colours of a mirrored gradient over `len` pixels: `start` at both
/// ends, `end` towards the middle.
pub open spec fn dual_colors(start: PixelHsv, end: PixelHsv, len: nat) -> Seq<Pixel> {
    Seq::new(len, |i: int| dual_color(start, end, i, len))
}

/// The colours of a triangle wave at `phase` over `len` pixels.
pub open spec fn triangle_colors(start: PixelHsv, end: PixelHsv, phase: u8, len: nat) -> Seq<
    Pixel,
> {
    Seq::new(len, |i: int| triangle_color(start, end, phase, i, len))
}

/// Painting no pixel changes nothing.
pub proof fn lemma_with_pixels_none(v: LedsView, first: int)
    ensures
        v.with_pixels(first, Seq::empty()) == v,
{
    assert(paint(v.led_type, v.frame, first, Seq::empty()) =~= v.frame);
}

/// Painting the first `i` pixels and then pixel `i` paints the first
/// `i + 1` pixels.
pub proof fn lemma_with_pixels_extend(v: LedsView, colors: Seq<Pixel>, i: int)
    requires
        v.wf(),
        0 <= i < colors.len() <= v.len,
    ensures
        v.with_pixels(0, colors.take(i)).set_led(colors[i], i) == v.with_pixels(
            0,
            colors.take(i + 1),
        ),
        v.with_pixels(0, colors.take(i)).wf(),
        v.with_pixels(0, colors.take(i)).len == v.len,
{
    let t = v.led_type;
    let one = seq![colors[i]];
    let part = paint(t, v.frame, 0, colors.take(i));
    if t != LedType::Analog {
        assert(paint(t, part, i, one) =~= paint(t, v.frame, 0, colors.take(i + 1)));
    }
}

/// The bytes of pixel `index` in an addressable frame.
pub open spec fn slot(led_type: LedType, frame: Seq<u8>, index: int) -> Seq<u8> {
    frame.subrange(
        slot_start(led_type, index),
        slot_start(led_type, index) + slot_width(led_type),
    )
}

/// Whether byte `at` of an addressable frame belongs to one of the pixels
/// `first .. first + count`.
pub open spec fn in_slots(led_type: LedType, at: int, first: int, count: int) -> bool {
    slot_start(led_type, first) <= at < slot_start(led_type, first + count)
}

/// On an addressable strip a fill gives each pixel the encoding of its
/// colour and changes no byte outside the pixels filled: the start frame,
/// the end frame and the pixels beyond the fill stay as they were.
pub proof fn lemma_with_pixels_slots(v: LedsView, first: int, colors: Seq<Pixel>)
    requires
        v.wf(),
        v.led_type != LedType::Analog,
        0 <= first,
        first + colors.len() <= v.len,
    ensures
        v.with_pixels(first, colors).wf(),
        forall|i: int|
            0 <= i < colors.len() ==> slot(
                v.led_type,
                v.with_pixels(first, colors).frame,
                first + i,
            ) == encode(v.led_type, #[trigger] colors[i]),
        forall|at: int|
            0 <= at < v.frame.len() && !in_slots(v.led_type, at, first, colors.len() as int)
                ==> #[trigger] v.with_pixels(first, colors).frame[at] == v.frame[at],
{
    let t = v.led_type;
    let after = v.with_pixels(first, colors).frame;
    assert forall|i: int| 0 <= i < colors.len() implies slot(t, after, first + i) == encode(
        t,
        #[trigger] colors[i],
    ) by {
        assert(slot(t, after, first + i) =~= encode(t, colors[i]));
    }
}

/// A write to a pixel sets the bytes of that pixel to the encoding of its
/// colour and changes no other byte.
pub proof fn lemma_set_led_writes_one_slot(v: LedsView, rgb: Pixel, index: int)
    requires
        v.wf(),
        v.led_type != LedType::Analog,
        0 <= index < v.len,
    ensures
        slot(v.led_type, v.set_led(rgb, index).frame, index) == encode(v.led_type, rgb),
        forall|at: int|
            0 <= at < v.frame.len() && !in_slots(v.led_type, at, index, 1) ==> #[trigger] v.set_led(
                rgb,
                index,
            ).frame[at] == v.frame[at],
{
    lemma_with_pixels_slots(v, index, seq![rgb]);
    assert(seq![rgb][0] == rgb);
}

/// A strip that is off holds, for each pixel, the encoding of black: on a
/// clocked strip the brightness byte 255 and three zeros, on a single-wire
/// strip three zeros. An analog output that is off has all duties 0.
pub proof fn lemma_all_off_slots(v: LedsView)
    requires
        v.wf(),
    ensures
        v.led_type == LedType::Apa102 ==> forall|i: int|
            0 <= i < v.len ==> #[trigger] slot(v.led_type, v.all_off().frame, i) == seq![
                255u8,
                0u8,
                0u8,
                0u8,
            ],
        v.led_type == LedType::Ws2801 ==> forall|i: int|
            0 <= i < v.len ==> #[trigger] slot(v.led_type, v.all_off().frame, i) == seq![
                0u8,
                0u8,
                0u8,
            ],
        v.led_type == LedType::Analog ==> v.all_off().duty == seq![0u16, 0u16, 0u16],
{
    let t = v.led_type;
    let blacks = Seq::new(v.len, |i: int| black());
    if t != LedType::Analog {
        lemma_with_pixels_slots(v, 0, blacks);
        assert forall|i: int| 0 <= i < v.len implies #[trigger] slot(t, v.all_off().frame, i)
            == encode(t, black()) by {
            assert(blacks[i] == black());
        }
        assert(encode(LedType::Apa102, black()) =~= seq![255u8, 0u8, 0u8, 0u8]);
        assert(encode(LedType::Ws2801, black()) =~= seq![0u8, 0u8, 0u8]);
    } else {
        assert(v.all_off().duty =~= seq![0u16, 0u16, 0u16]);
    }
}

/// A single-pixel write keeps the strip well formed and changes nothing
/// that turning the strip off would keep.
pub proof fn lemma_all_off_erases_write(v: LedsView, rgb: Pixel, index: int)
    requires
        v.wf(),
    ensures
        v.set_led(rgb, index).wf(),
        v.set_led(rgb, index).len == v.len,
        v.set_led(rgb, index).led_type == v.led_type,
        v.set_led(rgb, index).all_off() == v.all_off(),
{
    let t = v.led_type;
    let blacks = Seq::new(v.len, |i: int| black());
    if t != LedType::Analog && 0 <= index < v.len {
        let written = paint(t, v.frame, index, seq![rgb]);
        assert(paint(t, written, 0, blacks) =~= paint(t, v.frame, 0, blacks));
    }
}

/// Turning a strip off is idempotent.
pub proof fn lemma_all_off_idempotent(v: LedsView)
    requires
        v.wf(),
    ensures
        v.all_off().wf(),
        v.all_off().all_off() == v.all_off(),
{
    let t = v.led_type;
    let blacks = Seq::new(v.len, |i: int| black());
    if t != LedType::Analog {
        assert(paint(t, paint(t, v.frame, 0, blacks), 0, blacks) =~= paint(t, v.frame, 0, blacks));
    }
}

/// Round trip: a strip that is turned off, written to at any pixels in any
/// order, and turned off again holds exactly what it held when it was first
/// turned off. More generally, turning a strip off gives the same buffer
/// whatever was written to its pixels before.
pub proof fn lemma_all_off_erases_writes(v: LedsView, writes: Seq<(Pixel, int)>)
    requires
        v.wf(),
    ensures
        v.after_writes(writes).wf(),
        v.after_writes(writes).len == v.len,
        v.after_writes(writes).led_type == v.led_type,
        v.after_writes(writes).all_off() == v.all_off(),
        v.all_off().after_writes(writes).all_off() == v.all_off(),
    decreases writes.len(),
{
    lemma_all_off_idempotent(v);
    if writes.len() > 0 {
        let (rgb, index) = writes.last();
        lemma_all_off_erases_writes(v, writes.drop_last());
        lemma_all_off_erases_write(v.after_writes(writes.drop_last()), rgb, index);
        lemma_all_off_erases_writes(v.all_off(), writes.drop_last());
        lemma_all_off_erases_write(v.all_off().after_writes(writes.drop_last()), rgb, index);
    }
}

/// The places of a mirrored gradient and of a triangle wave stay within 8
/// bits.
proof fn lemma_places_in_range(phase: u8, index: int, len: nat)
    requires
        0 <= index < len || len == 0,
    ensures
        len >= 2 ==> 0 <= (gap(2 * index, len - 1) * 255) / (len - 1) <= 255,
        ({
            let span: int = if len <= 1 {
                1
            } else {
                len - 1
            };
            let at: int = if len <= 1 {
                0
            } else {
                index
            };
            let turn = 256 * span;
            let along = (256 * at + phase * span) % turn;
            0 <= (gap(2 * along, turn) * 255) / turn <= 255
        }),
{
    if len >= 2 {
        let span: int = len - 1;
        let off = gap(2 * index, span);
        assert(0 <= (off * 255) / span <= 255) by (nonlinear_arith)
            requires
                0 <= off <= span,
                span > 0,
        ;
    }
    let span: int = if len <= 1 {
        1
    } else {
        len - 1
    };
    let at: int = if len <= 1 {
        0
    } else {
        index
    };
    let turn = 256 * span;
    let along = (256 * at + phase * span) % turn;
    let off = gap(2 * along, turn);
    assert(0 <= (off * 255) / turn <= 255) by (nonlinear_arith)
        requires
            0 <= off <= turn,
            turn > 0,
    ;
}

/// At phase 0 a triangle wave is the mirrored gradient.
pub proof fn lemma_triangle_at_rest(start: PixelHsv, end: PixelHsv, index: int, len: nat)
    requires
        0 <= index < len,
    ensures
        triangle_place(0, index, len) == mirrored_place(index, len),
        triangle_color(start, end, 0, index, len) == dual_color(start, end, index, len),
{
    lemma_places_in_range(0, index, len);
    if len >= 2 {
        let span: int = len - 1;
        let turn = 256 * span;
        let off = gap(2 * index, span);
        if index < span {
            lemma_small_mod((256 * index) as nat, turn as nat);
            assert(gap(2 * (256 * index), turn) == 256 * off);
        } else {
            lemma_mod_self_0(turn);
            assert(gap(0, turn) == 256 * off);
        }
        assert((256 * index + 0 * span) % turn == (256 * index) % turn);
        // Both the distance and the turn are 256 times as long.
        let q = (off * 255) / span;
        let r = (off * 255) % span;
        lemma_fundamental_div_mod(off * 255, span);
        assert((256 * off) * 255 == q * turn + 256 * r) by (nonlinear_arith)
            requires
                off * 255 == span * q + r,
                turn == 256 * span,
        ;
        lemma_fundamental_div_mod_converse((256 * off) * 255, turn, q, 256 * r);
        let along = (256 * index + 0 * span) % turn;
        assert(gap(2 * along, turn) == 256 * off);
        assert((gap(2 * along, turn) * 255) / turn == q);
    } else {
        let turn: int = 256int * 1;
        let along = (256 * 0 + 0u8 * 1int) % turn;
        assert(along == 0);
        assert(gap(2 * along, turn) == 256);
        assert(gap(2 * along, turn) * 255 == 65280);
        assert(turn == 256);
        assert(65280int / 256 == 255);
    }
}

/// A gradient begins at `start` exactly and, on a strip of two pixels or
/// more, ends at `end` exactly. A mirrored gradient has `start` at both of
/// its ends.
pub proof fn lemma_gradient_endpoints(start: PixelHsv, end: PixelHsv, len: nat)
    requires
        1 <= len <= 1024,
    ensures
        gradient_color(start, end, 0, len) == hsv_to_rgb(start),
        len >= 2 ==> gradient_color(start, end, len - 1, len) == hsv_to_rgb(end),
        dual_color(start, end, 0, len) == hsv_to_rgb(start),
        len >= 2 ==> dual_color(start, end, len - 1, len) == hsv_to_rgb(start),
{
    if len >= 2 {
        assert(((len - 1) * 255) / (len - 1) as int == 255) by (nonlinear_arith)
            requires
                len >= 2,
        ;
        assert(gap(0, len - 1) == len - 1);
        assert(gap(2 * (len - 1), len - 1) == len - 1);
    }
    assert(position_spec(0, len) == 0);
    assert(mirrored_place(0, len) == 255);
    assert(len >= 2 ==> mirrored_place(len - 1, len) == 255);
    lemma_interp8_bounds(start.h as int, end.h as int, 0);
    lemma_interp8_bounds(start.s as int, end.s as int, 0);
    lemma_interp8_bounds(start.v as int, end.v as int, 0);
    lemma_interp8_bounds(start.h as int, end.h as int, 255);
    lemma_interp8_bounds(start.s as int, end.s as int, 255);
    lemma_interp8_bounds(start.v as int, end.v as int, 255);
    lemma_interp8_bounds(end.h as int, start.h as int, 255);
    lemma_interp8_bounds(end.s as int, start.s as int, 255);
    lemma_interp8_bounds(end.v as int, start.v as int, 255);
}

/// The middle pixel of a strip with an odd number of pixels lies at place
/// 127 of a gradient, half of the way along, rounded down, and at place 0
/// of a mirrored gradient. A gradient has there the colour half of the way
/// from `start` to `end`; a mirrored gradient has there `end` exactly.
pub proof fn lemma_gradient_middle(start: PixelHsv, end: PixelHsv, len: nat)
    requires
        3 <= len <= 1024,
        len % 2 == 1,
    ensures
        position_spec((len - 1) / 2, len) == 127,
        mirrored_place((len - 1) / 2, len) == 0,
        gradient_color(start, end, (len - 1) / 2, len) == hsv_to_rgb(
            hsv_interp_spec(start, end, 127),
        ),
        dual_color(start, end, (len - 1) / 2, len) == hsv_to_rgb(end),
{
    let half: int = (len - 1) / 2;
    assert(len - 1 == 2 * half);
    assert((half * 255) / (2 * half) == 127) by (nonlinear_arith)
        requires
            half >= 1,
    ;
    assert(position_spec(half, len) == 127);
    assert(gap(2 * half, len - 1) == 0);
    assert((0int * 255) / (len - 1) as int == 0);
    assert(mirrored_place(half, len) == 0);
    lemma_interp8_bounds(end.h as int, start.h as int, 0);
    lemma_interp8_bounds(end.s as int, start.s as int, 0);
    lemma_interp8_bounds(end.v as int, start.v as int, 0);
}

/// Half a turn on, a triangle wave has `end` where at rest it has `start`:
/// at the first pixel of a strip, and at the pixel of an analog output.
pub proof fn lemma_triangle_half_turn(start: PixelHsv, end: PixelHsv, len: nat)
    requires
        1 <= len <= 1024,
    ensures
        triangle_color(start, end, 0, 0, len) == hsv_to_rgb(start),
        triangle_color(start, end, 128, 0, len) == hsv_to_rgb(end),
{
    let span: int = if len <= 1 {
        1
    } else {
        len - 1
    };
    let turn = 256 * span;
    lemma_small_mod((128 * span) as nat, turn as nat);
    lemma_small_mod(0, turn as nat);
    assert((256 * 0 + 128 * span) % turn == 128 * span);
    assert(gap(2 * (128 * span), turn) == 0);
    assert((0int * 255) / turn == 0);
    assert(triangle_place(128, 0, len) == 0);
    assert(0int % turn == 0);
    assert(gap(0, turn) == turn);
    assert((turn * 255) / turn == 255) by (nonlinear_arith)
        requires
            turn > 0,
    ;
    assert(triangle_place(0, 0, len) == 255);
    lemma_interp8_bounds(end.h as int, start.h as int, 0);
    lemma_interp8_bounds(end.s as int, start.s as int, 0);
    lemma_interp8_bounds(end.v as int, start.v as int, 0);
    lemma_interp8_bounds(end.h as int, start.h as int, 255);
    lemma_interp8_bounds(end.s as int, start.s as int, 255);
    lemma_interp8_bounds(end.v as int, start.v as int, 255);
}

/// A strip of pixels with the buffer that encodes them.
pub struct Leds {
    led_type: LedType,
    len: usize,
    buf_end: usize,
    buffer: BufferType,
}

impl View for Leds {
    type V = LedsView;

    closed spec fn view(&self) -> LedsView {
        LedsView {
            led_type: self.led_type,
            len: self.len as nat,
            frame: match self.buffer {
                BufferType::Addressable(bytes) => bytes@,
                BufferType::Analog(_) => Seq::empty(),
            },
            duty: match self.buffer {
                BufferType::Addressable(_) => Seq::empty(),
                BufferType::Analog(duty) => duty@,
            },
        }
    }
}

/// Writes one clocked-RGB pixel at `at`.
fn set_array_apa102(led: &mut Vec<u8>, at: usize, rgb: Pixel)
    requires
        at + 4 <= old(led).len(),
    ensures
        final(led)@ == old(led)@.update(at as int, 255u8).update(at + 1, rgb.b).update(
            at + 2,
            rgb.g,
        ).update(at + 3, rgb.r),
{
    led[at] = 255;
    led[at + 1] = rgb.get_b();
    led[at + 2] = rgb.get_g();
    led[at + 3] = rgb.get_r();
}

/// Writes one single-wire pixel at `at`.
fn set_array_ws2801(led: &mut Vec<u8>, at: usize, rgb: Pixel)
    requires
        at + 3 <= old(led).len(),
    ensures
        final(led)@ == old(led)@.update(at as int, rgb.r).update(at + 1, rgb.g).update(
            at + 2,
            rgb.b,
        ),
{
    led[at] = rgb.get_r();
    led[at + 1] = rgb.get_g();
    led[at + 2] = rgb.get_b();
}

/// One 8-bit channel as a duty value.
fn duty_of(channel: u8) -> (duty: u16)
    ensures
        duty == channel as int * 256,
{
    let wide: u16 = channel as u16;
    assert(wide << 8 == wide * 256) by (bit_vector)
        requires
            wide < 256,
    ;
    wide << 8
}

/// Sets the duty values from an 8-bit colour.
fn set_array_analog8(led: &mut [u16; 3], rgb: Pixel)
    ensures
        final(led)@ == duty8(rgb),
{
    led[0] = duty_of(rgb.get_r());
    led[1] = duty_of(rgb.get_g());
    led[2] = duty_of(rgb.get_b());
    assert(led@ =~= duty8(rgb));
}

/// Sets the duty values from a 16-bit colour.
fn set_array_analog16(led: &mut [u16; 3], rgb: Pixel16)
    ensures
        final(led)@ == duty16(rgb),
{
    led[0] = rgb.get_r();
    led[1] = rgb.get_g();
    led[2] = rgb.get_b();
    assert(led@ =~= duty16(rgb));
}

impl Leds {
    /// The buffer is of the variant that the kind calls for, and the
    /// recorded size is its size.
    pub closed spec fn inv(&self) -> bool {
        &&& self.buf_end == buffer_len(self.led_type, self.len as nat)
        &&& (self.led_type == LedType::Analog <==> self.buffer is Analog)
    }

    /// The buffer matches the kind and the number of pixels.
    pub open spec fn wf(&self) -> bool {
        &&& self@.wf()
        &&& self.inv()
    }

    /// A strip of `led_count` pixels of the kind `led_type`, its buffer all
    /// zeros. An analog output has one pixel.
    pub fn new(led_count: usize, led_type: LedType) -> (leds: Self)
        requires
            led_count <= MAX_LEDS,
        ensures
            leds.wf(),
            leds@ == LedsView::blank(led_type, led_count as nat),
    {
        let buf_end: usize = match led_type {
            LedType::Apa102 => 4 + (led_count * 4) + ((led_count + 1) / 2),
            LedType::Ws2801 => led_count * 3,
            LedType::Analog => 3,
        };
        let leds = match led_type {
            LedType::Apa102 | LedType::Ws2801 => Self {
                led_type,
                len: led_count,
                buf_end,
                buffer: BufferType::Addressable(vec![0u8; buf_end]),
            },
            LedType::Analog => Self {
                led_type,
                len: 1,
                buf_end,
                buffer: BufferType::Analog([0u16;3]),
            },
        };
        assert(leds@.frame =~= LedsView::blank(led_type, led_count as nat).frame);
        assert(leds@.duty =~= LedsView::blank(led_type, led_count as nat).duty);
        leds
    }

    pub fn led_type(&self) -> (led_type: &LedType)
        ensures
            *led_type == self@.led_type,
    {
        &self.led_type
    }

    /// The number of pixels.
    pub fn len(&self) -> (len: usize)
        ensures
            len == self@.len,
    {
        self.len
    }

    /// The number of buffer entries in use.
    pub fn buf_end(&self) -> (end: usize)
        requires
            self.wf(),
        ensures
            end == buffer_len(self@.led_type, self@.len),
    {
        self.buf_end
    }

    /// The buffer, for the transport.
    pub fn buffer(&self) -> (buffer: &BufferType)
        requires
            self.wf(),
        ensures
            match *buffer {
                BufferType::Addressable(bytes) => self@.led_type != LedType::Analog && bytes@
                    == self@.frame,
                BufferType::Analog(duty) => self@.led_type == LedType::Analog && duty@
                    == self@.duty,
            },
    {
        &self.buffer
    }

    /// Gives pixel `index` the colour `rgb`. Without such a pixel nothing
    /// changes.
    pub fn set_led(&mut self, rgb: Pixel, index: usize)
        requires
            old(self).wf(),
        ensures
            final(self).wf(),
            final(self)@ == old(self)@.set_led(rgb, index as int),
    {
        if index >= self.len {
            return ;
        }
        match self.led_type {
            LedType::Apa102 => match &mut self.buffer {
                BufferType::Addressable(bytes) => {
                    set_array_apa102(bytes, 4 + 4 * index, rgb);
                },
                BufferType::Analog(_) => {},
            },
            LedType::Ws2801 => match &mut self.buffer {
                BufferType::Addressable(bytes) => {
                    set_array_ws2801(bytes, 3 * index, rgb);
                },
                BufferType::Analog(_) => {},
            },
            LedType::Analog => match &mut self.buffer {
                BufferType::Addressable(_) => {},
                BufferType::Analog(duty) => {
                    set_array_analog8(duty, rgb);
                },
            },
        }
        assert(self@.frame =~= old(self)@.set_led(rgb, index as int).frame);
    }

    /// Gives the pixel of an analog output the 16-bit colour `rgb`. An
    /// addressable strip has no 16-bit pixels and stays as it is.
    pub fn set_led16(&mut self, rgb: Pixel16, index: usize)
        requires
            old(self).wf(),
        ensures
            final(self).wf(),
            final(self)@ == old(self)@.set_led16(rgb, index as int),
    {
        if index >= self.len {
            return ;
        }
        match &mut self.buffer {
            BufferType::Addressable(_) => {},
            BufferType::Analog(duty) => {
                set_array_analog16(duty, rgb);
            },
        }
    }

    /// Paints pixel `i` once the pixels before it are painted.
    pub(crate) fn paint_next(
        &mut self,
        Ghost(before): Ghost<LedsView>,
        Ghost(colors): Ghost<Seq<Pixel>>,
        i: usize,
        rgb: Pixel,
    )
        requires
            old(self).wf(),
            before.wf(),
            i < colors.len() <= before.len,
            rgb == colors[i as int],
            old(self)@ == before.with_pixels(0, colors.take(i as int)),
        ensures
            final(self).wf(),
            final(self)@ == before.with_pixels(0, colors.take(i + 1)),
    {
        proof {
            lemma_with_pixels_extend(before, colors, i as int);
        }
        self.set_led(rgb, i);
    }

    /// Turns every pixel off. On a clocked strip the brightness byte of each
    /// pixel stays at 255.
    pub fn all_off(&mut self)
        requires
            old(self).wf(),
        ensures
            final(self).wf(),
            final(self)@ == old(self)@.all_off(),
    {
        let len: usize = self.len;
        let ghost before = self@;
        let ghost colors = Seq::new(len as nat, |i: int| black());
        proof {
            lemma_with_pixels_none(before, 0);
            assert(colors.take(0) =~= Seq::empty());
        }
        let mut i: usize = 0;
        while i < len
            invariant
                i <= len,
                before.wf(),
                before.len == len,
                colors == Seq::new(len as nat, |i: int| black()),
                self.wf(),
                self@ == before.with_pixels(0, colors.take(i as int)),
            decreases len - i,
        {
            self.paint_next(Ghost(before), Ghost(colors), i, Pixel::new(0, 0, 0));
            i += 1;
        }
        assert(colors.take(len as int) =~= colors);
    }

    /// Fills the strip with a gradient from `start`, at the first pixel, to
    /// `end`, at the last. A strip of one pixel takes `start`.
    pub fn fill_gradient(&mut self, start: &PixelHsv, end: &PixelHsv)
        requires
            old(self).wf(),
        ensures
            final(self).wf(),
            final(self)@ == old(self)@.with_pixels(
                0,
                gradient_colors(*start, *end, old(self)@.len),
            ),
    {
        let len: usize = self.len;
        let ghost before = self@;
        let ghost colors = gradient_colors(*start, *end, len as nat);
        proof {
            lemma_with_pixels_none(before, 0);
            assert(colors.take(0) =~= Seq::empty());
        }
        let mut i: usize = 0;
        while i < len
            invariant
                i <= len <= MAX_LEDS,
                before.wf(),
                before.len == len,
                colors == gradient_colors(*start, *end, len as nat),
                self.wf(),
                self@ == before.with_pixels(0, colors.take(i as int)),
            decreases len - i,
        {
            let pos: u8 = position(i, len);
            let rgb: Pixel = hsv_interp(start, end, pos).to_rgb();
            self.paint_next(Ghost(before), Ghost(colors), i, rgb);
            i += 1;
        }
        assert(colors.take(len as int) =~= colors);
    }

    /// Fills the strip with a mirrored gradient: `start` at both ends and
    /// `end` towards the middle.
    pub fn fill_gradient_dual(&mut self, start: &PixelHsv, end: &PixelHsv)
        requires
            old(self).wf(),
        ensures
            final(self).wf(),
            final(self)@ == old(self)@.with_pixels(0, dual_colors(*start, *end, old(self)@.len)),
    {
        let len: usize = self.len;
        let ghost before = self@;
        let ghost colors = dual_colors(*start, *end, len as nat);
        proof {
            lemma_with_pixels_none(before, 0);
            assert(colors.take(0) =~= Seq::empty());
        }
        let mut i: usize = 0;
        while i < len
            invariant
                i <= len <= MAX_LEDS,
                before.wf(),
                before.len == len,
                colors == dual_colors(*start, *end, len as nat),
                self.wf(),
                self@ == before.with_pixels(0, colors.take(i as int)),
            decreases len - i,
        {
            let pos_bipolar: u8 = mirrored_position(i, len);
            let rgb: Pixel = hsv_interp(end, start, pos_bipolar).to_rgb();
            self.paint_next(Ghost(before), Ghost(colors), i, rgb);
            i += 1;
        }
        assert(colors.take(len as int) =~= colors);
    }

    /// Fills the strip with the mirrored gradient moved along by `phase`,
    /// which counts in 256ths of a turn and wraps around the strip. The
    /// pixel of an analog output swings from `start`, at phase 0, to `end`,
    /// at phase 128, and back.
    pub fn fill_triangle(&mut self, start: &PixelHsv, end: &PixelHsv, phase: u8)
        requires
            old(self).wf(),
        ensures
            final(self).wf(),
            final(self)@ == old(self)@.with_pixels(
                0,
                triangle_colors(*start, *end, phase, old(self)@.len),
            ),
    {
        let len: usize = self.len;
        let ghost before = self@;
        let ghost colors = triangle_colors(*start, *end, phase, len as nat);
        proof {
            lemma_with_pixels_none(before, 0);
            assert(colors.take(0) =~= Seq::empty());
        }
        let mut i: usize = 0;
        while i < len
            invariant
                i <= len <= MAX_LEDS,
                before.wf(),
                before.len == len,
                colors == triangle_colors(*start, *end, phase, len as nat),
                self.wf(),
                self@ == before.with_pixels(0, colors.take(i as int)),
            decreases len - i,
        {
            let pos_triangle: u8 = triangle_position(phase, i, len);
            let rgb: Pixel = hsv_interp(end, start, pos_triangle).to_rgb();
            self.paint_next(Ghost(before), Ghost(colors), i, rgb);
            i += 1;
        }
        assert(colors.take(len as int) =~= colors);
    }

    /// Colours each pixel by the value of the sprite of the same index:
    /// `end` where the sprite is at 0, `start` where it is at 255. Pixels
    /// without a sprite keep their colour.
    pub fn fill_random(&mut self, start: &PixelHsv, end: &PixelHsv, sprites: &RandomSprites)
        requires
            old(self).wf(),
        ensures
            final(self).wf(),
            final(self)@ == old(self)@.with_pixels(
                0,
                random_colors(*start, *end, sprites@.sprites, old(self)@.len),
            ),
    {
        let values: &[RandomSprite] = sprites.get_sprites();
        let count: usize = if values.len() < self.len {
            values.len()
        } else {
            self.len
        };
        let ghost before = self@;
        let ghost colors = random_colors(*start, *end, values@, before.len);
        proof {
            lemma_with_pixels_none(before, 0);
            assert(colors.take(0) =~= Seq::empty());
        }
        let mut i: usize = 0;
        while i < count
            invariant
                i <= count,
                count == colors.len(),
                count <= values@.len(),
                before.wf(),
                colors == random_colors(*start, *end, values@, before.len),
                self.wf(),
                self@ == before.with_pixels(0, colors.take(i as int)),
            decreases count - i,
        {
            let rgb: Pixel = hsv_interp(end, start, values[i].get_value()).to_rgb();
            self.paint_next(Ghost(before), Ghost(colors), i, rgb);
            i += 1;
        }
        assert(colors.take(count as int) =~= colors);
    }
}

/// The place of pixel `index` on a strip of `len` pixels.
pub(crate) fn position(index: usize, len: usize) -> (pos: u8)
    requires
        index < len <= MAX_LEDS,
    ensures
        pos == position_spec(index as int, len as nat),
{
    if len <= 1 {
        0
    } else {
        assert((index * 255) / (len - 1) as int <= 255) by (nonlinear_arith)
            requires
                0 <= index <= len - 1,
                len - 1 > 0,
        ;
        ((index * 255) / (len - 1)) as u8
    }
}

/// The place of pixel `index` in a mirrored gradient over `len` pixels.
fn mirrored_position(index: usize, len: usize) -> (place: u8)
    requires
        index < len <= MAX_LEDS,
    ensures
        place == mirrored_place(index as int, len as nat),
{
    if len <= 1 {
        255
    } else {
        let span: u32 = (len - 1) as u32;
        let twice: u32 = 2 * (index as u32);
        let off: u32 = if twice >= span {
            twice - span
        } else {
            span - twice
        };
        proof {
            lemma_places_in_range(0, index as int, len as nat);
        }
        ((off * 255) / span) as u8
    }
}

/// The place of pixel `index` in a triangle wave at `phase` over `len`
/// pixels.
fn triangle_position(phase: u8, index: usize, len: usize) -> (place: u8)
    requires
        index < len <= MAX_LEDS,
    ensures
        place == triangle_place(phase, index as int, len as nat),
{
    let span: u32 = if len <= 1 {
        1
    } else {
        (len - 1) as u32
    };
    let at: u32 = if len <= 1 {
        0
    } else {
        index as u32
    };
    let turn: u32 = 256 * span;
    assert(phase * span <= 255 * 1023) by (nonlinear_arith)
        requires
            0 <= phase <= 255,
            0 <= span <= 1023,
    ;
    let along: u32 = (256 * at + (phase as u32) * span) % turn;
    let off: u32 = if 2 * along >= turn {
        2 * along - turn
    } else {
        turn - 2 * along
    };
    proof {
        lemma_places_in_range(phase, index as int, len as nat);
    }
    ((off * 255) / turn) as u8
}

} // verus!
