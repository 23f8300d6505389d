//! A paced sprite: an oscillator that moves one step towards its target each
//! time its timer runs out, and draws a new target and a new pace when it
//! has arrived.

use vstd::prelude::*;
use crate::prng::Prng;
use crate::scale::{lemma_scale8_bounds, scale8, u8_scale};
use crate::sprites::{draw, drawn_value};

verus! {

/// The shortest pace, in ticks for each step.
pub const PACE_MIN: u8 = 150;

/// The range of paces above the shortest.
pub const PACE_RANGE: u8 = 50;

/// What a paced sprite is, to its callers.
pub struct PacedView {
    /// Where the sprite is.
    pub value: u8,
    /// Where it is heading.
    pub target: u8,
    /// Values and targets range over `0..=scale`.
    pub scale: u8,
    /// The number of ticks that one step takes.
    pub step: u8,
    /// The ticks counted since the last step.
    pub timer: u8,
}

/// A drawn pace within `150..=200`.
pub open spec fn drawn_pace(byte: u8) -> u8 {
    (scale8(byte as int, 50) + 150) as u8
}

impl PacedView {
    /// The timer has not run out, the pace is one that is drawn, and value
    /// and target are within the scale.
    pub open spec fn wf(self) -> bool {
        &&& self.timer < self.step
        &&& 150 <= self.step <= 200
        &&& self.value <= self.scale
        &&& self.target <= self.scale
    }

    /// A new sprite, and the generator after the three draws that made it:
    /// value, target and pace, in that order.
    pub open spec fn spawn(scale: u8, seed: u64) -> (PacedView, u64) {
        let (first, seed1) = draw(seed);
        let (second, seed2) = draw(seed1);
        let (third, seed3) = draw(seed2);
        (
            PacedView {
                value: drawn_value(first, scale),
                target: drawn_value(second, scale),
                scale,
                step: drawn_pace(third),
                timer: 0,
            },
            seed3,
        )
    }

    /// One tick, and the generator after it. The timer counts; when it runs
    /// out, the sprite moves one step towards its target or, on its target,
    /// draws a new target and a new pace.
    pub open spec fn tick(self, seed: u64) -> (PacedView, u64) {
        if self.timer + 1 >= self.step {
            if self.value > self.target {
                (PacedView { value: (self.value - 1) as u8, timer: 0, ..self }, seed)
            } else if self.value < self.target {
                (PacedView { value: (self.value + 1) as u8, timer: 0, ..self }, seed)
            } else {
                let (first, seed1) = draw(seed);
                let (second, seed2) = draw(seed1);
                (
                    PacedView {
                        target: drawn_value(first, self.scale),
                        step: drawn_pace(second),
                        timer: 0,
                        ..self
                    },
                    seed2,
                )
            }
        } else {
            (PacedView { timer: (self.timer + 1) as u8, ..self }, seed)
        }
    }
}

/// A tick keeps the sprite well formed and moves its value by at most one
/// step, towards the target and never past it; target and pace change only
/// while the value rests on the target.
pub proof fn lemma_paced_tick(sprite: PacedView, seed: u64)
    requires
        sprite.wf(),
    ensures
        ({
            let (after, out) = sprite.tick(seed);
            &&& after.wf()
            &&& after.scale == sprite.scale
            &&& sprite.value <= sprite.target ==> sprite.value <= after.value <= sprite.target
            &&& sprite.value >= sprite.target ==> sprite.target <= after.value <= sprite.value
            &&& after.value - sprite.value <= 1
            &&& sprite.value - after.value <= 1
            &&& sprite.value != sprite.target ==> after.target == sprite.target && after.step
                == sprite.step && out == seed
        }),
{
    let (first, seed1) = draw(seed);
    let (second, seed2) = draw(seed1);
    lemma_scale8_bounds(first as int, sprite.scale as int);
    lemma_scale8_bounds(second as int, 50);
}

/// A paced sprite.
#[derive(Debug, Copy, Clone)]
pub struct RandomSprite {
    value: u8,
    target: u8,
    scale: u8,
    step: u8,
    timer: u8,
}

impl View for RandomSprite {
    type V = PacedView;

    closed spec fn view(&self) -> PacedView {
        PacedView {
            value: self.value,
            target: self.target,
            scale: self.scale,
            step: self.step,
            timer: self.timer,
        }
    }
}

/// Draws a pace.
fn draw_pace(rng: &mut Prng) -> (pace: u8)
    ensures
        pace == drawn_pace(draw(old(rng)@).0),
        150 <= pace <= 200,
        final(rng)@ == draw(old(rng)@).1,
{
    let byte: u8 = rng.rand_u8();
    proof {
        lemma_scale8_bounds(byte as int, 50);
    }
    u8_scale(byte, PACE_RANGE) + PACE_MIN
}

/// Draws a position within `0..=scale`.
fn draw_value(scale: u8, rng: &mut Prng) -> (value: u8)
    ensures
        value == drawn_value(draw(old(rng)@).0, scale),
        value <= scale,
        final(rng)@ == draw(old(rng)@).1,
{
    let byte: u8 = rng.rand_u8();
    u8_scale(byte, scale)
}

impl RandomSprite {
    /// The sprite is one that `new` and `run` produce.
    pub closed spec fn wf(&self) -> bool {
        self@.wf()
    }

    /// A sprite with a drawn value, target and pace.
    pub fn new(scale: u8, rng: &mut Prng) -> (sprite: Self)
        ensures
            sprite.wf(),
            sprite@ == PacedView::spawn(scale, old(rng)@).0,
            final(rng)@ == PacedView::spawn(scale, old(rng)@).1,
    {
        let value: u8 = draw_value(scale, rng);
        let target: u8 = draw_value(scale, rng);
        let step: u8 = draw_pace(rng);
        RandomSprite { value, target, scale, step, timer: 0 }
    }

    /// One tick.
    pub fn run(&mut self, rng: &mut Prng)
        requires
            old(self).wf(),
        ensures
            final(self).wf(),
            final(self)@ == old(self)@.tick(old(rng)@).0,
            final(rng)@ == old(self)@.tick(old(rng)@).1,
    {
        self.timer += 1;
        if self.timer >= self.step {
            if self.value > self.target {
                self.value -= 1;
                self.timer = 0;
            } else if self.value < self.target {
                self.value += 1;
                self.timer = 0;
            } else {
                self.target = draw_value(self.scale, rng);
                self.step = draw_pace(rng);
                self.timer = 0;
            }
        }
    }

    pub fn get_value(&self) -> (value: u8)
        ensures
            value == self@.value,
    {
        self.value
    }

    pub fn get_scale(&self) -> (scale: u8)
        ensures
            scale == self@.scale,
    {
        self.scale
    }
}

} // verus!
