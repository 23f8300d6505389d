//! The sprite drift simulator: a bank of scalar oscillators, each drifting
//! towards a target at its own rate and drawing a new target and rate when
//! it arrives. A sprite is a number, not a picture: its value adds organic
//! noise to an animation.

use vstd::prelude::*;
use crate::prng::{lcg_next, Prng};
use crate::scale::{lemma_scale8_bounds, scale8, u8_scale};

verus! {

/// The most sprites a bank can have: one for each pixel of the longest
/// strip.
pub const MAX_SPRITES: usize = 1024;

/// One oscillator, in 8-bit fixed point.
#[derive(Debug, Copy, Clone, PartialEq, Eq, Structural)]
pub struct RandomSprite {
    /// Where the sprite is.
    pub value: u8,
    /// Where it is heading.
    pub target: u8,
    /// How far it moves in one tick.
    pub step_size: u8,
}

/// A value moved towards `target` by `step_size`, or onto the target where
/// that is nearer.
pub open spec fn drifted(value: int, target: int, step_size: int) -> int {
    if value > target {
        if value - step_size > target {
            value - step_size
        } else {
            target
        }
    } else if value < target {
        if value + step_size < target {
            value + step_size
        } else {
            target
        }
    } else {
        value
    }
}

/// The distance between a value and its target.
pub open spec fn distance(value: int, target: int) -> int {
    if value >= target {
        value - target
    } else {
        target - value
    }
}

/// One draw: the byte drawn and the state of the generator after it.
pub open spec fn draw(seed: u64) -> (u8, u64) {
    let next = lcg_next(seed as int);
    ((next % 256) as u8, next as u64)
}

/// A drawn position within `0..=value_scale`.
pub open spec fn drawn_value(byte: u8, value_scale: u8) -> u8 {
    scale8(byte as int, value_scale as int) as u8
}

/// A drawn step within `1..=step_scale`: the floor of 1 keeps a sprite from
/// stalling.
pub open spec fn drawn_step(byte: u8, step_scale: u8) -> u8 {
    let step = scale8(byte as int, step_scale as int) as u8;
    if step < 1 {
        1
    } else {
        step
    }
}

/// A new sprite, and the generator after the three draws that made it:
/// value, target and step, in that order.
pub open spec fn spawn(value_scale: u8, step_scale: u8, seed: u64) -> (RandomSprite, u64) {
    let (first, seed1) = draw(seed);
    let (second, seed2) = draw(seed1);
    let (third, seed3) = draw(seed2);
    (
        RandomSprite {
            value: drawn_value(first, value_scale),
            target: drawn_value(second, value_scale),
            step_size: drawn_step(third, step_scale),
        },
        seed3,
    )
}

/// `count` new sprites, made one after another, and the generator after
/// them.
pub open spec fn spawn_all(count: nat, value_scale: u8, step_scale: u8, seed: u64) -> (
    Seq<RandomSprite>,
    u64,
)
    decreases count,
{
    if count == 0 {
        (Seq::empty(), seed)
    } else {
        let (made, mid) = spawn_all((count - 1) as nat, value_scale, step_scale, seed);
        let (last, out) = spawn(value_scale, step_scale, mid);
        (made.push(last), out)
    }
}

/// One tick of one sprite, and the generator after it. The sprite drifts;
/// where that brings it onto its target, and only there, it draws a new
/// target and a new step.
pub open spec fn tick(sprite: RandomSprite, value_scale: u8, step_scale: u8, seed: u64) -> (
    RandomSprite,
    u64,
) {
    let value = drifted(sprite.value as int, sprite.target as int, sprite.step_size as int) as u8;
    if value == sprite.target {
        let (first, seed1) = draw(seed);
        let (second, seed2) = draw(seed1);
        (
            RandomSprite {
                value,
                target: drawn_value(first, value_scale),
                step_size: drawn_step(second, step_scale),
            },
            seed2,
        )
    } else {
        (RandomSprite { value, ..sprite }, seed)
    }
}

/// One tick of every sprite, first to last, and the generator after it.
pub open spec fn tick_all(
    sprites: Seq<RandomSprite>,
    value_scale: u8,
    step_scale: u8,
    seed: u64,
) -> (Seq<RandomSprite>, u64)
    decreases sprites.len(),
{
    if sprites.len() == 0 {
        (sprites, seed)
    } else {
        let (moved, mid) = tick_all(sprites.drop_last(), value_scale, step_scale, seed);
        let (last, out) = tick(sprites.last(), value_scale, step_scale, mid);
        (moved.push(last), out)
    }
}

/// The largest step of a bank: the step scale, or the floor of 1 where the
/// scale is below it.
pub open spec fn step_limit(step_scale: u8) -> u8 {
    if step_scale < 1 {
        1
    } else {
        step_scale
    }
}

/// A sprite of a bank with these scales: value and target within the value
/// scale, and a step from the floor of 1 to the step scale.
pub open spec fn sprite_in_range(sprite: RandomSprite, value_scale: u8, step_scale: u8) -> bool {
    &&& sprite.value <= value_scale
    &&& sprite.target <= value_scale
    &&& 1 <= sprite.step_size <= step_limit(step_scale)
}

/// Drift is monotonic and bounded. A tick leaves the value between where it
/// was and its target, never past the target; the distance to the target
/// does not grow, and shrinks while it is not 0; a distance within one step
/// is closed exactly.
pub proof fn lemma_drift_monotonic(value: u8, target: u8, step_size: u8)
    requires
        step_size >= 1,
    ensures
        ({
            let after = drifted(value as int, target as int, step_size as int);
            &&& value <= target ==> value <= after <= target
            &&& value >= target ==> target <= after <= value
            &&& distance(after, target as int) <= distance(value as int, target as int)
            &&& value != target ==> distance(after, target as int) < distance(
                value as int,
                target as int,
            )
            &&& distance(value as int, target as int) <= step_size ==> after == target
            &&& after != target ==> distance(after, target as int) == distance(
                value as int,
                target as int,
            ) - step_size
        }),
{
}

/// A sprite keeps its target and its step until it has arrived: a tick
/// changes them only where it leaves the value exactly on the old target. A
/// sprite in range stays in range.
pub proof fn lemma_tick_retargets_on_arrival(
    sprite: RandomSprite,
    value_scale: u8,
    step_scale: u8,
    seed: u64,
)
    requires
        sprite_in_range(sprite, value_scale, step_scale),
    ensures
        ({
            let (after, out) = tick(sprite, value_scale, step_scale, seed);
            &&& after.value == drifted(
                sprite.value as int,
                sprite.target as int,
                sprite.step_size as int,
            )
            &&& after.value != sprite.target ==> after.target == sprite.target && after.step_size
                == sprite.step_size && out == seed
            &&& sprite_in_range(after, value_scale, step_scale)
        }),
{
    let (first, seed1) = draw(seed);
    let (second, seed2) = draw(seed1);
    lemma_scale8_bounds(first as int, value_scale as int);
    lemma_scale8_bounds(second as int, step_scale as int);
}

/// Every sprite of a new bank is in range: value and target within the
/// value scale, and the step from the floor of 1 to the step scale.
pub proof fn lemma_spawn_all_in_range(count: nat, value_scale: u8, step_scale: u8, seed: u64)
    ensures
        spawn_all(count, value_scale, step_scale, seed).0.len() == count,
        forall|i: int|
            0 <= i < count ==> sprite_in_range(
                #[trigger] spawn_all(count, value_scale, step_scale, seed).0[i],
                value_scale,
                step_scale,
            ),
    decreases count,
{
    if count > 0 {
        let (made, mid) = spawn_all((count - 1) as nat, value_scale, step_scale, seed);
        lemma_spawn_all_in_range((count - 1) as nat, value_scale, step_scale, seed);
        let (first, seed1) = draw(mid);
        let (second, seed2) = draw(seed1);
        let (third, seed3) = draw(seed2);
        lemma_scale8_bounds(first as int, value_scale as int);
        lemma_scale8_bounds(second as int, value_scale as int);
        lemma_scale8_bounds(third as int, step_scale as int);
    }
}

/// A tick keeps the number of sprites, and keeps every sprite in range:
/// a step that is drawn anew is again from the floor of 1 to the step
/// scale.
pub proof fn lemma_tick_all_in_range(
    sprites: Seq<RandomSprite>,
    value_scale: u8,
    step_scale: u8,
    seed: u64,
)
    requires
        forall|i: int| 0 <= i < sprites.len() ==> sprite_in_range(#[trigger] sprites[i], value_scale, step_scale),
    ensures
        tick_all(sprites, value_scale, step_scale, seed).0.len() == sprites.len(),
        forall|i: int|
            0 <= i < sprites.len() ==> sprite_in_range(
                #[trigger] tick_all(sprites, value_scale, step_scale, seed).0[i],
                value_scale,
                step_scale,
            ),
    decreases sprites.len(),
{
    if sprites.len() > 0 {
        let (moved, mid) = tick_all(sprites.drop_last(), value_scale, step_scale, seed);
        lemma_tick_all_in_range(sprites.drop_last(), value_scale, step_scale, seed);
        lemma_tick_retargets_on_arrival(sprites.last(), value_scale, step_scale, mid);
    }
}

/// The sprites after `ticks` ticks, and the generator after them.
pub open spec fn tick_many(
    sprites: Seq<RandomSprite>,
    value_scale: u8,
    step_scale: u8,
    seed: u64,
    ticks: nat,
) -> (Seq<RandomSprite>, u64)
    decreases ticks,
{
    if ticks == 0 {
        (sprites, seed)
    } else {
        let (earlier, mid) = tick_many(sprites, value_scale, step_scale, seed, (ticks - 1) as nat);
        tick_all(earlier, value_scale, step_scale, mid)
    }
}

/// However long a bank runs, it keeps its number of sprites and each of
/// them stays in range: its value and its target within the value scale,
/// its step from the floor of 1 to the step scale.
pub proof fn lemma_bank_stays_in_range(
    sprites: Seq<RandomSprite>,
    value_scale: u8,
    step_scale: u8,
    seed: u64,
    ticks: nat,
)
    requires
        forall|i: int| 0 <= i < sprites.len() ==> sprite_in_range(#[trigger] sprites[i], value_scale, step_scale),
    ensures
        tick_many(sprites, value_scale, step_scale, seed, ticks).0.len() == sprites.len(),
        forall|i: int|
            0 <= i < sprites.len() ==> sprite_in_range(
                #[trigger] tick_many(sprites, value_scale, step_scale, seed, ticks).0[i],
                value_scale,
                step_scale,
            ),
    decreases ticks,
{
    if ticks > 0 {
        let (earlier, mid) = tick_many(sprites, value_scale, step_scale, seed, (ticks - 1) as nat);
        lemma_bank_stays_in_range(sprites, value_scale, step_scale, seed, (ticks - 1) as nat);
        lemma_tick_all_in_range(earlier, value_scale, step_scale, mid);
    }
}

impl RandomSprite {
    /// A sprite at rest at 0.
    pub fn new() -> (sprite: Self)
        ensures
            sprite == (RandomSprite { value: 0, target: 0, step_size: 0 }),
    {
        Self { value: 0, target: 0, step_size: 0 }
    }

    pub fn get_value(&self) -> (value: u8)
        ensures
            value == self.value,
    {
        self.value
    }
}

/// What a bank is, to its callers.
pub struct RandomSpritesView {
    /// Values and targets range over `0..=value_scale`.
    pub value_scale: u8,
    /// Steps range over `1..=step_scale`.
    pub step_scale: u8,
    pub sprites: Seq<RandomSprite>,
}

/// A bank of sprites that share their scales.
pub struct RandomSprites {
    value_scale: u8,
    step_scale: u8,
    sprites: Vec<RandomSprite>,
}

impl View for RandomSprites {
    type V = RandomSpritesView;

    closed spec fn view(&self) -> RandomSpritesView {
        RandomSpritesView {
            value_scale: self.value_scale,
            step_scale: self.step_scale,
            sprites: self.sprites@,
        }
    }
}

/// Draws a position within `0..=value_scale`.
fn draw_value(value_scale: u8, rng: &mut Prng) -> (value: u8)
    ensures
        value == drawn_value(draw(old(rng)@).0, value_scale),
        final(rng)@ == draw(old(rng)@).1,
{
    let byte: u8 = rng.rand_u8();
    u8_scale(byte, value_scale)
}

/// Draws a step within `1..=step_scale`.
fn draw_step(step_scale: u8, rng: &mut Prng) -> (step: u8)
    ensures
        step == drawn_step(draw(old(rng)@).0, step_scale),
        final(rng)@ == draw(old(rng)@).1,
{
    let byte: u8 = rng.rand_u8();
    let step: u8 = u8_scale(byte, step_scale);
    if step < 1 {
        1
    } else {
        step
    }
}

impl RandomSprites {
    /// The bank is no larger than the longest strip and each of its sprites
    /// is in range.
    pub open spec fn wf(&self) -> bool {
        &&& self@.sprites.len() <= MAX_SPRITES
        &&& forall|i: int|
            0 <= i < self@.sprites.len() ==> sprite_in_range(
                #[trigger] self@.sprites[i],
                self@.value_scale,
                self@.step_scale,
            )
    }

    /// A bank of `len` sprites, each with a drawn value, target and step.
    pub fn new(len: usize, value_scale: u8, step_scale: u8, rng: &mut Prng) -> (bank: Self)
        requires
            len <= MAX_SPRITES,
        ensures
            bank.wf(),
            bank@ == (RandomSpritesView {
                value_scale,
                step_scale,
                sprites: spawn_all(len as nat, value_scale, step_scale, old(rng)@).0,
            }),
            final(rng)@ == spawn_all(len as nat, value_scale, step_scale, old(rng)@).1,
    {
        let ghost seed = rng@;
        let mut sprites: Vec<RandomSprite> = Vec::new();
        let mut i: usize = 0;
        while i < len
            invariant
                i <= len,
                sprites@ == spawn_all(i as nat, value_scale, step_scale, seed).0,
                rng@ == spawn_all(i as nat, value_scale, step_scale, seed).1,
            decreases len - i,
        {
            let value: u8 = draw_value(value_scale, rng);
            let target: u8 = draw_value(value_scale, rng);
            let step_size: u8 = draw_step(step_scale, rng);
            sprites.push(RandomSprite { value, target, step_size });
            i += 1;
        }
        proof {
            lemma_spawn_all_in_range(len as nat, value_scale, step_scale, seed);
        }
        RandomSprites { value_scale, step_scale, sprites }
    }

    /// One tick: every sprite drifts towards its target, and each that
    /// arrives draws a new target and step.
    pub fn run(&mut self, rng: &mut Prng)
        requires
            old(self).wf(),
        ensures
            final(self).wf(),
            final(self)@ == (RandomSpritesView {
                sprites: tick_all(
                    old(self)@.sprites,
                    old(self)@.value_scale,
                    old(self)@.step_scale,
                    old(rng)@,
                ).0,
                ..old(self)@
            }),
            final(rng)@ == tick_all(
                old(self)@.sprites,
                old(self)@.value_scale,
                old(self)@.step_scale,
                old(rng)@,
            ).1,
    {
        let ghost seed = rng@;
        let ghost before = self.sprites@;
        let value_scale: u8 = self.value_scale;
        let step_scale: u8 = self.step_scale;
        let len: usize = self.sprites.len();
        let mut i: usize = 0;
        assert(before.take(0) =~= Seq::empty());
        while i < len
            invariant
                i <= len,
                len == before.len(),
                self.sprites@.len() == len,
                self.value_scale == value_scale,
                self.step_scale == step_scale,
                self.sprites@.take(i as int) == tick_all(
                    before.take(i as int),
                    value_scale,
                    step_scale,
                    seed,
                ).0,
                rng@ == tick_all(before.take(i as int), value_scale, step_scale, seed).1,
                forall|j: int| i <= j < len ==> self.sprites@[j] == before[j],
            decreases len - i,
        {
            let mut sprite: RandomSprite = self.sprites[i];
            if sprite.value > sprite.target {
                let moved: u8 = sprite.value.saturating_sub(sprite.step_size);
                sprite.value = if moved > sprite.target {
                    moved
                } else {
                    sprite.target
                };
            } else if sprite.value < sprite.target {
                let moved: u8 = sprite.value.saturating_add(sprite.step_size);
                sprite.value = if moved < sprite.target {
                    moved
                } else {
                    sprite.target
                };
            }
            if sprite.value == sprite.target {
                sprite.target = draw_value(value_scale, rng);
                sprite.step_size = draw_step(step_scale, rng);
            }
            let ghost earlier = self.sprites@;
            self.sprites[i] = sprite;
            proof {
                assert(before.take(i + 1).drop_last() =~= before.take(i as int));
                assert(before.take(i + 1).last() == before[i as int]);
                assert(self.sprites@.take(i + 1) =~= earlier.take(i as int).push(sprite));
            }
            i += 1;
        }
        proof {
            assert(before.take(len as int) =~= before);
            assert(self.sprites@.take(len as int) =~= self.sprites@);
            lemma_tick_all_in_range(before, value_scale, step_scale, seed);
        }
    }

    /// The sprites, first to last.
    pub fn get_sprites(&self) -> (sprites: &[RandomSprite])
        ensures
            sprites@ == self@.sprites,
    {
        self.sprites.as_slice()
    }
}

} // verus!
