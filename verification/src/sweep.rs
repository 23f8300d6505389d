//! Sweeping sprites: points of light that travel along a strip at a drawn
//! speed and turn round, with a newly drawn speed, at either end.

use vstd::prelude::*;
use crate::prng::{lcg_next, Prng};
use crate::scale::{lemma_scale8_bounds, scale8, u8_scale};
use crate::sprites::draw;

verus! {

/// One point of light.
#[derive(Debug, Copy, Clone, PartialEq, Eq, Structural)]
pub struct Sprite {
    /// Where along the strip the sprite is: 0 is the first pixel, 65535 the
    /// last.
    pub pos: u16,
    /// How fast its light fades with distance.
    pub falloff: u16,
    /// How far it travels in one unit of time, and which way.
    pub speed: i8,
}

/// One 16-bit draw: the low 16 bits drawn and the state of the generator
/// after it.
pub open spec fn draw16(seed: u64) -> (u16, u64) {
    let next = lcg_next(seed as int);
    ((next % 65536) as u16, next as u64)
}

/// A drawn speed: `speed_min` and a drawn part of `speed_range`, held to
/// 127.
pub open spec fn drawn_speed(byte: u8, speed_min: u8, speed_range: u8) -> int {
    let speed = speed_min + scale8(byte as int, speed_range as int);
    if speed > 127 {
        127
    } else {
        speed
    }
}

/// The time step as the sprites take it: its low byte, read as a signed
/// number.
pub open spec fn signed_step(dt: u32) -> int {
    if dt % 256 < 128 {
        (dt % 256) as int
    } else {
        dt % 256 - 256
    }
}

/// A new sprite, and the generator after the two draws that made it:
/// position, then speed.
pub open spec fn spawn(falloff: u16, speed_min: u8, speed_range: u8, seed: u64) -> (Sprite, u64) {
    let (pos, seed1) = draw16(seed);
    let (byte, seed2) = draw(seed1);
    (Sprite { pos, falloff, speed: drawn_speed(byte, speed_min, speed_range) as i8 }, seed2)
}

/// `count` new sprites, made one after another, and the generator after
/// them.
pub open spec fn spawn_all(
    count: nat,
    falloff: u16,
    speed_min: u8,
    speed_range: u8,
    seed: u64,
) -> (Seq<Sprite>, u64)
    decreases count,
{
    if count == 0 {
        (Seq::empty(), seed)
    } else {
        let (made, mid) = spawn_all((count - 1) as nat, falloff, speed_min, speed_range, seed);
        let (last, out) = spawn(falloff, speed_min, speed_range, mid);
        (made.push(last), out)
    }
}

/// One sprite after the time step `dt`, and the generator after it. The
/// sprite travels `dt * speed` and stops at the end of the strip; a sprite
/// that reaches an end draws a new speed, away from that end.
pub open spec fn tick(sprite: Sprite, dt: int, speed_min: u8, speed_range: u8, seed: u64) -> (
    Sprite,
    u64,
) {
    let travel = dt * sprite.speed;
    if travel >= 1 {
        if sprite.pos + travel >= 65535 {
            let (byte, seed1) = draw(seed);
            (
                Sprite {
                    pos: 65535,
                    speed: (-drawn_speed(byte, speed_min, speed_range)) as i8,
                    ..sprite
                },
                seed1,
            )
        } else {
            (Sprite { pos: (sprite.pos + travel) as u16, ..sprite }, seed)
        }
    } else if travel <= -1 {
        if sprite.pos + travel <= 0 {
            let (byte, seed1) = draw(seed);
            (
                Sprite { pos: 0, speed: drawn_speed(byte, speed_min, speed_range) as i8, ..sprite },
                seed1,
            )
        } else {
            (Sprite { pos: (sprite.pos + travel) as u16, ..sprite }, seed)
        }
    } else {
        (sprite, seed)
    }
}

/// Every sprite after the time step `dt`, first to last, and the generator
/// after them.
pub open spec fn tick_all(
    sprites: Seq<Sprite>,
    dt: int,
    speed_min: u8,
    speed_range: u8,
    seed: u64,
) -> (Seq<Sprite>, u64)
    decreases sprites.len(),
{
    if sprites.len() == 0 {
        (sprites, seed)
    } else {
        let (moved, mid) = tick_all(sprites.drop_last(), dt, speed_min, speed_range, seed);
        let (last, out) = tick(sprites.last(), dt, speed_min, speed_range, mid);
        (moved.push(last), out)
    }
}

/// What a group is, to its callers. Its speeds are drawn from
/// `speed_min ..= speed_min + speed_range`, both at least 1.
pub struct SpriteGroupView {
    pub sprites: Seq<Sprite>,
    pub speed_min: u8,
    pub speed_range: u8,
}

/// A group of `N` sweeping sprites.
pub struct SpriteGroup<const N: usize> {
    sprites: [Sprite; N],
    speed_min: u8,
    speed_range: u8,
}

impl<const N: usize> View for SpriteGroup<N> {
    type V = SpriteGroupView;

    closed spec fn view(&self) -> SpriteGroupView {
        SpriteGroupView {
            sprites: self.sprites@,
            speed_min: self.speed_min,
            speed_range: self.speed_range,
        }
    }
}

/// A bound of at least 1.
pub open spec fn at_least_one(bound: u8) -> u8 {
    if bound < 1 {
        1
    } else {
        bound
    }
}

/// Draws a speed, away from the first pixel.
fn draw_speed(speed_min: u8, speed_range: u8, rng: &mut Prng) -> (speed: i8)
    requires
        speed_min + speed_range <= 255,
    ensures
        speed == drawn_speed(draw(old(rng)@).0, speed_min, speed_range),
        speed_min <= 127 ==> speed_min <= speed,
        speed <= 127,
        final(rng)@ == draw(old(rng)@).1,
{
    let byte: u8 = rng.rand_u8();
    let speed_rand: u8 = u8_scale(byte, speed_range);
    let speed: u8 = speed_min + speed_rand;
    if speed > 127 {
        127
    } else {
        speed as i8
    }
}

impl<const N: usize> SpriteGroup<N> {
    /// A group that is well formed can travel for a time step of 0, 1 or
    /// -1.
    pub proof fn lemma_unit_step_can_travel(&self, dt: int)
        requires
            self.wf(),
            -1 <= dt <= 1,
        ensures
            self.can_travel(dt),
    {
        assert forall|i: int| 0 <= i < N implies -127 <= dt * (#[trigger] self@.sprites[i]).speed
            <= 127 by {
            let speed = self@.sprites[i].speed;
            assert(-127 <= dt * speed <= 127) by (nonlinear_arith)
                requires
                    -1 <= dt <= 1,
                    -127 <= speed <= 127,
            ;
        }
    }

    /// The bounds of the speeds are in order and no sprite is faster than
    /// 127 either way.
    pub open spec fn wf(&self) -> bool {
        &&& self@.sprites.len() == N
        &&& self@.speed_min >= 1
        &&& self@.speed_range >= 1
        &&& self@.speed_min + self@.speed_range <= 255
        &&& forall|i: int| 0 <= i < N ==> -127 <= (#[trigger] self@.sprites[i]).speed <= 127
    }

    /// Whether every sprite can travel for the time step `dt`: the distance
    /// that each travels, `dt` times its speed, fits in 8 bits either way.
    /// A step of 0, 1 or -1 always does.
    pub open spec fn can_travel(&self, dt: int) -> bool {
        forall|i: int| 0 <= i < N ==> -127 <= dt * (#[trigger] self@.sprites[i]).speed <= 127
    }

    /// A group of sprites with drawn positions and speeds. Bounds of 0 count
    /// as 1; together the bounds fit in 8 bits.
    pub fn new(falloff: u16, speed_min: u8, speed_range: u8, rng: &mut Prng) -> (group: Self)
        requires
            at_least_one(speed_min) + at_least_one(speed_range) <= 255,
        ensures
            group.wf(),
            group@ == (SpriteGroupView {
                sprites: spawn_all(
                    N as nat,
                    falloff,
                    at_least_one(speed_min),
                    at_least_one(speed_range),
                    old(rng)@,
                ).0,
                speed_min: at_least_one(speed_min),
                speed_range: at_least_one(speed_range),
            }),
            final(rng)@ == spawn_all(
                N as nat,
                falloff,
                at_least_one(speed_min),
                at_least_one(speed_range),
                old(rng)@,
            ).1,
    {
        let speed_min_clip: u8 = if speed_min < 1 {
            1
        } else {
            speed_min
        };
        let speed_range_clip: u8 = if speed_range < 1 {
            1
        } else {
            speed_range
        };
        let ghost seed = rng@;
        let mut sprites: [Sprite; N] = [Sprite { pos: 0, falloff, speed: 1 };N];
        let mut i: usize = 0;
        while i < N
            invariant
                i <= N,
                speed_min_clip == at_least_one(speed_min),
                speed_range_clip == at_least_one(speed_range),
                speed_min_clip + speed_range_clip <= 255,
                sprites@.take(i as int) == spawn_all(
                    i as nat,
                    falloff,
                    speed_min_clip,
                    speed_range_clip,
                    seed,
                ).0,
                rng@ == spawn_all(i as nat, falloff, speed_min_clip, speed_range_clip, seed).1,
                forall|j: int| 0 <= j < i ==> -127 <= (#[trigger] sprites@[j]).speed <= 127,
            decreases N - i,
        {
            let pos: u16 = rng.rand_u16();
            let speed: i8 = draw_speed(speed_min_clip, speed_range_clip, rng);
            let ghost earlier = sprites@;
            sprites[i] = Sprite { pos, falloff, speed };
            proof {
                assert(sprites@.take(i + 1) =~= earlier.take(i as int).push(sprites@[i as int]));
            }
            i += 1;
        }
        assert(sprites@.take(N as int) =~= sprites@);
        Self { sprites, speed_min: speed_min_clip, speed_range: speed_range_clip }
    }

    /// The sprites, first to last.
    pub fn sprites_iter(&self) -> (sprites: &[Sprite])
        ensures
            sprites@ == self@.sprites,
    {
        self.sprites.as_slice()
    }

    /// Moves every sprite by the time step `dt`, of which the low byte
    /// counts, as a signed number.
    pub fn run(&mut self, dt: u32, rng: &mut Prng)
        requires
            old(self).wf(),
            old(self).can_travel(signed_step(dt)),
        ensures
            final(self).wf(),
            final(self)@ == (SpriteGroupView {
                sprites: tick_all(
                    old(self)@.sprites,
                    signed_step(dt),
                    old(self)@.speed_min,
                    old(self)@.speed_range,
                    old(rng)@,
                ).0,
                ..old(self)@
            }),
            final(rng)@ == tick_all(
                old(self)@.sprites,
                signed_step(dt),
                old(self)@.speed_min,
                old(self)@.speed_range,
                old(rng)@,
            ).1,
    {
        let ghost seed = rng@;
        let ghost before = self.sprites@;
        let speed_min: u8 = self.speed_min;
        let speed_range: u8 = self.speed_range;
        let step: i8 = #[verifier::truncate]
        (dt as i8);
        assert(step == signed_step(dt)) by (bit_vector)
            requires
                step == dt as i8,
        ;
        let mut i: usize = 0;
        assert(before.take(0) =~= Seq::empty());
        while i < N
            invariant
                i <= N,
                before.len() == N,
                forall|j: int| 0 <= j < N ==> -127 <= step * (#[trigger] before[j]).speed <= 127,
                self.speed_min == speed_min,
                self.speed_range == speed_range,
                speed_min >= 1,
                speed_range >= 1,
                speed_min + speed_range <= 255,
                self.sprites@.take(i as int) == tick_all(
                    before.take(i as int),
                    step as int,
                    speed_min,
                    speed_range,
                    seed,
                ).0,
                rng@ == tick_all(before.take(i as int), step as int, speed_min, speed_range, seed).1,
                forall|j: int| i <= j < N ==> self.sprites@[j] == before[j],
                forall|j: int| 0 <= j < N ==> -127 <= (#[trigger] self.sprites@[j]).speed <= 127,
            decreases N - i,
        {
            let mut sprite: Sprite = self.sprites[i];
            assert(sprite == before[i as int]);
            let speed: i8 = step * sprite.speed;
            if speed >= 1 {
                sprite.pos = sprite.pos.saturating_add(speed as u16);
                if sprite.pos == u16::MAX {
                    sprite.speed = -draw_speed(speed_min, speed_range, rng);
                }
            }
            if speed <= -1 {
                sprite.pos = sprite.pos.saturating_sub((-speed) as u16);
                if sprite.pos == u16::MIN {
                    sprite.speed = draw_speed(speed_min, speed_range, rng);
                }
            }
            let ghost earlier = self.sprites@;
            self.sprites[i] = sprite;
            proof {
                assert(before.take(i + 1).drop_last() =~= before.take(i as int));
                assert(before.take(i + 1).last() == before[i as int]);
                assert(self.sprites@.take(i + 1) =~= earlier.take(i as int).push(sprite));
            }
            i += 1;
        }
        proof {
            assert(before.take(N as int) =~= before);
            assert(self.sprites@.take(N as int) =~= self.sprites@);
        }
    }
}

} // verus!
