//! A linear congruential generator: deterministic, non-cryptographic, and
//! reproducible from its seed.

use vstd::prelude::*;
use vstd::arithmetic::div_mod::lemma_fundamental_div_mod;
use vstd::arithmetic::div_mod::lemma_mod_multiples_vanish;

verus! {

/// The multiplier `a` of the recurrence.
pub const LCG_MULTIPLIER: u64 = 1103515245;

/// The increment `c` of the recurrence.
pub const LCG_INCREMENT: u64 = 12345;

/// The modulus `m` of the recurrence, `2^31`.
pub const LCG_MODULUS: u64 = 2147483648;

/// One step of the recurrence: `(seed * a + c) mod m`.
pub open spec fn lcg_next(seed: int) -> int {
    (seed * 1103515245 + 12345) % 2147483648
}

/// The state that `draws` steps of the recurrence reach from `seed`; for
/// `draws >= 1` this is also the value that the last draw returned.
pub open spec fn lcg_nth(seed: int, draws: nat) -> int
    decreases draws,
{
    if draws == 0 {
        seed
    } else {
        lcg_next(lcg_nth(seed, (draws - 1) as nat))
    }
}

/// The generator. Its whole state is the current seed.
pub struct Prng {
    seed: u64,
}

impl View for Prng {
    type V = u64;

    closed spec fn view(&self) -> u64 {
        self.seed
    }
}

/// Reducing modulo `2^64` between the steps, as the wrapping machine
/// operations do, does not change the result modulo `2^31`.
proof fn lemma_wrapping_step(seed: u64)
    ensures
        u64::wrapping_add(u64::wrapping_mul(seed, 1103515245), 12345) % 2147483648 == lcg_next(
            seed as int,
        ),
{
    let product: int = seed as int * 1103515245;
    let range: int = 0x1_0000_0000_0000_0000;
    let low: int = product % range;
    let turns: int = product / range;
    lemma_fundamental_div_mod(product, range);
    assert(u64::wrapping_mul(seed, 1103515245) == low);
    let sum: int = low + 12345;
    let wrapped: int = u64::wrapping_add(low as u64, 12345) as int;
    let carry: int = if sum > u64::MAX { 1 } else { 0 };
    assert(wrapped == sum - range * carry);
    // product + c == wrapped + 2^31 * (2^33 * (turns + carry))
    let lifts: int = 0x2_0000_0000 * (turns + carry);
    assert(product + 12345 == 2147483648 * lifts + wrapped) by (nonlinear_arith)
        requires
            product == range * turns + low,
            wrapped == low + 12345 - range * carry,
            range == 0x1_0000_0000_0000_0000,
            lifts == 0x2_0000_0000 * (turns + carry),
    ;
    lemma_mod_multiples_vanish(lifts, wrapped, 2147483648);
}

impl Prng {
    /// A generator whose first draw steps from `seed`.
    pub fn new(seed: u64) -> (rng: Self)
        ensures
            rng@ == seed,
    {
        Prng { seed }
    }

    /// Steps the recurrence once and returns the new state.
    pub fn rand(&mut self) -> (out: u64)
        ensures
            final(self)@ == lcg_next(old(self)@ as int),
            out == final(self)@,
            out < 2147483648,
    {
        proof {
            lemma_wrapping_step(self.seed);
        }
        self.seed = self.seed.wrapping_mul(LCG_MULTIPLIER).wrapping_add(LCG_INCREMENT)
            % LCG_MODULUS;
        self.seed
    }

    /// Steps the recurrence once and returns the low byte of the new state:
    /// a draw normalised to `0..=255`.
    pub fn rand_u8(&mut self) -> (out: u8)
        ensures
            final(self)@ == lcg_next(old(self)@ as int),
            out == final(self)@ % 256,
    {
        let raw: u64 = self.rand();
        let low: u8 = #[verifier::truncate]
        (raw as u8);
        assert(low == raw % 256) by (bit_vector)
            requires
                low == raw as u8,
        ;
        low
    }

    /// Steps the recurrence once and returns the low 16 bits of the new
    /// state.
    pub fn rand_u16(&mut self) -> (out: u16)
        ensures
            final(self)@ == lcg_next(old(self)@ as int),
            out == final(self)@ % 65536,
    {
        let raw: u64 = self.rand();
        let low: u16 = #[verifier::truncate]
        (raw as u16);
        assert(low == raw % 65536) by (bit_vector)
            requires
                low == raw as u16,
        ;
        low
    }

    /// Draws `count` values, first to last: the states that one, two, and
    /// so on up to `count` steps of the recurrence reach from the state
    /// before the call.
    pub fn rand_many(&mut self, count: usize) -> (out: Vec<u64>)
        ensures
            out@.len() == count,
            forall|i: int|
                0 <= i < count ==> #[trigger] out@[i] == lcg_nth(old(self)@ as int, (i + 1) as nat),
            final(self)@ == lcg_nth(old(self)@ as int, count as nat),
    {
        let ghost seed = self@;
        let mut out: Vec<u64> = Vec::new();
        let mut drawn: usize = 0;
        while drawn < count
            invariant
                drawn <= count,
                out@.len() == drawn,
                forall|i: int|
                    0 <= i < drawn ==> #[trigger] out@[i] == lcg_nth(seed as int, (i + 1) as nat),
                self@ == lcg_nth(seed as int, drawn as nat),
            decreases count - drawn,
        {
            let value: u64 = self.rand();
            out.push(value);
            drawn += 1;
        }
        out
    }
}

/// Determinism: two generators in the same state draw the same values and
/// are in the same state again after any number of draws. By the contracts
/// of [`Prng::rand`] and [`Prng::rand_many`], draw number `draws` of a
/// generator is `lcg_nth` of its state and `draws`, which is also its state
/// after that draw.
pub proof fn lemma_same_seed_same_sequence(first: Prng, second: Prng, draws: nat)
    requires
        first@ == second@,
    ensures
        lcg_nth(first@ as int, draws) == lcg_nth(second@ as int, draws),
{
}

/// Draws add up: `later` draws after `earlier` draws reach the state that
/// `earlier + later` draws reach.
pub proof fn lemma_lcg_nth_adds(seed: int, earlier: nat, later: nat)
    ensures
        lcg_nth(lcg_nth(seed, earlier), later) == lcg_nth(seed, earlier + later),
    decreases later,
{
    if later > 0 {
        lemma_lcg_nth_adds(seed, earlier, (later - 1) as nat);
        assert((earlier + later - 1) as nat == earlier + (later - 1) as nat);
    }
}

/// Every state after the first draw, and so every value drawn, lies below
/// the modulus.
pub proof fn lemma_lcg_nth_below_modulus(seed: int, draws: nat)
    requires
        draws >= 1,
    ensures
        0 <= lcg_nth(seed, draws) < 2147483648,
{
}

} // verus!
