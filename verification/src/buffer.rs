//! Ring buffers that smooth a stream of readings: each keeps the last
//! readings pushed, overwriting the oldest, and gives their mean.

use vstd::prelude::*;

verus! {

/// The sum of the entries of a sequence of integers.
pub open spec fn sum(values: Seq<int>) -> int
    decreases values.len(),
{
    if values.len() == 0 {
        0
    } else {
        sum(values.drop_last()) + values.last()
    }
}

/// The mean of the entries, rounded down.
pub open spec fn mean(values: Seq<int>) -> int {
    sum(values) / (values.len() as int)
}

/// A sum of entries within `0..=limit` is within `0..=limit * len`.
pub proof fn lemma_sum_bounds(values: Seq<int>, limit: int)
    requires
        forall|i: int| 0 <= i < values.len() ==> 0 <= #[trigger] values[i] <= limit,
    ensures
        0 <= sum(values) <= limit * values.len(),
    decreases values.len(),
{
    if values.len() > 0 {
        lemma_sum_bounds(values.drop_last(), limit);
        assert(limit * (values.len() - 1) + limit == limit * values.len()) by (nonlinear_arith);
    }
}

/// A mean of entries within `0..=limit` is within `0..=limit`.
pub proof fn lemma_mean_bounds(values: Seq<int>, limit: int)
    requires
        values.len() > 0,
        forall|i: int| 0 <= i < values.len() ==> 0 <= #[trigger] values[i] <= limit,
    ensures
        0 <= mean(values) <= limit,
{
    lemma_sum_bounds(values, limit);
    let total = sum(values);
    let len = values.len() as int;
    assert(0 <= total / len <= limit) by (nonlinear_arith)
        requires
            0 <= total <= limit * len,
            len > 0,
    ;
}

/// With entries that are not negative, the sum of the first `count` is
/// within the sum of all.
pub proof fn lemma_sum_prefix(values: Seq<int>, count: int)
    requires
        forall|i: int| 0 <= i < values.len() ==> 0 <= #[trigger] values[i],
        0 <= count <= values.len(),
    ensures
        0 <= sum(values.take(count)) <= sum(values),
    decreases values.len() - count,
{
    if count < values.len() {
        lemma_sum_prefix(values, count + 1);
        assert(values.take(count + 1).drop_last() =~= values.take(count));
        if count > 0 {
            lemma_sum_prefix_nonnegative(values.take(count));
        }
    } else {
        assert(values.take(count) =~= values);
        lemma_sum_prefix_nonnegative(values);
    }
}

/// A sum of entries that are not negative is not negative.
proof fn lemma_sum_prefix_nonnegative(values: Seq<int>)
    requires
        forall|i: int| 0 <= i < values.len() ==> 0 <= #[trigger] values[i],
    ensures
        0 <= sum(values),
    decreases values.len(),
{
    if values.len() > 0 {
        lemma_sum_prefix_nonnegative(values.drop_last());
    }
}

/// What a ring buffer is, to its callers: its slots and the slot that the
/// next reading goes to.
pub struct RingView {
    pub slots: Seq<int>,
    pub pos: nat,
}

impl RingView {
    /// The ring after a reading was pushed: it takes the slot at `pos`, and
    /// `pos` moves on, around the ring.
    pub open spec fn push(self, value: int) -> RingView {
        RingView {
            slots: self.slots.update(self.pos as int, value),
            pos: ((self.pos as int + 1) % (self.slots.len() as int)) as nat,
        }
    }

    /// A new ring of `len` slots: all 0.
    pub open spec fn zeroed(len: nat) -> RingView {
        RingView { slots: Seq::new(len, |i: int| 0int), pos: 0 }
    }
}

/// A ring of eight 8-bit readings.
pub struct RingBuffer8 {
    buffer: [u8; 8],
    pos: usize,
}

impl View for RingBuffer8 {
    type V = RingView;

    closed spec fn view(&self) -> RingView {
        RingView { slots: self.buffer@.map(|i: int, v: u8| v as int), pos: self.pos as nat }
    }
}

impl RingBuffer8 {
    /// The ring has its eight slots, and the next slot is one of them.
    pub open spec fn wf(&self) -> bool {
        &&& self@.slots.len() == 8
        &&& self@.pos < 8
    }

    /// Whatever a ring holds, it has eight slots, each with an 8-bit
    /// reading.
    pub proof fn lemma_shape(&self)
        ensures
            self@.slots.len() == 8,
            forall|k: int| 0 <= k < 8 ==> 0 <= #[trigger] self@.slots[k] <= 255,
    {
    }

    pub fn new() -> (ring: RingBuffer8)
        ensures
            ring.wf(),
            ring@ == RingView::zeroed(8),
    {
        let ring = RingBuffer8 { buffer: [0;8], pos: 0 };
        assert(ring@.slots =~= RingView::zeroed(8).slots);
        ring
    }

    /// Stores a reading over the oldest one.
    pub fn push(&mut self, value: u8)
        requires
            old(self).wf(),
        ensures
            final(self).wf(),
            final(self)@ == old(self)@.push(value as int),
    {
        self.buffer[self.pos] = value;
        self.pos = (self.pos + 1) % self.buffer.len();
        assert(self@.slots =~= old(self)@.push(value as int).slots);
    }

    /// The mean of the eight readings held, rounded down.
    pub fn mean(&mut self) -> (out: u8)
        ensures
            *final(self) == *old(self),
            old(self)@.slots.len() == 8,
            out == mean(old(self)@.slots),
    {
        let ghost slots = self@.slots;
        let mut total: u16 = 0;
        let mut i: usize = 0;
        while i < 8
            invariant
                i <= 8,
                slots == self@.slots,
                slots.len() == 8,
                total == sum(slots.take(i as int)),
                total <= 255 * i,
                *self == *old(self),
            decreases 8 - i,
        {
            proof {
                assert(slots.take(i + 1).drop_last() =~= slots.take(i as int));
            }
            total = total + self.buffer[i] as u16;
            i += 1;
        }
        assert(slots.take(8) =~= slots);
        proof {
            assert(total == sum(old(self)@.slots));
            lemma_mean_bounds(slots, 255);
        }
        (total / (self.buffer.len() as u16)) as u8
    }
}

/// A ring of `N` readings of type `T`. It is implemented for unsigned
/// readings of 8, 16 and 32 bits.
pub struct RingBuffer<T, const N: usize> {
    buffer: [T; N],
    pos: usize,
}

impl<const N: usize> View for RingBuffer<u8, N> {
    type V = RingView;

    closed spec fn view(&self) -> RingView {
        RingView { slots: self.buffer@.map(|i: int, v: u8| v as int), pos: self.pos as nat }
    }
}

impl<const N: usize> RingBuffer<u8, N> {
    /// The ring has its `N` slots, and the next slot is one of them, if
    /// the ring has any.
    pub open spec fn wf(&self) -> bool {
        &&& self@.slots.len() == N
        &&& (self@.pos < N || (N == 0 && self@.pos == 0))
    }

    /// Whatever a ring holds, it has `N` slots, each with a reading of
    /// 8 bits.
    pub proof fn lemma_shape(&self)
        ensures
            self@.slots.len() == N,
            forall|k: int| 0 <= k < N ==> 0 <= #[trigger] self@.slots[k] <= 255,
    {
    }

    pub fn new() -> (ring: Self)
        ensures
            ring.wf(),
            ring@ == RingView::zeroed(N as nat),
    {
        let ring = RingBuffer { buffer: [0u8;N], pos: 0 };
        assert(ring@.slots =~= RingView::zeroed(N as nat).slots);
        ring
    }

    /// Stores a reading over the oldest one.
    pub fn push(&mut self, value: u8)
        requires
            old(self).wf(),
            N > 0,
        ensures
            final(self).wf(),
            final(self)@ == old(self)@.push(value as int),
    {
        self.buffer[self.pos] = value;
        self.pos = (self.pos + 1) % self.buffer.len();
        assert(self@.slots =~= old(self)@.push(value as int).slots);
    }

    /// A ring of no more than 257 slots has a sum that fits in 16 bits,
    /// whatever it holds.
    pub proof fn lemma_sum_fits(&self)
        requires
            N <= 257,
        ensures
            sum(self@.slots) <= 65535,
    {
        lemma_sum_bounds(self@.slots, 255);
        assert(255 * self@.slots.len() <= 65535) by (nonlinear_arith)
            requires
                self@.slots.len() <= 257,
        ;
    }

    /// The mean of the readings held, rounded down. The ring has a slot,
    /// and both the number of its slots and the sum of its readings fit in
    /// 16 bits.
    pub fn mean(&mut self) -> (out: u8)
        requires
            0 < N <= 65535,
            sum(old(self)@.slots) <= 65535,
        ensures
            *final(self) == *old(self),
            old(self)@.slots.len() == N,
            out == mean(old(self)@.slots),
    {
        let ghost slots = self@.slots;
        let mut total: u16 = 0;
        let mut i: usize = 0;
        while i < N
            invariant
                i <= N,
                0 < N <= 65535,
                slots == self@.slots,
                slots.len() == N,
                forall|k: int| 0 <= k < N ==> 0 <= #[trigger] slots[k] <= 255,
                sum(slots) <= 65535,
                total == sum(slots.take(i as int)),
                *self == *old(self),
            decreases N - i,
        {
            proof {
                assert(slots.take(i + 1).drop_last() =~= slots.take(i as int));
                lemma_sum_prefix(slots, i + 1);
            }
            total = total + self.buffer[i] as u16;
            i += 1;
        }
        proof {
            assert(slots.take(N as int) =~= slots);
            assert(total == sum(old(self)@.slots));
            lemma_mean_bounds(slots, 255);
        }
        (total / (self.buffer.len() as u16)) as u8
    }
}

impl<const N: usize> View for RingBuffer<u16, N> {
    type V = RingView;

    closed spec fn view(&self) -> RingView {
        RingView { slots: self.buffer@.map(|i: int, v: u16| v as int), pos: self.pos as nat }
    }
}

impl<const N: usize> RingBuffer<u16, N> {
    /// The ring has its `N` slots, and the next slot is one of them, if
    /// the ring has any.
    pub open spec fn wf(&self) -> bool {
        &&& self@.slots.len() == N
        &&& (self@.pos < N || (N == 0 && self@.pos == 0))
    }

    /// Whatever a ring holds, it has `N` slots, each with a reading of
    /// 16 bits.
    pub proof fn lemma_shape(&self)
        ensures
            self@.slots.len() == N,
            forall|k: int| 0 <= k < N ==> 0 <= #[trigger] self@.slots[k] <= 65535,
    {
    }

    pub fn new() -> (ring: Self)
        ensures
            ring.wf(),
            ring@ == RingView::zeroed(N as nat),
    {
        let ring = RingBuffer { buffer: [0u16;N], pos: 0 };
        assert(ring@.slots =~= RingView::zeroed(N as nat).slots);
        ring
    }

    /// Stores a reading over the oldest one.
    pub fn push(&mut self, value: u16)
        requires
            old(self).wf(),
            N > 0,
        ensures
            final(self).wf(),
            final(self)@ == old(self)@.push(value as int),
    {
        self.buffer[self.pos] = value;
        self.pos = (self.pos + 1) % self.buffer.len();
        assert(self@.slots =~= old(self)@.push(value as int).slots);
    }

    /// A ring of no more than 65537 slots has a sum that fits in 32 bits,
    /// whatever it holds.
    pub proof fn lemma_sum_fits(&self)
        requires
            N <= 65537,
        ensures
            sum(self@.slots) <= 0xffff_ffff,
    {
        lemma_sum_bounds(self@.slots, 65535);
        assert(65535 * self@.slots.len() <= 0xffff_ffff) by (nonlinear_arith)
            requires
                self@.slots.len() <= 65537,
        ;
    }

    /// The mean of the readings held, rounded down. The ring has a slot,
    /// and both the number of its slots and the sum of its readings fit in
    /// 32 bits.
    pub fn mean(&mut self) -> (out: u16)
        requires
            0 < N <= 0xffff_ffff,
            sum(old(self)@.slots) <= 0xffff_ffff,
        ensures
            *final(self) == *old(self),
            old(self)@.slots.len() == N,
            out == mean(old(self)@.slots),
    {
        let ghost slots = self@.slots;
        let mut total: u32 = 0;
        let mut i: usize = 0;
        while i < N
            invariant
                i <= N,
                0 < N <= 0xffff_ffff,
                slots == self@.slots,
                slots.len() == N,
                forall|k: int| 0 <= k < N ==> 0 <= #[trigger] slots[k] <= 65535,
                sum(slots) <= 0xffff_ffff,
                total == sum(slots.take(i as int)),
                *self == *old(self),
            decreases N - i,
        {
            proof {
                assert(slots.take(i + 1).drop_last() =~= slots.take(i as int));
                lemma_sum_prefix(slots, i + 1);
            }
            total = total + self.buffer[i] as u32;
            i += 1;
        }
        proof {
            assert(slots.take(N as int) =~= slots);
            assert(total == sum(old(self)@.slots));
            lemma_mean_bounds(slots, 65535);
        }
        (total / (self.buffer.len() as u32)) as u16
    }
}

impl<const N: usize> View for RingBuffer<u32, N> {
    type V = RingView;

    closed spec fn view(&self) -> RingView {
        RingView { slots: self.buffer@.map(|i: int, v: u32| v as int), pos: self.pos as nat }
    }
}

impl<const N: usize> RingBuffer<u32, N> {
    /// The ring has its `N` slots, and the next slot is one of them, if
    /// the ring has any.
    pub open spec fn wf(&self) -> bool {
        &&& self@.slots.len() == N
        &&& (self@.pos < N || (N == 0 && self@.pos == 0))
    }

    /// Whatever a ring holds, it has `N` slots, each with a reading of
    /// 32 bits.
    pub proof fn lemma_shape(&self)
        ensures
            self@.slots.len() == N,
            forall|k: int| 0 <= k < N ==> 0 <= #[trigger] self@.slots[k] <= 0xffff_ffff,
    {
    }

    pub fn new() -> (ring: Self)
        ensures
            ring.wf(),
            ring@ == RingView::zeroed(N as nat),
    {
        let ring = RingBuffer { buffer: [0u32;N], pos: 0 };
        assert(ring@.slots =~= RingView::zeroed(N as nat).slots);
        ring
    }

    /// Stores a reading over the oldest one.
    pub fn push(&mut self, value: u32)
        requires
            old(self).wf(),
            N > 0,
        ensures
            final(self).wf(),
            final(self)@ == old(self)@.push(value as int),
    {
        self.buffer[self.pos] = value;
        self.pos = (self.pos + 1) % self.buffer.len();
        assert(self@.slots =~= old(self)@.push(value as int).slots);
    }

    /// A ring of no more than 0x1_0000_0001 slots has a sum that fits in 64 bits,
    /// whatever it holds.
    pub proof fn lemma_sum_fits(&self)
        requires
            N <= 0x1_0000_0001,
        ensures
            sum(self@.slots) <= 0xffff_ffff_ffff_ffff,
    {
        lemma_sum_bounds(self@.slots, 0xffff_ffff);
        assert(0xffff_ffff * self@.slots.len() <= 0xffff_ffff_ffff_ffff) by (nonlinear_arith)
            requires
                self@.slots.len() <= 0x1_0000_0001,
        ;
    }

    /// The mean of the readings held, rounded down. The ring has a slot,
    /// and both the number of its slots and the sum of its readings fit in
    /// 64 bits.
    pub fn mean(&mut self) -> (out: u32)
        requires
            0 < N <= 0xffff_ffff_ffff_ffff,
            sum(old(self)@.slots) <= 0xffff_ffff_ffff_ffff,
        ensures
            *final(self) == *old(self),
            old(self)@.slots.len() == N,
            out == mean(old(self)@.slots),
    {
        let ghost slots = self@.slots;
        let mut total: u64 = 0;
        let mut i: usize = 0;
        while i < N
            invariant
                i <= N,
                0 < N <= 0xffff_ffff_ffff_ffff,
                slots == self@.slots,
                slots.len() == N,
                forall|k: int| 0 <= k < N ==> 0 <= #[trigger] slots[k] <= 0xffff_ffff,
                sum(slots) <= 0xffff_ffff_ffff_ffff,
                total == sum(slots.take(i as int)),
                *self == *old(self),
            decreases N - i,
        {
            proof {
                assert(slots.take(i + 1).drop_last() =~= slots.take(i as int));
                lemma_sum_prefix(slots, i + 1);
            }
            total = total + self.buffer[i] as u64;
            i += 1;
        }
        proof {
            assert(slots.take(N as int) =~= slots);
            assert(total == sum(old(self)@.slots));
            lemma_mean_bounds(slots, 0xffff_ffff);
        }
        (total / (self.buffer.len() as u64)) as u32
    }
}

} // verus!
