//! Readings of a free-running clock: the time between two of them, and
//! what is due once in a period. The clock counts in 32 bits and wraps
//! around.

use vstd::prelude::*;

verus! {

/// The time from `since` to `now` on a clock that wraps around at `2^32`.
pub open spec fn since(now: u32, since: u32) -> u32 {
    if now >= since {
        (now - since) as u32
    } else {
        (now - since + 0x1_0000_0000) as u32
    }
}

/// Something to do once in every `period`.
#[derive(Debug, Copy, Clone, PartialEq, Eq, Structural)]
pub struct Ticker {
    /// When it was last done.
    pub last: u32,
    /// The time from one doing to the next.
    pub period: u32,
}

impl Ticker {
    /// Whether it is due at `now`.
    pub open spec fn is_due(self, now: u32) -> bool {
        since(now, self.last) >= self.period
    }

    /// A ticker that counts from 0.
    pub fn new(period: u32) -> (ticker: Self)
        ensures
            ticker == (Ticker { last: 0, period }),
    {
        Ticker { last: 0, period }
    }

    /// Tells whether it is due at `now`, and if so takes `now` as the time
    /// it was last done.
    pub fn due(&mut self, now: u32) -> (due: bool)
        ensures
            due == old(self).is_due(now),
            *final(self) == if due {
                Ticker { last: now, ..*old(self) }
            } else {
                *old(self)
            },
    {
        if now.wrapping_sub(self.last) >= self.period {
            self.last = now;
            true
        } else {
            false
        }
    }
}

/// The time between two readings of a clock, whichever is the later.
pub fn frame_time(millis: u32, last_frame: u32) -> (dt: u32)
    ensures
        dt == if millis >= last_frame {
            millis - last_frame
        } else {
            last_frame - millis
        },
{
    if millis >= last_frame {
        millis - last_frame
    } else {
        last_frame - millis
    }
}

} // verus!
