//! Timing an ultrasonic echo: the counting rule of the sensor's two waits,
//! first for the echo to begin and then for it to end. The caller samples
//! the echo pin and waits a microsecond between samples; the counter
//! decides when a wait is over.

use vstd::prelude::*;

verus! {

/// The count after one more microsecond: it stops at the top of its range.
pub open spec fn counted(count: u16) -> u16 {
    if count == 65535 {
        65535
    } else {
        (count + 1) as u16
    }
}

/// A count of the microseconds that a wait has lasted, with the count at
/// which the wait is given up.
#[derive(Debug, Copy, Clone, PartialEq, Eq, Structural)]
pub struct PulseCounter {
    pub count: u16,
    pub timeout: u16,
}

impl PulseCounter {
    /// The counter after a sample. Only a sample that holds counts.
    pub open spec fn after(self, holds: Option<bool>) -> PulseCounter {
        if holds == Some(true) {
            PulseCounter { count: counted(self.count), ..self }
        } else {
            self
        }
    }

    /// Whether the wait goes on after a sample: the sample holds and the
    /// timeout is not reached.
    pub open spec fn goes_on(self, holds: Option<bool>) -> bool {
        holds == Some(true) && counted(self.count) < self.timeout
    }

    /// A counter at 0.
    pub fn new(timeout: u16) -> (counter: Self)
        ensures
            counter == (PulseCounter { count: 0, timeout }),
    {
        PulseCounter { count: 0, timeout }
    }

    /// Takes one sample of the level that is waited out: `Some(true)` while
    /// it holds, `Some(false)` once it is over, `None` where the pin could
    /// not be read. A sample that holds counts one microsecond. The wait
    /// goes on, and the result is `true`, while the level holds and the
    /// count is below the timeout.
    pub fn tick(&mut self, holds: Option<bool>) -> (goes_on: bool)
        ensures
            *final(self) == old(self).after(holds),
            goes_on == old(self).goes_on(holds),
    {
        match holds {
            Some(true) => {
                self.count = self.count.saturating_add(1);
                self.count < self.timeout
            },
            Some(false) => false,
            None => false,
        }
    }

    /// The microseconds counted.
    pub fn get_value(&self) -> (count: u16)
        ensures
            count == self.count,
    {
        self.count
    }
}

/// The counter after `samples` samples that hold, one after another.
pub open spec fn after_holding(counter: PulseCounter, samples: nat) -> PulseCounter
    decreases samples,
{
    if samples == 0 {
        counter
    } else {
        after_holding(counter, (samples - 1) as nat).after(Some(true))
    }
}

/// A wait ends: from 0, the count follows the samples that hold, and with
/// the sample that brings it to the timeout the wait is over. No wait
/// outlasts its timeout, and one without a timeout ends with its first
/// sample.
pub proof fn lemma_wait_ends(timeout: u16, samples: nat)
    requires
        samples <= 65535,
    ensures
        after_holding(PulseCounter { count: 0, timeout }, samples).count == samples,
        after_holding(PulseCounter { count: 0, timeout }, samples).timeout == timeout,
        samples + 1 >= timeout ==> !after_holding(
            PulseCounter { count: 0, timeout },
            samples,
        ).goes_on(Some(true)),
        samples + 1 < timeout ==> after_holding(PulseCounter { count: 0, timeout }, samples).goes_on(
            Some(true),
        ),
    decreases samples,
{
    if samples > 0 {
        lemma_wait_ends(timeout, (samples - 1) as nat);
    }
}

} // verus!
