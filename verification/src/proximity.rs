//! The proximity switch: a relay that goes on when the smoothed echo time
//! falls below a threshold, and off again once it has stayed above for a
//! hold time. Times are readings of a millisecond clock that wraps around.

use vstd::prelude::*;
use crate::clock::since;

verus! {

/// Whether the relay is on.
#[derive(Debug, Copy, Clone, PartialEq, Eq, Structural)]
pub enum MainState {
    Off,
    On,
}

/// The switch: its state, when something was last near, and its settings.
#[derive(Debug, Copy, Clone, PartialEq, Eq, Structural)]
pub struct ProximitySwitch {
    pub state: MainState,
    /// When a reading was last below the threshold.
    pub last_on: u32,
    /// A reading below the threshold counts as near.
    pub threshold: u16,
    /// How long the switch stays on after the last near reading.
    pub hold_time: u32,
}

impl ProximitySwitch {
    /// The switch after the reading `mean` at `millis`. A near reading
    /// switches on, and keeps on; a switch that is on goes off when the last
    /// near reading is `hold_time` ago.
    pub open spec fn after(self, millis: u32, mean: u16) -> ProximitySwitch {
        match self.state {
            MainState::Off => if mean < self.threshold {
                ProximitySwitch { state: MainState::On, last_on: millis, ..self }
            } else {
                self
            },
            MainState::On => {
                let last_on = if mean < self.threshold {
                    millis
                } else {
                    self.last_on
                };
                if since(millis, last_on) >= self.hold_time {
                    ProximitySwitch { state: MainState::Off, last_on, ..self }
                } else {
                    ProximitySwitch { last_on, ..self }
                }
            },
        }
    }

    /// A switch that is off.
    pub fn new(threshold: u16, hold_time: u32) -> (switch: Self)
        ensures
            switch == (ProximitySwitch {
                state: MainState::Off,
                last_on: 0,
                threshold,
                hold_time,
            }),
    {
        ProximitySwitch { state: MainState::Off, last_on: 0, threshold, hold_time }
    }

    /// Takes the reading `mean` at `millis`. Where the switch goes on or
    /// off, the result is its new state, for the caller to set the relay by.
    pub fn update(&mut self, millis: u32, mean: u16) -> (change: Option<MainState>)
        ensures
            *final(self) == old(self).after(millis, mean),
            change == if final(self).state == old(self).state {
                None
            } else {
                Some(final(self).state)
            },
    {
        match self.state {
            MainState::Off => {
                if mean < self.threshold {
                    self.last_on = millis;
                    self.state = MainState::On;
                    Some(MainState::On)
                } else {
                    None
                }
            },
            MainState::On => {
                if mean < self.threshold {
                    self.last_on = millis;
                }
                if millis.wrapping_sub(self.last_on) >= self.hold_time {
                    self.state = MainState::Off;
                    Some(MainState::Off)
                } else {
                    None
                }
            },
        }
    }
}

/// While readings stay near, a switch with a hold time stays on; and a
/// switch that is off stays off while nothing is near.
pub proof fn lemma_switch_holds(switch: ProximitySwitch, millis: u32, mean: u16)
    ensures
        mean < switch.threshold && switch.hold_time > 0 ==> switch.after(millis, mean).state
            == MainState::On,
        mean >= switch.threshold && switch.state == MainState::Off ==> switch.after(millis, mean)
            == switch,
{
}

} // verus!
