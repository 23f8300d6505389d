//! The step sequencer's rules: a grid of steps, the timer that walks along
//! it, and what the buttons do to it. The buttons are taken as samples: what
//! a debounced button reports at one moment.

use vstd::prelude::*;
use crate::clock::since;
use crate::colors::Pixel;
use crate::leds::{Leds, LedsView};

verus! {

/// The number of steps of a pattern.
pub const NUM_STEPS: usize = 32;

/// The number of channels, each with a pattern of its own.
pub const NUM_CHANNELS: usize = 8;

/// The number of step buttons: one page of a pattern.
pub const PAGE_STEPS: usize = 16;

/// One step of a pattern.
#[derive(Debug, Copy, Clone, PartialEq, Eq, Structural)]
pub struct Step {
    /// Whether the step sounds.
    pub gate: bool,
    /// How loud it sounds.
    pub vel: u8,
    /// Whether its note was switched on since the timer reached it.
    pub note_on_sent: bool,
    /// Whether its note was switched off again.
    pub note_off_sent: bool,
}

/// The grid of steps: a row of steps for each channel.
pub type Grid = [[Step; 32]; 8];

/// What a button reports at one moment.
#[derive(Debug, Copy, Clone, PartialEq, Eq, Structural)]
pub struct ButtonSample {
    /// The button is held down.
    pub state: bool,
    /// The button went down since the sample before.
    pub rising_edge: bool,
}

/// The velocity that velocity button `index` stands for.
pub open spec fn velocity_level_spec(index: int) -> u8 {
    if index == 0 {
        31
    } else if index == 1 {
        63
    } else if index == 2 {
        95
    } else {
        127
    }
}

/// The velocity that the held velocity buttons choose: that of the last
/// among those held, or none where none is held.
pub open spec fn held_velocity(velocities: Seq<ButtonSample>) -> Option<u8>
    decreases velocities.len(),
{
    if velocities.len() == 0 {
        None
    } else if velocities.last().state {
        Some(velocity_level_spec(velocities.len() - 1))
    } else {
        held_velocity(velocities.drop_last())
    }
}

/// What a step becomes when its button goes down: it takes the chosen
/// velocity or, where none is chosen, its gate flips.
pub open spec fn edited_step(step: Step, rising_edge: bool, velocity: Option<u8>) -> Step {
    if !rising_edge {
        step
    } else {
        match velocity {
            Some(vel) => Step { vel, ..step },
            None => Step { gate: !step.gate, ..step },
        }
    }
}

/// The channel that the channel buttons choose: that of the last button
/// that went down, or the current one where none did.
pub open spec fn selected_channel(channels: Seq<ButtonSample>, current: int) -> int
    decreases channels.len(),
{
    if channels.len() == 0 {
        current
    } else if channels.last().rising_edge {
        channels.len() - 1
    } else {
        selected_channel(channels.drop_last(), current)
    }
}

/// The grid after the step buttons of a page acted on the first `count`
/// steps of the page at `step_offset` of the channel `step_channel`.
pub open spec fn edited_grid(
    grid: Seq<Seq<Step>>,
    buttons: Seq<ButtonSample>,
    count: int,
    velocity: Option<u8>,
    step_offset: int,
    step_channel: int,
) -> Seq<Seq<Step>> {
    Seq::new(
        grid.len(),
        |c: int|
            Seq::new(
                grid[c].len(),
                |i: int|
                    if c == step_channel && step_offset <= i < step_offset + count {
                        edited_step(grid[c][i], buttons[i - step_offset].rising_edge, velocity)
                    } else {
                        grid[c][i]
                    },
            ),
    )
}

/// The steps of a grid, channel by channel.
pub open spec fn grid_view(grid: Grid) -> Seq<Seq<Step>> {
    Seq::new(8, |c: int| grid@[c]@)
}

/// The velocity of velocity button `index`.
fn velocity_level(index: usize) -> (level: u8)
    requires
        index < 4,
    ensures
        level == velocity_level_spec(index as int),
{
    if index == 0 {
        31
    } else if index == 1 {
        63
    } else if index == 2 {
        95
    } else {
        127
    }
}

/// The colour that shows a step on its button: a lit step by its velocity,
/// and the step under the cursor brighter. A lit step with a velocity that
/// no button stands for has no colour of its own.
pub open spec fn step_pixel_spec(step: Step, at_cursor: bool) -> Option<Pixel> {
    if step.gate {
        if at_cursor {
            Some(Pixel { r: 95, g: 31, b: 31 })
        } else if step.vel == 127 {
            Some(Pixel { r: 63, g: 0, b: 0 })
        } else if step.vel == 95 {
            Some(Pixel { r: 63, g: 63, b: 0 })
        } else if step.vel == 63 {
            Some(Pixel { r: 0, g: 63, b: 0 })
        } else if step.vel == 31 {
            Some(Pixel { r: 0, g: 0, b: 63 })
        } else {
            None
        }
    } else if at_cursor {
        Some(Pixel { r: 31, g: 31, b: 31 })
    } else {
        Some(Pixel { r: 0, g: 0, b: 0 })
    }
}

/// The colour to show a step in, where it has one; `at_cursor` tells
/// whether the running timer is at the step.
pub fn step_pixel(step: &Step, at_cursor: bool) -> (pixel: Option<Pixel>)
    ensures
        pixel == step_pixel_spec(*step, at_cursor),
{
    if step.gate {
        if at_cursor {
            Some(Pixel::new(95, 31, 31))
        } else {
            let mut pixel: Option<Pixel> = None;
            if step.vel == velocity_level(0) {
                pixel = Some(Pixel::new(0, 0, 63));
            }
            if step.vel == velocity_level(1) {
                pixel = Some(Pixel::new(0, 63, 0));
            }
            if step.vel == velocity_level(2) {
                pixel = Some(Pixel::new(63, 63, 0));
            }
            if step.vel == velocity_level(3) {
                pixel = Some(Pixel::new(63, 0, 0));
            }
            pixel
        }
    } else if at_cursor {
        Some(Pixel::new(31, 31, 31))
    } else {
        Some(Pixel::new(0, 0, 0))
    }
}

/// What a step sends at one moment.
#[derive(Debug, Copy, Clone, PartialEq, Eq, Structural)]
pub struct NoteEvents {
    /// The note begins, at the velocity of the step.
    pub note_on: bool,
    /// The note ends.
    pub note_off: bool,
}

impl Step {
    /// What the step under the cursor owes at one moment, where `started`
    /// tells whether the time for its note to begin has come and `ended`
    /// whether the time for it to end has. A step whose gate is shut owes
    /// nothing; an open one owes each event once.
    pub open spec fn owed(self, started: bool, ended: bool) -> NoteEvents {
        NoteEvents {
            note_on: self.gate && started && !self.note_on_sent,
            note_off: self.gate && ended && !self.note_off_sent,
        }
    }

    /// The step after it has sent `events`.
    pub open spec fn after_sending(self, events: NoteEvents) -> Step {
        Step {
            note_on_sent: self.note_on_sent || events.note_on,
            note_off_sent: self.note_off_sent || events.note_off,
            ..self
        }
    }

    /// Tells what the step under the cursor is to send now, and takes it as
    /// sent.
    pub fn play(&mut self, started: bool, ended: bool) -> (events: NoteEvents)
        ensures
            events == old(self).owed(started, ended),
            *final(self) == old(self).after_sending(events),
    {
        let mut events: NoteEvents = NoteEvents { note_on: false, note_off: false };
        if self.gate {
            if started && !self.note_on_sent {
                events.note_on = true;
                self.note_on_sent = true;
            }
            if ended && !self.note_off_sent {
                events.note_off = true;
                self.note_off_sent = true;
            }
        }
        events
    }

    /// Whether the note of the step sounds: it was begun and not ended.
    pub open spec fn sounds(self) -> bool {
        self.note_on_sent && !self.note_off_sent
    }

    /// Ends the note of the step if it sounds, and tells whether it did.
    pub fn release(&mut self) -> (released: bool)
        ensures
            released == old(self).sounds(),
            *final(self) == if released {
                Step { note_off_sent: true, ..*old(self) }
            } else {
                *old(self)
            },
    {
        if self.note_on_sent && !self.note_off_sent {
            self.note_off_sent = true;
            true
        } else {
            false
        }
    }
}

/// The lights after the first `count` steps of a page were shown: each
/// step that has a colour gives it to the light of its button.
pub open spec fn page_shown(
    lights: LedsView,
    row: Seq<Step>,
    step_offset: int,
    count: int,
    cursor: Option<usize>,
) -> LedsView
    decreases count,
{
    if count <= 0 {
        lights
    } else {
        let shown = page_shown(lights, row, step_offset, count - 1, cursor);
        let at = step_offset + count - 1;
        match step_pixel_spec(row[at], cursor == Some(at as usize)) {
            Some(pixel) => shown.set_led(pixel, count - 1),
            None => shown,
        }
    }
}

/// Shows the page at `step_offset` of a channel on the lights of the step
/// buttons. `cursor` is the step that a running timer is at.
pub fn show_page(
    leds: &mut Leds,
    steps: &Grid,
    step_offset: usize,
    step_channel: usize,
    cursor: Option<usize>,
)
    requires
        old(leds).wf(),
        step_channel < NUM_CHANNELS,
        step_offset + PAGE_STEPS <= NUM_STEPS,
    ensures
        final(leds).wf(),
        final(leds)@ == page_shown(
            old(leds)@,
            steps@[step_channel as int]@,
            step_offset as int,
            16,
            cursor,
        ),
{
    let row: &[Step; 32] = &steps[step_channel];
    let ghost before = leds@;
    let mut index: usize = 0;
    while index < 16
        invariant
            index <= 16,
            step_offset + 16 <= 32,
            leds.wf(),
            leds@ == page_shown(before, row@, step_offset as int, index as int, cursor),
        decreases 16 - index,
    {
        let actual_step: usize = index + step_offset;
        let at_cursor: bool = match cursor {
            Some(step) => step == actual_step,
            None => false,
        };
        match step_pixel(&row[actual_step], at_cursor) {
            Some(pixel) => {
                leds.set_led(pixel, index);
            },
            None => {},
        }
        index += 1;
    }
}

/// The sixteen step buttons of a page and the four velocity buttons.
pub struct StepButtonSet {
    pub steps: [ButtonSample; 16],
    pub velocities: [ButtonSample; 4],
}

impl StepButtonSet {
    /// Applies the buttons to the page at `step_offset` of the channel
    /// `step_channel`. While a velocity button is held, each step whose
    /// button went down takes that velocity; otherwise its gate flips.
    pub fn update_steps(&self, steps: &mut Grid, step_offset: usize, step_channel: usize)
        requires
            step_channel < NUM_CHANNELS,
            step_offset + PAGE_STEPS <= NUM_STEPS,
        ensures
            grid_view(*final(steps)) == edited_grid(
                grid_view(*old(steps)),
                self.steps@,
                16,
                held_velocity(self.velocities@),
                step_offset as int,
                step_channel as int,
            ),
    {
        let mut velocity: Option<u8> = None;
        let mut v: usize = 0;
        assert(self.velocities@.take(0) =~= Seq::empty());
        while v < 4
            invariant
                v <= 4,
                velocity == held_velocity(self.velocities@.take(v as int)),
            decreases 4 - v,
        {
            proof {
                assert(self.velocities@.take(v + 1).drop_last() =~= self.velocities@.take(v as int));
            }
            if self.velocities[v].state {
                velocity = Some(velocity_level(v));
            }
            v += 1;
        }
        assert(self.velocities@.take(4) =~= self.velocities@);

        let ghost before = grid_view(*steps);
        let mut k: usize = 0;
        assert(grid_view(*steps) =~~= edited_grid(
            before,
            self.steps@,
            0,
            velocity,
            step_offset as int,
            step_channel as int,
        ));
        while k < 16
            invariant
                k <= 16,
                step_channel < 8,
                step_offset + 16 <= 32,
                before.len() == 8,
                forall|c: int| 0 <= c < 8 ==> (#[trigger] before[c]).len() == 32,
                grid_view(*steps) == edited_grid(
                    before,
                    self.steps@,
                    k as int,
                    velocity,
                    step_offset as int,
                    step_channel as int,
                ),
            decreases 16 - k,
        {
            let ghost earlier = grid_view(*steps);
            if self.steps[k].rising_edge {
                let mut row: [Step; 32] = steps[step_channel];
                let mut step: Step = row[step_offset + k];
                match velocity {
                    Some(vel) => {
                        step.vel = vel;
                    },
                    None => {
                        step.gate = !step.gate;
                    },
                }
                row[step_offset + k] = step;
                steps[step_channel] = row;
            }
            proof {
                let goal = edited_grid(
                    before,
                    self.steps@,
                    k + 1,
                    velocity,
                    step_offset as int,
                    step_channel as int,
                );
                assert forall|c: int| 0 <= c < 8 implies #[trigger] grid_view(*steps)[c]
                    =~= goal[c] by {
                    assert(goal[c].len() == 32);
                    assert(earlier[c].len() == 32);
                    if c != step_channel || !self.steps@[k as int].rising_edge {
                        assert(grid_view(*steps)[c] == earlier[c]);
                    } else {
                        let at = step_offset + k;
                        assert(earlier[c][at] == before[c][at]);
                        assert(grid_view(*steps)[c] == earlier[c].update(
                            at,
                            edited_step(before[c][at], true, velocity),
                        ));
                    }
                }
                assert(grid_view(*steps) =~= goal);
            }
            k += 1;
        }
    }
}

/// The eight channel buttons.
pub struct ChannelButtonSet {
    pub channels: [ButtonSample; 8],
}

impl ChannelButtonSet {
    /// Moves to the channel of the last button that went down, if any did.
    pub fn update_channel(&self, step_channel: &mut usize)
        ensures
            *final(step_channel) == selected_channel(self.channels@, *old(step_channel) as int),
    {
        let mut k: usize = 0;
        assert(self.channels@.take(0) =~= Seq::empty());
        while k < 8
            invariant
                k <= 8,
                *step_channel == selected_channel(
                    self.channels@.take(k as int),
                    *old(step_channel) as int,
                ),
            decreases 8 - k,
        {
            proof {
                assert(self.channels@.take(k + 1).drop_last() =~= self.channels@.take(k as int));
            }
            if self.channels[k].rising_edge {
                *step_channel = k;
            }
            k += 1;
        }
        assert(self.channels@.take(8) =~= self.channels@);
    }
}

/// What a step timer is, to its callers.
pub struct StepTimerView {
    /// The number of steps that the timer walks through.
    pub num_steps: nat,
    /// The step that the timer is at.
    pub step: nat,
    /// The time spent in this step, as of the last poll.
    pub step_elapsed: u32,
    /// The time that a step lasts.
    pub time_per_step: u32,
    /// When this step began.
    pub last_step_time: u32,
    /// Whether the timer runs.
    pub run_state: bool,
}

impl StepTimerView {
    /// The timer has a step to be at.
    pub open spec fn wf(self) -> bool {
        &&& 0 < self.num_steps <= 32
        &&& self.step < self.num_steps
    }

    /// Whether a poll at `time` ends the step.
    pub open spec fn step_ends(self, time: u32) -> bool {
        self.run_state && since(time, self.last_step_time) >= self.time_per_step
    }

    /// The timer after a poll at `time`. A stopped timer stays as it is. A
    /// running one takes the time spent in its step; where that is a whole
    /// step, it moves to the next step, around the pattern, and begins it
    /// at `time`.
    pub open spec fn poll(self, time: u32) -> StepTimerView {
        if !self.run_state {
            self
        } else if self.step_ends(time) {
            StepTimerView {
                step: ((self.step as int + 1) % (self.num_steps as int)) as nat,
                step_elapsed: 0,
                last_step_time: time,
                ..self
            }
        } else {
            StepTimerView { step_elapsed: since(time, self.last_step_time), ..self }
        }
    }
}

/// The grid after the step `step` was left: on every channel the step is
/// ready to sound again.
pub open spec fn rearmed_grid(grid: Seq<Seq<Step>>, step: int) -> Seq<Seq<Step>> {
    Seq::new(
        grid.len(),
        |c: int|
            Seq::new(
                grid[c].len(),
                |i: int|
                    if i == step {
                        Step { note_on_sent: false, note_off_sent: false, ..grid[c][i] }
                    } else {
                        grid[c][i]
                    },
            ),
    )
}

/// The grid after the step `step` was left, on the first `count` channels.
pub open spec fn rearmed_rows(grid: Seq<Seq<Step>>, step: int, count: int) -> Seq<Seq<Step>> {
    Seq::new(
        grid.len(),
        |c: int|
            if c < count {
                rearmed_grid(grid, step)[c]
            } else {
                grid[c]
            },
    )
}

/// The timer that walks along a pattern, one step for each `time_per_step`.
pub struct StepTimer {
    num_steps: usize,
    step: usize,
    step_elapsed: u32,
    time_per_step: u32,
    last_step_time: u32,
    run_state: bool,
}

impl View for StepTimer {
    type V = StepTimerView;

    closed spec fn view(&self) -> StepTimerView {
        StepTimerView {
            num_steps: self.num_steps as nat,
            step: self.step as nat,
            step_elapsed: self.step_elapsed,
            time_per_step: self.time_per_step,
            last_step_time: self.last_step_time,
            run_state: self.run_state,
        }
    }
}

impl StepTimer {
    /// A stopped timer at step 0. It can be polled if it has steps to walk
    /// through, and no more than a pattern has.
    pub fn new(num_steps: usize, time_per_step: u32) -> (timer: Self)
        ensures
            timer@.wf() <==> 0 < num_steps <= NUM_STEPS,
            timer@ == (StepTimerView {
                num_steps: num_steps as nat,
                step: 0,
                step_elapsed: 0,
                time_per_step,
                last_step_time: 0,
                run_state: false,
            }),
    {
        StepTimer {
            num_steps,
            step: 0,
            step_elapsed: 0,
            time_per_step,
            last_step_time: 0,
            run_state: false,
        }
    }

    /// Starts the timer: the step it is at begins at `time`.
    pub fn start(&mut self, time: u32)
        ensures
            final(self)@ == (StepTimerView { run_state: true, last_step_time: time, ..old(self)@ }),
    {
        self.run_state = true;
        self.last_step_time = time;
    }

    /// Stops the timer and takes it back to step 0.
    pub fn stop(&mut self)
        ensures
            final(self)@ == (StepTimerView { run_state: false, step: 0, ..old(self)@ }),
    {
        self.step = 0;
        self.run_state = false;
    }

    pub fn get_step(&self) -> (step: usize)
        ensures
            step == self@.step,
    {
        self.step
    }

    /// The time spent in the step, as of the last poll. Over
    /// [`StepTimer::get_time_per_step`] it is the progress through the step.
    pub fn get_step_elapsed(&self) -> (step_elapsed: u32)
        ensures
            step_elapsed == self@.step_elapsed,
    {
        self.step_elapsed
    }

    pub fn get_time_per_step(&self) -> (time_per_step: u32)
        ensures
            time_per_step == self@.time_per_step,
    {
        self.time_per_step
    }

    pub fn get_run_state(&self) -> (run_state: bool)
        ensures
            run_state == self@.run_state,
    {
        self.run_state
    }

    /// Polls the timer at `time`. Where the step ends, it is made ready to
    /// sound again on every channel, and the timer moves on.
    pub fn poll(&mut self, time: u32, steps: &mut Grid)
        requires
            old(self)@.wf(),
        ensures
            final(self)@.wf(),
            final(self)@ == old(self)@.poll(time),
            grid_view(*final(steps)) == if old(self)@.step_ends(time) {
                rearmed_grid(grid_view(*old(steps)), old(self)@.step as int)
            } else {
                grid_view(*old(steps))
            },
    {
        if self.run_state {
            self.step_elapsed = time.wrapping_sub(self.last_step_time);

            if time.wrapping_sub(self.last_step_time) >= self.time_per_step {
                let ghost before = grid_view(*steps);
                let mut c: usize = 0;
                assert(grid_view(*steps) =~~= rearmed_rows(before, self.step as int, 0));
                while c < 8
                    invariant
                        c <= 8,
                        self.step < 32,
                        before.len() == 8,
                        forall|r: int| 0 <= r < 8 ==> (#[trigger] before[r]).len() == 32,
                        grid_view(*steps) == rearmed_rows(before, self.step as int, c as int),
                    decreases 8 - c,
                {
                    let ghost earlier = grid_view(*steps);
                    let mut row: [Step; 32] = steps[c];
                    let mut step: Step = row[self.step];
                    step.note_on_sent = false;
                    step.note_off_sent = false;
                    row[self.step] = step;
                    steps[c] = row;
                    proof {
                        let goal = rearmed_rows(before, self.step as int, c + 1);
                        assert forall|r: int| 0 <= r < 8 implies #[trigger] grid_view(*steps)[r]
                            =~= goal[r] by {
                            if r != c {
                                assert(grid_view(*steps)[r] == earlier[r]);
                            } else {
                                assert(earlier[r] == before[r]);
                                assert(grid_view(*steps)[r] == row@);
                                assert(row@ == earlier[r].update(self.step as int, step));
                                assert(goal[r] == rearmed_grid(before, self.step as int)[r]);
                                assert(goal[r].len() == 32);
                            }
                        }
                        assert(grid_view(*steps) =~= goal);
                    }
                    c += 1;
                }
                assert(rearmed_rows(before, self.step as int, 8) =~~= rearmed_grid(
                    before,
                    self.step as int,
                ));

                self.step = (self.step + 1) % self.num_steps;
                self.step_elapsed = 0;
                self.last_step_time = time;
            }
        }
    }
}

} // verus!
