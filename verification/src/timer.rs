//! The play clock: a count of ticks that only moves while it runs.

use vstd::prelude::*;

verus! {

/// A tick counter with a running flag.
#[derive(Clone, Copy, Debug)]
pub struct Timer {
    ticks: u64,
    running: bool,
}

/// What a `Timer` stands for in contracts.
pub struct TimerView {
    pub ticks: nat,
    pub running: bool,
}

impl TimerView {
    /// The timer at rest: no tick counted, not running.
    pub open spec fn zero() -> TimerView {
        TimerView { ticks: 0, running: false }
    }

    pub open spec fn started(self) -> TimerView {
        TimerView { running: true, ..self }
    }

    pub open spec fn stopped(self) -> TimerView {
        TimerView { running: false, ..self }
    }

    /// One frame later: a running timer has counted one more tick, unless
    /// its count has reached the largest number that it can hold.
    pub open spec fn ticked(self) -> TimerView {
        if self.running && self.ticks < u64::MAX {
            TimerView { ticks: self.ticks + 1, ..self }
        } else {
            self
        }
    }
}

impl View for Timer {
    type V = TimerView;

    closed spec fn view(&self) -> TimerView {
        TimerView { ticks: self.ticks as nat, running: self.running }
    }
}

impl Timer {
    pub fn new() -> (timer: Timer)
        ensures
            timer@ == TimerView::zero(),
    {
        Timer { ticks: 0, running: false }
    }

    /// Lets the timer run. The count stays.
    pub fn start(&mut self)
        ensures
            final(self)@ == old(self)@.started(),
    {
        self.running = true;
    }

    /// Freezes the timer. The count stays.
    pub fn stop(&mut self)
        ensures
            final(self)@ == old(self)@.stopped(),
    {
        self.running = false;
    }

    /// Counts one tick if the timer runs.
    pub fn update(&mut self)
        ensures
            final(self)@ == old(self)@.ticked(),
            final(self)@.ticks >= old(self)@.ticks,
    {
        if self.running && self.ticks < u64::MAX {
            self.ticks = self.ticks + 1;
        }
    }

    /// The ticks counted so far.
    pub fn get(&self) -> (ticks: u64)
        ensures
            ticks == self@.ticks,
    {
        self.ticks
    }

    pub fn is_running(&self) -> (running: bool)
        ensures
            running == self@.running,
    {
        self.running
    }
}

} // verus!
