use vstd::prelude::*;

verus! {

/// The two CHIP-8 countdown timers and the flag that keeps the ticking
/// thread alive.
pub struct TimerState {
    pub delay_timer: u8,
    pub sound_timer: u8,
    pub running: bool,
}

/// The time between two ticks of the 60 Hz clock, in nanoseconds.
pub const TICK_INTERVAL_NS: u64 = 16_666_667;

/// One step of a 60 Hz countdown: down by one, never below zero.
pub open spec fn countdown(t: u8) -> u8 {
    if t > 0 { (t - 1) as u8 } else { 0 }
}

/// The timers after `n` ticks.
pub open spec fn after_ticks(t: TimerState, n: nat) -> TimerState
    decreases n,
{
    if n == 0 {
        t
    } else {
        let p = after_ticks(t, (n - 1) as nat);
        TimerState {
            delay_timer: countdown(p.delay_timer),
            sound_timer: countdown(p.sound_timer),
            running: p.running,
        }
    }
}

impl TimerState {
    /// Both timers at zero, running.
    pub fn new() -> (t: Self)
        ensures
            t.delay_timer == 0,
            t.sound_timer == 0,
            t.running,
    {
        TimerState { delay_timer: 0, sound_timer: 0, running: true }
    }

    /// One tick of the 60 Hz clock: each timer that is above zero goes down
    /// by one.
    pub fn tick(&mut self)
        ensures
            final(self).delay_timer == countdown(old(self).delay_timer),
            final(self).sound_timer == countdown(old(self).sound_timer),
            final(self).running == old(self).running,
    {
        let dt = self.delay_timer;
        if dt > 0 {
            self.delay_timer = dt - 1;
        }
        let st = self.sound_timer;
        if st > 0 {
            self.sound_timer = st - 1;
        }
    }

    /// One round of the ticking loop, with times counted in nanoseconds from
    /// a fixed start. Once `running` is cleared the loop stops (`None`) and
    /// nothing changes. Otherwise the deadline moves one interval on, the
    /// timers tick, and the result is the new deadline with the time to sleep
    /// until it: zero when it has already passed.
    pub fn tick_round(&mut self, next_tick_ns: u64, now_ns: u64) -> (r: Option<(u64, u64)>)
        requires
            next_tick_ns + TICK_INTERVAL_NS <= u64::MAX,
        ensures
            !old(self).running ==> r is None && *final(self) == *old(self),
            old(self).running ==> {
                let deadline = next_tick_ns + TICK_INTERVAL_NS;
                &&& r == Some(
                    (
                        deadline as u64,
                        if deadline > now_ns {
                            (deadline - now_ns) as u64
                        } else {
                            0u64
                        },
                    ),
                )
                &&& final(self).delay_timer == countdown(old(self).delay_timer)
                &&& final(self).sound_timer == countdown(old(self).sound_timer)
                &&& final(self).running
            },
    {
        if !self.running {
            return None;
        }
        let deadline = next_tick_ns + TICK_INTERVAL_NS;
        self.tick();
        let sleep = if deadline > now_ns {
            deadline - now_ns
        } else {
            0
        };
        Some((deadline, sleep))
    }
}

/// After `n` ticks each timer stands at its old value less `n`, and at zero
/// once that would go below zero; the running flag is untouched.
pub proof fn lemma_ticks_count_down(t: TimerState, n: nat)
    ensures
        after_ticks(t, n).delay_timer == (if t.delay_timer >= n { t.delay_timer - n } else { 0 }),
        after_ticks(t, n).sound_timer == (if t.sound_timer >= n { t.sound_timer - n } else { 0 }),
        after_ticks(t, n).running == t.running,
    decreases n,
{
    if n > 0 {
        lemma_ticks_count_down(t, (n - 1) as nat);
    }
}

} // verus!
