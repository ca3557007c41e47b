//! The phase clock: pure arithmetic over wall-clock readings for one
//! countdown phase. Time is a monotonic reading in milliseconds; the clock
//! keeps the instant it started, how much paused time has accumulated, and
//! the start of the pause currently in progress, if any. From those and a
//! fresh reading it derives the elapsed and remaining seconds.

use vstd::prelude::*;

verus! {

/// Wall-clock bookkeeping for one countdown phase.
#[derive(Clone, Copy, Debug)]
pub struct PhaseClock {
    /// Reading (ms) at which the phase started.
    pub start_ms: u64,
    /// Paused time (ms) accumulated over pauses that have already ended.
    pub paused_accum_ms: u64,
    /// Reading (ms) at which the pause in progress began, if paused.
    pub pause_start_ms: Option<u64>,
}

impl PhaseClock {
    /// The clock's books are consistent with the reading `now_ms`: it started
    /// no later than now, a pause in progress began between start and now,
    /// and the accumulated paused time fits inside the span it was taken from.
    pub open spec fn wf(self, now_ms: u64) -> bool {
        &&& self.start_ms <= now_ms
        &&& match self.pause_start_ms {
            Some(ps) => {
                &&& self.start_ms <= ps <= now_ms
                &&& self.paused_accum_ms <= ps - self.start_ms
            },
            None => self.paused_accum_ms <= now_ms - self.start_ms,
        }
    }

    /// Milliseconds of running (non-paused) time since the phase started.
    pub open spec fn spec_elapsed_ms(self, now_ms: u64) -> int {
        let pause_now = match self.pause_start_ms {
            Some(ps) => now_ms - ps,
            None => 0,
        };
        now_ms - self.start_ms - self.paused_accum_ms - pause_now
    }

    /// Whole seconds of running time since the phase started.
    pub open spec fn spec_elapsed_secs(self, now_ms: u64) -> int {
        self.spec_elapsed_ms(now_ms) / 1000
    }

    /// Seconds left of a phase of `total_secs`, never below zero.
    pub open spec fn spec_remaining_secs(self, total_secs: u64, now_ms: u64) -> int {
        if self.spec_elapsed_secs(now_ms) >= total_secs {
            0
        } else {
            total_secs - self.spec_elapsed_secs(now_ms)
        }
    }

    /// Start the clock at reading `now_ms`: nothing elapsed, nothing paused.
    pub fn new(now_ms: u64) -> (c: PhaseClock)
        ensures
            c.wf(now_ms),
            c.pause_start_ms.is_none(),
            c.spec_elapsed_ms(now_ms) == 0,
            c.start_ms == now_ms,
    {
        PhaseClock { start_ms: now_ms, paused_accum_ms: 0, pause_start_ms: None }
    }

    /// The clock after absorbing the pause flag at reading `now_ms`.
    pub open spec fn spec_set_paused(self, paused: bool, now_ms: u64) -> PhaseClock {
        if paused {
            match self.pause_start_ms {
                Some(_) => self,
                None => PhaseClock { pause_start_ms: Some(now_ms), ..self },
            }
        } else {
            match self.pause_start_ms {
                Some(ps) => PhaseClock {
                    paused_accum_ms: (self.paused_accum_ms + (now_ms - ps)) as u64,
                    pause_start_ms: None,
                    ..self
                },
                None => self,
            }
        }
    }

    /// Bring the clock in line with the pause flag as the tick loop read it:
    /// on running to paused, record the pause start; on paused to running,
    /// bank the pause just ended. The elapsed time is unchanged at the instant
    /// of the transition, so a pause or resume never jumps the display.
    pub fn set_paused(&mut self, paused: bool, now_ms: u64)
        requires
            old(self).wf(now_ms),
        ensures
            *final(self) == old(self).spec_set_paused(paused, now_ms),
            final(self).wf(now_ms),
            final(self).pause_start_ms.is_some() == paused,
            final(self).spec_elapsed_ms(now_ms) == old(self).spec_elapsed_ms(now_ms),
            final(self).start_ms == old(self).start_ms,
    {
        if paused {
            if self.pause_start_ms.is_none() {
                self.pause_start_ms = Some(now_ms);
            }
        } else {
            if let Some(ps) = self.pause_start_ms {
                self.paused_accum_ms = self.paused_accum_ms + (now_ms - ps);
                self.pause_start_ms = None;
            }
        }
    }

    /// Whole seconds of running time, computed from a fresh reading.
    pub fn elapsed_secs(&self, now_ms: u64) -> (r: u64)
        requires
            self.wf(now_ms),
        ensures
            r == self.spec_elapsed_secs(now_ms),
    {
        let pause_now: u64 = match self.pause_start_ms {
            Some(ps) => now_ms - ps,
            None => 0,
        };
        (now_ms - self.start_ms - self.paused_accum_ms - pause_now) / 1000
    }

    /// Seconds left of a phase of `total_secs`. Saturates at zero, so the
    /// result is always within `[0, total_secs]`.
    pub fn remaining_secs(&self, total_secs: u64, now_ms: u64) -> (r: u64)
        requires
            self.wf(now_ms),
        ensures
            r == self.spec_remaining_secs(total_secs, now_ms),
            r <= total_secs,
    {
        total_secs.saturating_sub(self.elapsed_secs(now_ms))
    }
}

/// A well-formed clock stays well-formed as the reading moves forward.
pub proof fn lemma_wf_later(c: PhaseClock, now1_ms: u64, now2_ms: u64)
    requires
        c.wf(now1_ms),
        now1_ms <= now2_ms,
    ensures
        c.wf(now2_ms),
{
}

/// While the clock is running, elapsed time only grows with the reading, so
/// the remaining time is monotonically non-increasing in wall-clock time.
pub proof fn lemma_remaining_monotonic_running(c: PhaseClock, total_secs: u64, now1_ms: u64, now2_ms: u64)
    requires
        c.wf(now1_ms),
        c.pause_start_ms.is_none(),
        now1_ms <= now2_ms,
    ensures
        c.spec_elapsed_secs(now1_ms) <= c.spec_elapsed_secs(now2_ms),
        c.spec_remaining_secs(total_secs, now2_ms) <= c.spec_remaining_secs(total_secs, now1_ms),
{
    assert(c.spec_elapsed_ms(now1_ms) <= c.spec_elapsed_ms(now2_ms));
    vstd::arithmetic::div_mod::lemma_div_is_ordered(
        c.spec_elapsed_ms(now1_ms),
        c.spec_elapsed_ms(now2_ms),
        1000,
    );
}

/// While the clock is paused, elapsed time does not move at all, so the
/// remaining time is strictly constant.
pub proof fn lemma_remaining_constant_paused(c: PhaseClock, total_secs: u64, now1_ms: u64, now2_ms: u64)
    requires
        c.wf(now1_ms),
        c.pause_start_ms.is_some(),
        now1_ms <= now2_ms,
    ensures
        c.spec_elapsed_secs(now1_ms) == c.spec_elapsed_secs(now2_ms),
        c.spec_remaining_secs(total_secs, now1_ms) == c.spec_remaining_secs(total_secs, now2_ms),
{
}

/// Whether paused or running, the remaining time never increases as the
/// reading moves forward.
pub proof fn lemma_remaining_nonincreasing(c: PhaseClock, total_secs: u64, now1_ms: u64, now2_ms: u64)
    requires
        c.wf(now1_ms),
        now1_ms <= now2_ms,
    ensures
        c.spec_remaining_secs(total_secs, now2_ms) <= c.spec_remaining_secs(total_secs, now1_ms),
{
    if c.pause_start_ms.is_none() {
        lemma_remaining_monotonic_running(c, total_secs, now1_ms, now2_ms);
    } else {
        lemma_remaining_constant_paused(c, total_secs, now1_ms, now2_ms);
    }
}

/// A pause-flag write moves nothing: at the instant of the transition the
/// books stay consistent and the elapsed time is unchanged.
pub proof fn lemma_set_paused_keeps_elapsed(c: PhaseClock, paused: bool, now_ms: u64)
    requires
        c.wf(now_ms),
    ensures
        c.spec_set_paused(paused, now_ms).wf(now_ms),
        c.spec_set_paused(paused, now_ms).spec_elapsed_ms(now_ms) == c.spec_elapsed_ms(now_ms),
{
}

/// The clock after a sequence of pause-flag writes, each at its reading.
pub open spec fn spec_apply_pauses(c: PhaseClock, events: Seq<(u64, bool)>) -> PhaseClock
    decreases events.len(),
{
    if events.len() == 0 {
        c
    } else {
        spec_apply_pauses(c.spec_set_paused(events[0].1, events[0].0), events.drop_first())
    }
}

/// The readings of the events lie between `now1_ms` and `now2_ms` and never
/// move backward.
pub open spec fn events_between(events: Seq<(u64, bool)>, now1_ms: u64, now2_ms: u64) -> bool {
    &&& forall|i: int| 0 <= i < events.len() ==> now1_ms <= (#[trigger] events[i]).0 <= now2_ms
    &&& forall|i: int, j: int|
        0 <= i <= j < events.len() ==> (#[trigger] events[i]).0 <= (#[trigger] events[j]).0
}

/// Whatever sequence of pauses and resumes the listener writes between two
/// readings, the remaining time at the later reading is never more than it
/// was at the earlier one: the countdown never runs backward.
pub proof fn lemma_remaining_nonincreasing_across_pauses(
    c: PhaseClock,
    total_secs: u64,
    now1_ms: u64,
    events: Seq<(u64, bool)>,
    now2_ms: u64,
)
    requires
        c.wf(now1_ms),
        now1_ms <= now2_ms,
        events_between(events, now1_ms, now2_ms),
    ensures
        spec_apply_pauses(c, events).wf(now2_ms),
        spec_apply_pauses(c, events).spec_remaining_secs(total_secs, now2_ms)
            <= c.spec_remaining_secs(total_secs, now1_ms),
    decreases events.len(),
{
    if events.len() == 0 {
        lemma_wf_later(c, now1_ms, now2_ms);
        lemma_remaining_nonincreasing(c, total_secs, now1_ms, now2_ms);
    } else {
        let t = events[0].0;
        lemma_wf_later(c, now1_ms, t);
        lemma_remaining_nonincreasing(c, total_secs, now1_ms, t);
        let c1 = c.spec_set_paused(events[0].1, t);
        lemma_set_paused_keeps_elapsed(c, events[0].1, t);
        assert(forall|i: int|
            0 <= i < events.drop_first().len() ==> t <= (#[trigger] events.drop_first()[i]).0
                <= now2_ms);
        assert(forall|i: int, j: int|
            0 <= i <= j < events.drop_first().len() ==> (#[trigger] events.drop_first()[i]).0
                <= (#[trigger] events.drop_first()[j]).0);
        lemma_remaining_nonincreasing_across_pauses(
            c1,
            total_secs,
            t,
            events.drop_first(),
            now2_ms,
        );
    }
}

/// The remaining time never underflows: whatever the reading, it lies within
/// `[0, total_secs]`.
pub proof fn lemma_remaining_in_range(c: PhaseClock, total_secs: u64, now_ms: u64)
    requires
        c.wf(now_ms),
    ensures
        0 <= c.spec_remaining_secs(total_secs, now_ms) <= total_secs,
{
    vstd::arithmetic::div_mod::lemma_div_is_ordered(0, c.spec_elapsed_ms(now_ms), 1000);
}

} // verus!
