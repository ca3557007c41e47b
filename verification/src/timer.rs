//! The timer engine's decision logic for one countdown phase. The real loop
//! around it sleeps, reads the terminal and redraws; everything it decides —
//! how a keypress becomes a signal, which signal wins a tick, when the phase
//! ends and whether the terminal surface is released — is here, as pure
//! functions over the signals and clock readings the loop hands in.

use vstd::prelude::*;
use crate::clock::PhaseClock;

verus! {

/// What kind of phase the timer is counting down.
#[derive(Debug, Clone, Copy, PartialEq, Eq, Structural)]
pub enum TimerContext {
    Standalone,
    Work,
    Break,
}

/// How one timer phase ended.
#[derive(Debug, Clone, Copy, PartialEq, Eq, Structural)]
pub enum TimerOutcome {
    Completed,
    Skipped,
    StoppedEarly,
    Quit,
}

/// A keypress the input listener recognizes, already decoded from the raw
/// terminal event by the caller.
#[derive(Debug, Clone, Copy, PartialEq, Eq, Structural)]
pub enum Key {
    TogglePause,
    QuitCombo,
    Skip,
    Stop,
    AddRound,
    DropRound,
}

/// What the listener does in reaction to one keypress.
#[derive(Debug, Clone, Copy, PartialEq, Eq, Structural)]
pub enum ListenerEffect {
    /// The key is not legal here; nothing happens.
    Ignore,
    /// Flip the pause flag.
    TogglePause,
    /// Set the quit flag and stop listening.
    SignalQuit,
    /// Set the skip flag and stop listening.
    SignalSkip,
    /// Set the stop flag and stop listening.
    SignalStop,
    /// Raise the shared round target by one.
    RaiseTarget,
    /// Lower the shared round target by one, floored at the current round.
    LowerTarget,
}

/// Whether the skip key is live: it is ignored only on the work phase of the
/// session's final round, where there is nothing left to skip to.
pub open spec fn spec_skip_allowed(
    context: TimerContext,
    round_info: Option<(u32, u32)>,
) -> bool {
    !(context == TimerContext::Work && match round_info {
        Some(ri) => ri.0 >= ri.1,
        None => false,
    })
}

/// The listener's reaction to one keypress. `round_info` is the current round
/// and the round target as just read from the shared counter.
pub open spec fn spec_listener_effect(
    key: Key,
    context: TimerContext,
    round_info: Option<(u32, u32)>,
) -> ListenerEffect {
    match key {
        Key::TogglePause => ListenerEffect::TogglePause,
        Key::QuitCombo => ListenerEffect::SignalQuit,
        Key::Stop => ListenerEffect::SignalStop,
        Key::Skip => if spec_skip_allowed(context, round_info) {
            ListenerEffect::SignalSkip
        } else {
            ListenerEffect::Ignore
        },
        Key::AddRound => if (context == TimerContext::Work || context == TimerContext::Break)
            && round_info.is_some() {
            ListenerEffect::RaiseTarget
        } else {
            ListenerEffect::Ignore
        },
        Key::DropRound => if (context == TimerContext::Work || context == TimerContext::Break)
            && round_info.is_some() {
            ListenerEffect::LowerTarget
        } else {
            ListenerEffect::Ignore
        },
    }
}

/// Decide what one keypress does: pause always toggles, quit and stop always
/// fire, skip fires unless the phase is the work phase of the final round,
/// and the round keys act only inside a session's work or break phase.
pub fn listener_effect(key: Key, context: TimerContext, round_info: Option<(u32, u32)>) -> (r:
    ListenerEffect)
    ensures
        r == spec_listener_effect(key, context, round_info),
{
    match key {
        Key::TogglePause => ListenerEffect::TogglePause,
        Key::QuitCombo => ListenerEffect::SignalQuit,
        Key::Stop => ListenerEffect::SignalStop,
        Key::Skip => {
            let is_final_work = context == TimerContext::Work && match round_info {
                Some((current, target)) => current >= target,
                None => false,
            };
            if is_final_work {
                ListenerEffect::Ignore
            } else {
                ListenerEffect::SignalSkip
            }
        },
        Key::AddRound => {
            if (context == TimerContext::Work || context == TimerContext::Break)
                && round_info.is_some() {
                ListenerEffect::RaiseTarget
            } else {
                ListenerEffect::Ignore
            }
        },
        Key::DropRound => {
            if (context == TimerContext::Work || context == TimerContext::Break)
                && round_info.is_some() {
                ListenerEffect::LowerTarget
            } else {
                ListenerEffect::Ignore
            }
        },
    }
}

/// On the work phase of the final round — the current round at or past the
/// target — the skip key does nothing at all.
pub proof fn lemma_skip_ignored_on_final_work(current: u32, target: u32)
    requires
        current >= target,
    ensures
        spec_listener_effect(Key::Skip, TimerContext::Work, Some((current, target)))
            == ListenerEffect::Ignore,
{
}

/// On any phase of an earlier round, and on any break phase, the skip key
/// signals a skip.
pub proof fn lemma_skip_live_elsewhere(context: TimerContext, current: u32, target: u32)
    requires
        context == TimerContext::Break || current < target,
    ensures
        spec_listener_effect(Key::Skip, context, Some((current, target)))
            == ListenerEffect::SignalSkip,
{
}

/// What the engine's tick loop decides to do after one look at the signals.
#[derive(Debug, Clone, Copy, PartialEq, Eq, Structural)]
pub enum EngineStep {
    /// Keep counting; sleep until the next tick.
    KeepRunning,
    /// The phase is over with this outcome.
    Finish(TimerOutcome),
}

/// One tick's decision, in the fixed priority order: quit beats skip beats
/// stop; then a failed redraw aborts the phase; then an exhausted countdown
/// completes it.
pub open spec fn spec_engine_step(
    quit: bool,
    skip: bool,
    stop: bool,
    draw_failed: bool,
    remaining_secs: u64,
) -> EngineStep {
    if quit {
        EngineStep::Finish(TimerOutcome::Quit)
    } else if skip {
        EngineStep::Finish(TimerOutcome::Skipped)
    } else if stop {
        EngineStep::Finish(TimerOutcome::StoppedEarly)
    } else if draw_failed {
        EngineStep::Finish(TimerOutcome::Quit)
    } else if remaining_secs == 0 {
        EngineStep::Finish(TimerOutcome::Completed)
    } else {
        EngineStep::KeepRunning
    }
}

/// Decide one tick of the engine loop from the signal flags, whether the
/// redraw failed, and the remaining seconds.
pub fn engine_step(quit: bool, skip: bool, stop: bool, draw_failed: bool, remaining_secs: u64)
    -> (r: EngineStep)
    ensures
        r == spec_engine_step(quit, skip, stop, draw_failed, remaining_secs),
{
    if quit {
        EngineStep::Finish(TimerOutcome::Quit)
    } else if skip {
        EngineStep::Finish(TimerOutcome::Skipped)
    } else if stop {
        EngineStep::Finish(TimerOutcome::StoppedEarly)
    } else if draw_failed {
        EngineStep::Finish(TimerOutcome::Quit)
    } else if remaining_secs == 0 {
        EngineStep::Finish(TimerOutcome::Completed)
    } else {
        EngineStep::KeepRunning
    }
}

/// The terminal surface is released at the end of a phase exactly when the
/// outcome is not a skip: a skipped phase hands the still-held surface to the
/// next phase for a seamless transition.
pub open spec fn spec_releases_surface(outcome: TimerOutcome) -> bool {
    outcome != TimerOutcome::Skipped
}

/// Whether a phase ending with `outcome` releases the terminal surface.
pub fn releases_surface(outcome: TimerOutcome) -> (r: bool)
    ensures
        r == spec_releases_surface(outcome),
{
    outcome != TimerOutcome::Skipped
}

/// Everything the engine loop observes on one tick: the wall-clock reading,
/// the signal flags as read from the listener's cells, and whether the redraw
/// it issues succeeds.
#[derive(Debug, Clone, Copy, PartialEq, Eq, Structural)]
pub struct Tick {
    pub now_ms: u64,
    pub pause: bool,
    pub quit: bool,
    pub skip: bool,
    pub stop: bool,
    pub draw_ok: bool,
}

/// How one phase ended: its outcome, and whether the engine released the
/// terminal surface on the way out.
#[derive(Debug, Clone, Copy, PartialEq, Eq, Structural)]
pub struct PhaseEnd {
    pub outcome: TimerOutcome,
    pub surface_released: bool,
}

/// The phase's end given the clock state and the ticks still to come: `None`
/// when the ticks run out with the phase still counting.
pub open spec fn spec_run_phase(clock: PhaseClock, total_secs: u64, ticks: Seq<Tick>) -> Option<
    PhaseEnd,
>
    decreases ticks.len(),
{
    if ticks.len() == 0 {
        None
    } else {
        let t = ticks[0];
        if t.quit {
            Some(PhaseEnd { outcome: TimerOutcome::Quit, surface_released: true })
        } else if t.skip {
            Some(PhaseEnd { outcome: TimerOutcome::Skipped, surface_released: false })
        } else if t.stop {
            Some(PhaseEnd { outcome: TimerOutcome::StoppedEarly, surface_released: true })
        } else {
            let c = clock.spec_set_paused(t.pause, t.now_ms);
            let remaining = c.spec_remaining_secs(total_secs, t.now_ms);
            if !t.draw_ok {
                Some(PhaseEnd { outcome: TimerOutcome::Quit, surface_released: true })
            } else if remaining == 0 {
                Some(PhaseEnd { outcome: TimerOutcome::Completed, surface_released: true })
            } else {
                spec_run_phase(c, total_secs, ticks.drop_first())
            }
        }
    }
}

/// However a phase ends, the surface is released exactly when the outcome is
/// not a skip.
pub proof fn lemma_phase_release_iff_not_skipped(
    clock: PhaseClock,
    total_secs: u64,
    ticks: Seq<Tick>,
)
    ensures
        match spec_run_phase(clock, total_secs, ticks) {
            Some(end) => end.surface_released == spec_releases_surface(end.outcome),
            None => true,
        },
    decreases ticks.len(),
{
    if ticks.len() > 0 {
        let t = ticks[0];
        if !t.quit && !t.skip && !t.stop {
            let c = clock.spec_set_paused(t.pause, t.now_ms);
            let remaining = c.spec_remaining_secs(total_secs, t.now_ms);
            if t.draw_ok && remaining != 0 {
                lemma_phase_release_iff_not_skipped(c, total_secs, ticks.drop_first());
            }
        }
    }
}

/// Run one phase's tick loop over a recorded sequence of observations,
/// starting the clock at `start_ms`. Each tick is checked in the engine's
/// priority order; on every tick that keeps running, the clock absorbs the
/// pause flag. Returns `None` when the observations run out with the phase
/// still counting.
pub fn run_phase(total_secs: u64, start_ms: u64, ticks: &Vec<Tick>) -> (r: Option<PhaseEnd>)
    requires
        forall|i: int| 0 <= i < ticks@.len() ==> start_ms <= #[trigger] ticks@[i].now_ms,
        forall|i: int, j: int|
            0 <= i <= j < ticks@.len() ==> #[trigger] ticks@[i].now_ms <= #[trigger] ticks@[j].now_ms,
    ensures
        r == spec_run_phase(
            PhaseClock { start_ms, paused_accum_ms: 0, pause_start_ms: None },
            total_secs,
            ticks@,
        ),
{
    let clock0 = PhaseClock::new(start_ms);
    let mut clock = clock0;
    let mut idx: usize = 0;
    let len = ticks.len();
    proof {
        assert(ticks@.skip(0) =~= ticks@);
    }
    loop
        invariant
            clock0 == (PhaseClock { start_ms, paused_accum_ms: 0, pause_start_ms: None }),
            len == ticks@.len(),
            idx <= len,
            forall|i: int| 0 <= i < ticks@.len() ==> start_ms <= #[trigger] ticks@[i].now_ms,
            forall|i: int, j: int|
                0 <= i <= j < ticks@.len() ==> #[trigger] ticks@[i].now_ms
                    <= #[trigger] ticks@[j].now_ms,
            idx < len ==> clock.wf(ticks@[idx as int].now_ms),
            spec_run_phase(clock0, total_secs, ticks@) == spec_run_phase(
                clock,
                total_secs,
                ticks@.skip(idx as int),
            ),
        decreases len - idx,
    {
        if idx >= len {
            proof {
                assert(ticks@.skip(idx as int).len() == 0);
            }
            return None;
        }
        let t = ticks[idx];
        let ghost clock_before = clock;
        proof {
            assert(ticks@.skip(idx as int)[0] == ticks@[idx as int]);
            assert(ticks@.skip(idx as int).drop_first() =~= ticks@.skip(idx as int + 1));
        }
        clock.set_paused(t.pause, t.now_ms);
        let remaining = clock.remaining_secs(total_secs, t.now_ms);
        match engine_step(t.quit, t.skip, t.stop, !t.draw_ok, remaining) {
            EngineStep::Finish(outcome) => {
                let end = PhaseEnd { outcome, surface_released: releases_surface(outcome) };
                proof {
                    assert(spec_run_phase(clock_before, total_secs, ticks@.skip(idx as int))
                        == Some(end));
                }
                return Some(end);
            },
            EngineStep::KeepRunning => {},
        }
        proof {
            if idx + 1 < len {
                crate::clock::lemma_wf_later(
                    clock,
                    ticks@[idx as int].now_ms,
                    ticks@[idx as int + 1].now_ms,
                );
            }
        }
        idx = idx + 1;
    }
}

} // verus!
