//! The session orchestrator: the state machine that sequences work and break
//! phases for a round target that the listener may move while the session
//! runs. The real loop around it awaits timers and draws headers; every
//! decision — which phase comes next, long or short break, when the session
//! ends, what is logged and notified, and when the terminal surface is held
//! across a phase boundary — is defined here over a script of per-phase
//! events, so the whole orchestration is checkable without a terminal.

use vstd::prelude::*;
use crate::rounds;
use crate::timer::TimerContext;
use crate::timer::TimerOutcome;
use crate::timer::spec_skip_allowed;
use crate::timer::spec_releases_surface;
use crate::timer::releases_surface;

verus! {

/// Which phase of a round is running.
#[derive(Debug, Clone, Copy, PartialEq, Eq, Structural)]
pub enum PhaseKind {
    Work,
    ShortBreak,
    LongBreak,
}

/// The timer context a phase of this kind runs under.
pub open spec fn kind_context(kind: PhaseKind) -> TimerContext {
    match kind {
        PhaseKind::Work => TimerContext::Work,
        PhaseKind::ShortBreak => TimerContext::Break,
        PhaseKind::LongBreak => TimerContext::Break,
    }
}

/// The lengths a session's phases run for, in seconds.
#[derive(Debug, Clone, Copy, PartialEq, Eq, Structural)]
pub struct SessionDurations {
    pub work_secs: u64,
    pub short_break_secs: u64,
    pub long_break_secs: u64,
}

/// What happens during one phase: how often the add-round and drop-round keys
/// are pressed, and how the phase's timer resolves. A skip outcome stands for
/// the skip key; whether it takes effect is decided here, since the listener
/// ignores it on the final round's work phase.
#[derive(Debug, Clone, Copy, PartialEq, Eq, Structural)]
pub struct PhaseScript {
    pub adds: u32,
    pub drops: u32,
    pub outcome: TimerOutcome,
}

/// How a session ended: cancelled by quit, stopped early after some number of
/// finished rounds, or complete with the final round target.
#[derive(Debug, Clone, Copy, PartialEq, Eq, Structural)]
pub enum SessionStatus {
    Cancelled,
    StoppedEarly(u32),
    Complete(u32),
}

/// One phase as the session ran it: its kind, the round it belonged to, the
/// round target in force when it ended, its length, its outcome, and what the
/// orchestrator did about it.
#[derive(Debug, Clone, Copy, PartialEq, Eq, Structural)]
pub struct PhaseRecord {
    pub kind: PhaseKind,
    pub round: u32,
    pub target: u32,
    pub secs: u64,
    pub outcome: TimerOutcome,
    pub notified: bool,
    pub logged: bool,
    pub released: bool,
}

/// A whole session's observable behaviour, at the spec level: the phases in
/// order, the final status, and how often the terminal surface was acquired
/// and released.
pub struct SessionTrace {
    pub phases: Seq<PhaseRecord>,
    pub status: SessionStatus,
    pub enters: int,
    pub leaves: int,
}

/// A whole session's observable behaviour, as the simulator returns it.
#[derive(Debug, PartialEq, Eq)]
pub struct SessionLog {
    pub phases: Vec<PhaseRecord>,
    pub status: SessionStatus,
}

/// The script entry for a phase no key reaches: no round changes, and the
/// timer runs out.
pub open spec fn default_entry() -> PhaseScript {
    PhaseScript { adds: 0, drops: 0, outcome: TimerOutcome::Completed }
}

/// The round target after one phase's add-round and drop-round keypresses:
/// raised one per add, then lowered one per drop with the floor at the round
/// in progress.
pub open spec fn spec_phase_target(round: u32, target: u32, entry: PhaseScript) -> u32 {
    rounds::spec_drop_rounds(
        rounds::spec_add_rounds(target, entry.adds as nat),
        round,
        entry.drops as nat,
    )
}

/// How the phase's timer actually resolves: a skip keypress that the listener
/// ignores — on the work phase of the final round — leaves the timer to run
/// out, so the phase completes; every other outcome stands as scripted.
pub open spec fn spec_effective_outcome(
    kind: PhaseKind,
    round: u32,
    target: u32,
    scripted: TimerOutcome,
) -> TimerOutcome {
    if scripted == TimerOutcome::Skipped && !spec_skip_allowed(
        kind_context(kind),
        Some((round, target)),
    ) {
        TimerOutcome::Completed
    } else {
        scripted
    }
}

/// How the phase's timer resolves, given the scripted outcome.
pub fn effective_outcome(kind: PhaseKind, round: u32, target: u32, scripted: TimerOutcome) -> (r:
    TimerOutcome)
    ensures
        r == spec_effective_outcome(kind, round, target, scripted),
{
    let suppressed = scripted == TimerOutcome::Skipped && (match kind {
        PhaseKind::Work => true,
        _ => false,
    }) && round >= target;
    if suppressed {
        TimerOutcome::Completed
    } else {
        scripted
    }
}

/// The record the orchestrator keeps of one phase: a completed phase is
/// notified and logged; a skipped phase is logged but never notified, and is
/// the one case that keeps the terminal surface held.
pub open spec fn spec_phase_record(
    kind: PhaseKind,
    round: u32,
    target: u32,
    secs: u64,
    outcome: TimerOutcome,
) -> PhaseRecord {
    PhaseRecord {
        kind,
        round,
        target,
        secs,
        outcome,
        notified: outcome == TimerOutcome::Completed,
        logged: outcome == TimerOutcome::Completed || outcome == TimerOutcome::Skipped,
        released: spec_releases_surface(outcome),
    }
}

/// The session from a given state on. `round` is the round about to run (or
/// running, when `in_break`); `in_alt` says whether the previous phase left
/// the terminal surface held. Each phase consumes one script entry; a phase
/// beyond the script's end sees the default entry. The status, records and
/// surface accounting follow the orchestrator's rules: quit cancels the whole
/// session at once; stop ends it after the finished rounds; otherwise work is
/// followed by a break — the long one on the final round — and the session
/// completes when the round count passes the target as re-read at that moment.
pub open spec fn spec_session(
    round: u32,
    target: u32,
    in_break: bool,
    in_alt: bool,
    durs: SessionDurations,
    script: Seq<PhaseScript>,
) -> SessionTrace
    decreases
            script.len(),
            (if round <= target {
                target + 1 - round
            } else {
                0
            }),
            (if in_break {
                0int
            } else {
                1
            }),
{
    if !in_break && round > target {
        SessionTrace {
            phases: Seq::empty(),
            status: SessionStatus::Complete(target),
            enters: 0,
            leaves: if in_alt {
                1
            } else {
                0
            },
        }
    } else {
        let entry = if script.len() > 0 {
            script[0]
        } else {
            default_entry()
        };
        let rest = if script.len() > 0 {
            script.drop_first()
        } else {
            script
        };
        let kind = if !in_break {
            PhaseKind::Work
        } else if round == target {
            PhaseKind::LongBreak
        } else {
            PhaseKind::ShortBreak
        };
        let secs = match kind {
            PhaseKind::Work => durs.work_secs,
            PhaseKind::ShortBreak => durs.short_break_secs,
            PhaseKind::LongBreak => durs.long_break_secs,
        };
        let target1 = spec_phase_target(round, target, entry);
        let outcome = spec_effective_outcome(kind, round, target1, entry.outcome);
        let rec = spec_phase_record(kind, round, target1, secs, outcome);
        let enter: int = if in_alt {
            0
        } else {
            1
        };
        if outcome == TimerOutcome::Quit {
            SessionTrace {
                phases: seq![rec],
                status: SessionStatus::Cancelled,
                enters: enter,
                leaves: 1,
            }
        } else if outcome == TimerOutcome::StoppedEarly {
            SessionTrace {
                phases: seq![rec],
                status: SessionStatus::StoppedEarly(
                    if in_break {
                        round
                    } else {
                        (round - 1) as u32
                    },
                ),
                enters: enter,
                leaves: 1,
            }
        } else {
            let held = outcome == TimerOutcome::Skipped;
            if !in_break {
                let sub = spec_session(round, target1, true, held, durs, rest);
                SessionTrace {
                    phases: seq![rec] + sub.phases,
                    status: sub.status,
                    enters: enter + sub.enters,
                    leaves: (if held {
                        0int
                    } else {
                        1
                    }) + sub.leaves,
                }
            } else if round >= target1 {
                // The loop head would see round + 1 > target1: the session is
                // over; a surface still held after a skipped final break is
                // released on the way out.
                SessionTrace {
                    phases: seq![rec],
                    status: SessionStatus::Complete(target1),
                    enters: enter,
                    leaves: 1,
                }
            } else {
                let sub = spec_session((round + 1) as u32, target1, false, held, durs, rest);
                SessionTrace {
                    phases: seq![rec] + sub.phases,
                    status: sub.status,
                    enters: enter + sub.enters,
                    leaves: (if held {
                        0int
                    } else {
                        1
                    }) + sub.leaves,
                }
            }
        }
    }
}

/// The trace of a whole session started with `rounds` as its target.
pub open spec fn spec_session_trace(
    rounds: u32,
    durs: SessionDurations,
    script: Seq<PhaseScript>,
) -> SessionTrace {
    spec_session(1, rounds, false, false, durs, script)
}

/// Run the session from a given state over the script entries from `idx` on.
fn run_from(
    round: u32,
    target: u32,
    in_break: bool,
    in_alt: bool,
    durs: SessionDurations,
    script: &Vec<PhaseScript>,
    idx: usize,
) -> (r: SessionLog)
    requires
        1 <= round,
        idx <= script@.len(),
    ensures
        r.phases@ == spec_session(round, target, in_break, in_alt, durs, script@.skip(idx as int)).phases,
        r.status == spec_session(round, target, in_break, in_alt, durs, script@.skip(idx as int)).status,
    decreases
            script@.len() - idx,
            (if round <= target {
                target + 1 - round
            } else {
                0
            }),
            (if in_break {
                0int
            } else {
                1
            }),
{
    let ghost rest_script = script@.skip(idx as int);
    if !in_break && round > target {
        return SessionLog { phases: Vec::new(), status: SessionStatus::Complete(target) };
    }
    let (entry, next_idx) = if idx < script.len() {
        (script[idx], idx + 1)
    } else {
        (PhaseScript { adds: 0, drops: 0, outcome: TimerOutcome::Completed }, idx)
    };
    proof {
        if idx < script@.len() {
            assert(rest_script[0] == script@[idx as int]);
            assert(rest_script.drop_first() =~= script@.skip(next_idx as int));
        } else {
            assert(rest_script.len() == 0);
            assert(entry == default_entry());
        }
    }
    let kind = if !in_break {
        PhaseKind::Work
    } else if round == target {
        PhaseKind::LongBreak
    } else {
        PhaseKind::ShortBreak
    };
    let secs = match kind {
        PhaseKind::Work => durs.work_secs,
        PhaseKind::ShortBreak => durs.short_break_secs,
        PhaseKind::LongBreak => durs.long_break_secs,
    };
    let raised = rounds::add_rounds(target, entry.adds);
    let target1 = rounds::drop_rounds(raised, round, entry.drops);
    let outcome = effective_outcome(kind, round, target1, entry.outcome);
    let rec = PhaseRecord {
        kind,
        round,
        target: target1,
        secs,
        outcome,
        notified: outcome == TimerOutcome::Completed,
        logged: outcome == TimerOutcome::Completed || outcome == TimerOutcome::Skipped,
        released: releases_surface(outcome),
    };
    proof {
        assert(rec == spec_phase_record(kind, round, target1, secs, outcome));
    }
    match outcome {
        TimerOutcome::Quit => {
            let mut phases: Vec<PhaseRecord> = Vec::new();
            phases.push(rec);
            proof {
                assert(phases@ =~= seq![rec]);
            }
            SessionLog { phases, status: SessionStatus::Cancelled }
        },
        TimerOutcome::StoppedEarly => {
            let mut phases: Vec<PhaseRecord> = Vec::new();
            phases.push(rec);
            proof {
                assert(phases@ =~= seq![rec]);
            }
            let finished = if in_break {
                round
            } else {
                round - 1
            };
            SessionLog { phases, status: SessionStatus::StoppedEarly(finished) }
        },
        _ => {
            let held = outcome == TimerOutcome::Skipped;
            if in_break && round >= target1 {
                let mut phases: Vec<PhaseRecord> = Vec::new();
                phases.push(rec);
                proof {
                    assert(phases@ =~= seq![rec]);
                }
                SessionLog { phases, status: SessionStatus::Complete(target1) }
            } else {
                let next_round = if in_break {
                    round + 1
                } else {
                    round
                };
                let mut sub = run_from(next_round, target1, !in_break, held, durs, script, next_idx);
                sub.phases.insert(0, rec);
                proof {
                    assert(sub.phases@ =~= seq![rec] + spec_session(
                        next_round,
                        target1,
                        !in_break,
                        held,
                        durs,
                        script@.skip(next_idx as int),
                    ).phases);
                }
                sub
            }
        },
    }
}

/// Run a whole session over a script of per-phase events: the work and break
/// phases it would run, in order, each with what the orchestrator did about
/// it, and how the session ended.
pub fn run_session(rounds: u32, durs: SessionDurations, script: &Vec<PhaseScript>) -> (r:
    SessionLog)
    ensures
        r.phases@ == spec_session_trace(rounds, durs, script@).phases,
        r.status == spec_session_trace(rounds, durs, script@).status,
{
    proof {
        assert(script@.skip(0) =~= script@);
    }
    run_from(1, rounds, false, false, durs, script, 0)
}

/// Surface discipline: over a whole session the terminal surface is released
/// exactly as often as it is acquired — and once more when the session begins
/// with the surface already held.
pub proof fn lemma_surface_balance(
    round: u32,
    target: u32,
    in_break: bool,
    in_alt: bool,
    durs: SessionDurations,
    script: Seq<PhaseScript>,
)
    ensures
        spec_session(round, target, in_break, in_alt, durs, script).leaves == spec_session(
            round,
            target,
            in_break,
            in_alt,
            durs,
            script,
        ).enters + (if in_alt {
            1int
        } else {
            0
        }),
    decreases
            script.len(),
            (if round <= target {
                target + 1 - round
            } else {
                0
            }),
            (if in_break {
                0int
            } else {
                1
            }),
{
    if !in_break && round > target {
    } else {
        let entry = if script.len() > 0 {
            script[0]
        } else {
            default_entry()
        };
        let rest = if script.len() > 0 {
            script.drop_first()
        } else {
            script
        };
        let kind = if !in_break {
            PhaseKind::Work
        } else if round == target {
            PhaseKind::LongBreak
        } else {
            PhaseKind::ShortBreak
        };
        let target1 = spec_phase_target(round, target, entry);
        let outcome = spec_effective_outcome(kind, round, target1, entry.outcome);
        if outcome == TimerOutcome::Quit || outcome == TimerOutcome::StoppedEarly {
        } else {
            let held = outcome == TimerOutcome::Skipped;
            if !in_break {
                lemma_surface_balance(round, target1, true, held, durs, rest);
            } else if round >= target1 {
            } else {
                lemma_surface_balance((round + 1) as u32, target1, false, held, durs, rest);
            }
        }
    }
}

/// A session that starts outside the terminal surface acquires and releases
/// it equally often: however it ends — quit included — the surface is
/// restored exactly once per acquisition.
pub proof fn lemma_session_surface_restored(rounds: u32, durs: SessionDurations, script: Seq<
    PhaseScript>)
    ensures
        spec_session_trace(rounds, durs, script).leaves == spec_session_trace(
            rounds,
            durs,
            script,
        ).enters,
{
    lemma_surface_balance(1, rounds, false, false, durs, script);
}

/// How a session's phases relate to how it ended: a quit phase cancels the
/// session on the spot, so it is always the last phase, and the session is
/// cancelled exactly when its last phase quit; likewise a stop is always
/// last; every phase before the last completed or was skipped, and the
/// orchestrator went on to the next.
pub proof fn lemma_session_last_phase(
    round: u32,
    target: u32,
    in_break: bool,
    in_alt: bool,
    durs: SessionDurations,
    script: Seq<PhaseScript>,
)
    ensures
        (spec_session(round, target, in_break, in_alt, durs, script).status
            == SessionStatus::Cancelled) <==> {
            let phases = spec_session(round, target, in_break, in_alt, durs, script).phases;
            phases.len() > 0 && phases.last().outcome == TimerOutcome::Quit
        },
        (spec_session(round, target, in_break, in_alt, durs, script).status matches
            SessionStatus::StoppedEarly(_)) <==> {
            let phases = spec_session(round, target, in_break, in_alt, durs, script).phases;
            phases.len() > 0 && phases.last().outcome == TimerOutcome::StoppedEarly
        },
        forall|i: int|
            0 <= i < spec_session(round, target, in_break, in_alt, durs, script).phases.len() - 1
                ==> {
                let o = (#[trigger] spec_session(
                    round,
                    target,
                    in_break,
                    in_alt,
                    durs,
                    script,
                ).phases[i]).outcome;
                o == TimerOutcome::Completed || o == TimerOutcome::Skipped
            },
    decreases
            script.len(),
            (if round <= target {
                target + 1 - round
            } else {
                0
            }),
            (if in_break {
                0int
            } else {
                1
            }),
{
    if !in_break && round > target {
    } else {
        let entry = if script.len() > 0 {
            script[0]
        } else {
            default_entry()
        };
        let rest = if script.len() > 0 {
            script.drop_first()
        } else {
            script
        };
        let kind = if !in_break {
            PhaseKind::Work
        } else if round == target {
            PhaseKind::LongBreak
        } else {
            PhaseKind::ShortBreak
        };
        let secs = match kind {
            PhaseKind::Work => durs.work_secs,
            PhaseKind::ShortBreak => durs.short_break_secs,
            PhaseKind::LongBreak => durs.long_break_secs,
        };
        let target1 = spec_phase_target(round, target, entry);
        let outcome = spec_effective_outcome(kind, round, target1, entry.outcome);
        let rec = spec_phase_record(kind, round, target1, secs, outcome);
        if outcome == TimerOutcome::Quit || outcome == TimerOutcome::StoppedEarly {
        } else {
            let held = outcome == TimerOutcome::Skipped;
            if !in_break {
                lemma_session_last_phase(round, target1, true, held, durs, rest);
                let sub = spec_session(round, target1, true, held, durs, rest);
                let phases = spec_session(round, target, in_break, in_alt, durs, script).phases;
                assert(phases == seq![rec] + sub.phases);
                if sub.phases.len() > 0 {
                    assert(phases.last() == sub.phases.last());
                }
            } else if round >= target1 {
            } else {
                lemma_session_last_phase((round + 1) as u32, target1, false, held, durs, rest);
                let sub = spec_session((round + 1) as u32, target1, false, held, durs, rest);
                let phases = spec_session(round, target, in_break, in_alt, durs, script).phases;
                assert(phases == seq![rec] + sub.phases);
                if sub.phases.len() > 0 {
                    assert(phases.last() == sub.phases.last());
                }
            }
        }
    }
}

/// What the orchestrator did about each phase, and how far the round target
/// can move: a phase is notified exactly when it completed — a skipped phase
/// never is — and logged exactly when it completed or was skipped; the
/// surface is released exactly when the phase was not skipped; and every
/// phase's round target stays at or above the round that was executing, so a
/// drop-round keypress never cuts off the round in progress.
pub proof fn lemma_session_records(
    round: u32,
    target: u32,
    in_break: bool,
    in_alt: bool,
    durs: SessionDurations,
    script: Seq<PhaseScript>,
)
    requires
        in_break ==> round <= target,
    ensures
        forall|i: int|
            0 <= i < spec_session(round, target, in_break, in_alt, durs, script).phases.len() ==> {
                let rec = #[trigger] spec_session(
                    round,
                    target,
                    in_break,
                    in_alt,
                    durs,
                    script,
                ).phases[i];
                &&& rec.notified == (rec.outcome == TimerOutcome::Completed)
                &&& rec.logged == (rec.outcome == TimerOutcome::Completed || rec.outcome
                    == TimerOutcome::Skipped)
                &&& rec.released == (rec.outcome != TimerOutcome::Skipped)
                &&& rec.round >= round
                &&& rec.target >= rec.round
            },
    decreases
            script.len(),
            (if round <= target {
                target + 1 - round
            } else {
                0
            }),
            (if in_break {
                0int
            } else {
                1
            }),
{
    if !in_break && round > target {
    } else {
        let entry = if script.len() > 0 {
            script[0]
        } else {
            default_entry()
        };
        let rest = if script.len() > 0 {
            script.drop_first()
        } else {
            script
        };
        let kind = if !in_break {
            PhaseKind::Work
        } else if round == target {
            PhaseKind::LongBreak
        } else {
            PhaseKind::ShortBreak
        };
        let secs = match kind {
            PhaseKind::Work => durs.work_secs,
            PhaseKind::ShortBreak => durs.short_break_secs,
            PhaseKind::LongBreak => durs.long_break_secs,
        };
        let target1 = spec_phase_target(round, target, entry);
        let raised = rounds::spec_add_rounds(target, entry.adds as nat);
        rounds::lemma_add_rounds_ge(target, entry.adds as nat);
        rounds::lemma_drop_rounds_floored(raised, round, entry.drops as nat);
        let outcome = spec_effective_outcome(kind, round, target1, entry.outcome);
        let rec = spec_phase_record(kind, round, target1, secs, outcome);
        if outcome == TimerOutcome::Quit || outcome == TimerOutcome::StoppedEarly {
        } else {
            let held = outcome == TimerOutcome::Skipped;
            if !in_break {
                lemma_session_records(round, target1, true, held, durs, rest);
                assert(spec_session(round, target, in_break, in_alt, durs, script).phases
                    == seq![rec] + spec_session(round, target1, true, held, durs, rest).phases);
            } else if round >= target1 {
            } else {
                lemma_session_records((round + 1) as u32, target1, false, held, durs, rest);
                assert(spec_session(round, target, in_break, in_alt, durs, script).phases
                    == seq![rec] + spec_session(
                    (round + 1) as u32,
                    target1,
                    false,
                    held,
                    durs,
                    rest,
                ).phases);
            }
        }
    }
}

} // verus!
