use tik::session::PhaseKind;
use tik::session::PhaseScript;
use tik::session::SessionDurations;
use tik::session::SessionStatus;
use tik::session::run_session;
use tik::timer::TimerOutcome;

fn pomodoro_durations() -> SessionDurations {
    SessionDurations {
        work_secs: 25 * 60,
        short_break_secs: 5 * 60,
        long_break_secs: 15 * 60,
    }
}

fn phase(outcome: TimerOutcome) -> PhaseScript {
    PhaseScript {
        adds: 0,
        drops: 0,
        outcome,
    }
}

#[test]
fn two_rounds_untouched_run_to_completion() {
    // rounds=2, work=25m, break=5m, long_break=15m, no key input:
    // two work phases, one short break, one long break, in that order.
    let log = run_session(2, pomodoro_durations(), &Vec::new());
    assert_eq!(log.status, SessionStatus::Complete(2));
    let kinds: Vec<PhaseKind> = log.phases.iter().map(|p| p.kind).collect();
    assert_eq!(
        kinds,
        vec![
            PhaseKind::Work,
            PhaseKind::ShortBreak,
            PhaseKind::Work,
            PhaseKind::LongBreak
        ]
    );
    assert!(log.phases.iter().all(|p| p.outcome == TimerOutcome::Completed));
    assert!(log.phases.iter().all(|p| p.logged && p.notified));
    let logged_secs: u64 = log
        .phases
        .iter()
        .filter(|p| p.logged)
        .map(|p| p.secs)
        .sum();
    assert_eq!(log.phases.iter().filter(|p| p.logged).count(), 4);
    assert_eq!(logged_secs, (25 * 2 + 5 + 15) * 60);
}

#[test]
fn add_round_extends_the_session() {
    // Pressing add-round during round 1 of a 2-round session makes a 3rd
    // round execute.
    let script = vec![PhaseScript {
        adds: 1,
        drops: 0,
        outcome: TimerOutcome::Completed,
    }];
    let log = run_session(2, pomodoro_durations(), &script);
    assert_eq!(log.status, SessionStatus::Complete(3));
    let rounds: Vec<u32> = log.phases.iter().map(|p| p.round).collect();
    assert_eq!(rounds, vec![1, 1, 2, 2, 3, 3]);
    // The long break now closes round 3; rounds 1 and 2 get short breaks.
    assert_eq!(log.phases[1].kind, PhaseKind::ShortBreak);
    assert_eq!(log.phases[3].kind, PhaseKind::ShortBreak);
    assert_eq!(log.phases[5].kind, PhaseKind::LongBreak);
}

#[test]
fn drop_round_shortens_the_session() {
    let script = vec![PhaseScript {
        adds: 0,
        drops: 1,
        outcome: TimerOutcome::Completed,
    }];
    let log = run_session(3, pomodoro_durations(), &script);
    assert_eq!(log.status, SessionStatus::Complete(2));
    assert_eq!(log.phases.len(), 4);
}

#[test]
fn drop_round_never_cuts_the_running_round() {
    // Executing round 1 of 2: dropping three times still finishes round 1,
    // and its break is the long one since it is now the final round.
    let script = vec![PhaseScript {
        adds: 0,
        drops: 3,
        outcome: TimerOutcome::Completed,
    }];
    let log = run_session(2, pomodoro_durations(), &script);
    assert_eq!(log.status, SessionStatus::Complete(1));
    assert_eq!(log.phases.len(), 2);
    assert_eq!(log.phases[0].kind, PhaseKind::Work);
    assert_eq!(log.phases[0].target, 1);
    assert_eq!(log.phases[1].kind, PhaseKind::LongBreak);
}

#[test]
fn quit_cancels_the_whole_session_at_once() {
    let script = vec![
        phase(TimerOutcome::Completed),
        phase(TimerOutcome::Completed),
        phase(TimerOutcome::Quit),
    ];
    let log = run_session(4, pomodoro_durations(), &script);
    assert_eq!(log.status, SessionStatus::Cancelled);
    // The quit phase is the last; nothing ran after it.
    assert_eq!(log.phases.len(), 3);
    assert_eq!(log.phases[2].outcome, TimerOutcome::Quit);
    assert!(log.phases[2].released);
    assert!(!log.phases[2].logged && !log.phases[2].notified);
}

#[test]
fn stop_during_work_reports_finished_rounds() {
    let script = vec![
        phase(TimerOutcome::Completed),
        phase(TimerOutcome::Completed),
        phase(TimerOutcome::StoppedEarly),
    ];
    let log = run_session(4, pomodoro_durations(), &script);
    // Stopped during round 2's work: one round was finished.
    assert_eq!(log.status, SessionStatus::StoppedEarly(1));
}

#[test]
fn stop_during_break_reports_finished_rounds() {
    let script = vec![phase(TimerOutcome::Completed), phase(TimerOutcome::StoppedEarly)];
    let log = run_session(4, pomodoro_durations(), &script);
    assert_eq!(log.status, SessionStatus::StoppedEarly(1));
}

#[test]
fn skipped_phase_logged_but_never_notified() {
    let script = vec![phase(TimerOutcome::Skipped)];
    let log = run_session(2, pomodoro_durations(), &script);
    assert_eq!(log.status, SessionStatus::Complete(2));
    assert_eq!(log.phases[0].outcome, TimerOutcome::Skipped);
    assert!(log.phases[0].logged);
    assert!(!log.phases[0].notified);
    // The surface stays held across the boundary and the session goes on.
    assert!(!log.phases[0].released);
    assert_eq!(log.phases.len(), 4);
    assert_eq!(log.phases[1].kind, PhaseKind::ShortBreak);
}

#[test]
fn skip_on_final_round_work_is_a_no_op() {
    // One-round session: the skip key during the work phase is ignored, so
    // the phase completes and is notified like any other.
    let script = vec![phase(TimerOutcome::Skipped)];
    let log = run_session(1, pomodoro_durations(), &script);
    assert_eq!(log.status, SessionStatus::Complete(1));
    assert_eq!(log.phases[0].outcome, TimerOutcome::Completed);
    assert!(log.phases[0].notified);
}

#[test]
fn skip_on_final_break_still_works() {
    // The asymmetry: the final round's long break can be skipped.
    let script = vec![phase(TimerOutcome::Completed), phase(TimerOutcome::Skipped)];
    let log = run_session(1, pomodoro_durations(), &script);
    assert_eq!(log.status, SessionStatus::Complete(1));
    assert_eq!(log.phases[1].kind, PhaseKind::LongBreak);
    assert_eq!(log.phases[1].outcome, TimerOutcome::Skipped);
}

#[test]
fn zero_round_session_completes_immediately() {
    let log = run_session(0, pomodoro_durations(), &Vec::new());
    assert_eq!(log.status, SessionStatus::Complete(0));
    assert_eq!(log.phases.len(), 0);
}

#[test]
fn break_durations_follow_the_live_target() {
    // Adding a round during round 2's work turns what would have been the
    // final round's long break into a short one.
    let script = vec![
        phase(TimerOutcome::Completed),
        phase(TimerOutcome::Completed),
        PhaseScript {
            adds: 1,
            drops: 0,
            outcome: TimerOutcome::Completed,
        },
    ];
    let log = run_session(2, pomodoro_durations(), &script);
    assert_eq!(log.status, SessionStatus::Complete(3));
    assert_eq!(log.phases[3].kind, PhaseKind::ShortBreak);
    assert_eq!(log.phases[3].secs, 5 * 60);
    assert_eq!(log.phases[5].kind, PhaseKind::LongBreak);
    assert_eq!(log.phases[5].secs, 15 * 60);
}
