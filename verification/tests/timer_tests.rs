use tik::clock::PhaseClock;
use tik::render::Renderer;
use tik::render::format_time;
use tik::render::hint_line;
use tik::rounds::add_round;
use tik::rounds::add_rounds;
use tik::rounds::drop_round;
use tik::rounds::drop_rounds;
use tik::timer::EngineStep;
use tik::timer::Key;
use tik::timer::ListenerEffect;
use tik::timer::PhaseEnd;
use tik::timer::Tick;
use tik::timer::TimerContext;
use tik::timer::TimerOutcome;
use tik::timer::engine_step;
use tik::timer::listener_effect;
use tik::timer::run_phase;

fn quiet_tick(now_ms: u64) -> Tick {
    Tick {
        now_ms,
        pause: false,
        quit: false,
        skip: false,
        stop: false,
        draw_ok: true,
    }
}

#[test]
fn remaining_counts_down_while_running() {
    let clock = PhaseClock::new(0);
    let r0 = clock.remaining_secs(10, 0);
    let r1 = clock.remaining_secs(10, 3_000);
    let r2 = clock.remaining_secs(10, 7_000);
    assert_eq!(r0, 10);
    assert_eq!(r1, 7);
    assert_eq!(r2, 3);
    assert!(r1 <= r0 && r2 <= r1);
}

#[test]
fn remaining_never_underflows() {
    let clock = PhaseClock::new(0);
    assert_eq!(clock.remaining_secs(10, 60_000), 0);
    let r = clock.remaining_secs(10, 5_000);
    assert!(r <= 10);
}

#[test]
fn remaining_constant_while_paused() {
    let mut clock = PhaseClock::new(0);
    clock.set_paused(true, 4_000);
    assert_eq!(clock.remaining_secs(10, 4_000), 6);
    assert_eq!(clock.remaining_secs(10, 30_000), 6);
    assert_eq!(clock.remaining_secs(10, 90_000), 6);
}

#[test]
fn pause_and_resume_never_jump_the_clock() {
    let mut clock = PhaseClock::new(0);
    clock.set_paused(true, 2_000);
    clock.set_paused(false, 9_000);
    // Two seconds ran before the pause; the seven paused seconds do not count.
    assert_eq!(clock.elapsed_secs(9_000), 2);
    assert_eq!(clock.remaining_secs(10, 12_000), 5);
}

#[test]
fn listener_toggles_and_signals() {
    assert_eq!(
        listener_effect(Key::TogglePause, TimerContext::Standalone, None),
        ListenerEffect::TogglePause
    );
    assert_eq!(
        listener_effect(Key::QuitCombo, TimerContext::Work, Some((1, 4))),
        ListenerEffect::SignalQuit
    );
    assert_eq!(
        listener_effect(Key::Stop, TimerContext::Break, Some((1, 4))),
        ListenerEffect::SignalStop
    );
}

#[test]
fn skip_ignored_on_final_round_work() {
    assert_eq!(
        listener_effect(Key::Skip, TimerContext::Work, Some((2, 2))),
        ListenerEffect::Ignore
    );
    assert_eq!(
        listener_effect(Key::Skip, TimerContext::Work, Some((3, 2))),
        ListenerEffect::Ignore
    );
}

#[test]
fn skip_live_on_earlier_rounds_and_breaks() {
    assert_eq!(
        listener_effect(Key::Skip, TimerContext::Work, Some((1, 2))),
        ListenerEffect::SignalSkip
    );
    assert_eq!(
        listener_effect(Key::Skip, TimerContext::Break, Some((2, 2))),
        ListenerEffect::SignalSkip
    );
    assert_eq!(
        listener_effect(Key::Skip, TimerContext::Standalone, None),
        ListenerEffect::SignalSkip
    );
}

#[test]
fn round_keys_only_in_sessions() {
    assert_eq!(
        listener_effect(Key::AddRound, TimerContext::Work, Some((1, 4))),
        ListenerEffect::RaiseTarget
    );
    assert_eq!(
        listener_effect(Key::DropRound, TimerContext::Break, Some((1, 4))),
        ListenerEffect::LowerTarget
    );
    assert_eq!(
        listener_effect(Key::AddRound, TimerContext::Standalone, None),
        ListenerEffect::Ignore
    );
    assert_eq!(
        listener_effect(Key::DropRound, TimerContext::Standalone, None),
        ListenerEffect::Ignore
    );
}

#[test]
fn round_target_moves_up_freely() {
    assert_eq!(add_round(4), 5);
    assert_eq!(add_rounds(2, 3), 5);
    assert_eq!(add_round(u32::MAX), u32::MAX);
}

#[test]
fn round_target_drop_floored_at_current_round() {
    assert_eq!(drop_round(4, 2), 3);
    assert_eq!(drop_round(3, 2), 2);
    assert_eq!(drop_round(2, 2), 2);
    // Executing round 2 of 4: dropping twice yields 2, and further drops stay.
    assert_eq!(drop_rounds(4, 2, 2), 2);
    assert_eq!(drop_rounds(4, 2, 5), 2);
}

#[test]
fn engine_priority_quit_beats_skip_beats_stop() {
    assert_eq!(
        engine_step(true, true, true, true, 0),
        EngineStep::Finish(TimerOutcome::Quit)
    );
    assert_eq!(
        engine_step(false, true, true, true, 0),
        EngineStep::Finish(TimerOutcome::Skipped)
    );
    assert_eq!(
        engine_step(false, false, true, true, 0),
        EngineStep::Finish(TimerOutcome::StoppedEarly)
    );
    assert_eq!(
        engine_step(false, false, false, true, 5),
        EngineStep::Finish(TimerOutcome::Quit)
    );
    assert_eq!(
        engine_step(false, false, false, false, 0),
        EngineStep::Finish(TimerOutcome::Completed)
    );
    assert_eq!(engine_step(false, false, false, false, 5), EngineStep::KeepRunning);
}

#[test]
fn phase_completes_when_countdown_ends() {
    let ticks = vec![quiet_tick(0), quiet_tick(1_000), quiet_tick(2_500)];
    let end = run_phase(2, 0, &ticks);
    assert_eq!(
        end,
        Some(PhaseEnd {
            outcome: TimerOutcome::Completed,
            surface_released: true
        })
    );
}

#[test]
fn phase_skip_keeps_surface() {
    let mut tick = quiet_tick(500);
    tick.skip = true;
    let end = run_phase(60, 0, &vec![quiet_tick(0), tick]);
    assert_eq!(
        end,
        Some(PhaseEnd {
            outcome: TimerOutcome::Skipped,
            surface_released: false
        })
    );
}

#[test]
fn phase_quit_releases_surface() {
    let mut tick = quiet_tick(500);
    tick.quit = true;
    let end = run_phase(60, 0, &vec![tick]);
    assert_eq!(
        end,
        Some(PhaseEnd {
            outcome: TimerOutcome::Quit,
            surface_released: true
        })
    );
}

#[test]
fn phase_draw_failure_aborts_and_releases() {
    let mut tick = quiet_tick(500);
    tick.draw_ok = false;
    let end = run_phase(60, 0, &vec![tick]);
    assert_eq!(
        end,
        Some(PhaseEnd {
            outcome: TimerOutcome::Quit,
            surface_released: true
        })
    );
}

#[test]
fn phase_pause_stretches_the_countdown() {
    // Paused from 1s to 4s: at 5s only two seconds have run.
    let mut paused1 = quiet_tick(1_000);
    paused1.pause = true;
    let mut paused2 = quiet_tick(4_000);
    paused2.pause = true;
    let ticks = vec![quiet_tick(0), paused1, paused2, quiet_tick(5_000)];
    assert_eq!(run_phase(2, 0, &ticks), None);
    // After resuming at 4.5s, the countdown still needs one more run second.
    let late = vec![
        quiet_tick(0),
        paused1,
        paused2,
        quiet_tick(4_500),
        quiet_tick(6_000),
    ];
    assert_eq!(
        run_phase(2, 0, &late),
        Some(PhaseEnd {
            outcome: TimerOutcome::Completed,
            surface_released: true
        })
    );
}

#[test]
fn renderer_has_thirty_cell_bar() {
    assert_eq!(Renderer::new().bar_width, 30);
}

#[test]
fn format_time_clock_faces() {
    assert_eq!(format_time(45), "00:45");
    assert_eq!(format_time(1500), "25:00");
    assert_eq!(format_time(5415), "1:30:15");
    assert_eq!(format_time(0), "00:00");
}

#[test]
fn hint_lines_match_context() {
    assert_eq!(
        hint_line(TimerContext::Standalone),
        "[space] pause  [s] skip  [x] stop"
    );
    assert_eq!(
        hint_line(TimerContext::Work),
        "[space] pause  [s] skip  [a] +round  [x] stop"
    );
}
