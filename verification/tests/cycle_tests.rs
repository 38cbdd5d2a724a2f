use rusty_krab_manager::cycle::{CycleConfig, CycleState, Phase, TickOutcome};
use rusty_krab_manager::errors::CoreError;

fn one_minute_config() -> CycleConfig {
    CycleConfig::from_minutes(1, 1, 1, 4).unwrap()
}

#[test]
fn config_from_minutes_converts_to_milliseconds() {
    let cfg = CycleConfig::from_minutes(25, 5, 30, 4).unwrap();
    assert_eq!(cfg.task_ms, 25 * 60_000);
    assert_eq!(cfg.short_break_ms, 5 * 60_000);
    assert_eq!(cfg.long_break_ms, 30 * 60_000);
    assert_eq!(cfg.max_short_breaks, 4);
}

#[test]
fn config_rejects_zero_or_oversized_durations() {
    assert_eq!(
        CycleConfig::from_minutes(0, 5, 30, 4),
        Err(CoreError::BadDuration)
    );
    assert_eq!(
        CycleConfig::from_minutes(25, 0, 30, 4),
        Err(CoreError::BadDuration)
    );
    assert_eq!(
        CycleConfig::from_minutes(25, 5, 1_000_001, 4),
        Err(CoreError::BadDuration)
    );
    assert_eq!(
        CycleConfig::from_minutes(25, 5, 30, 0),
        Err(CoreError::BadDuration)
    );
}

#[test]
fn two_hundred_forty_ticks_complete_one_minute_of_task_time() {
    // 240 ticks of 250 ms are exactly one minute: the task phase ends on
    // the last of them and a short break begins
    let cfg = one_minute_config();
    let mut s = CycleState::initial();
    for i in 0..239 {
        let out = s.tick(&cfg);
        assert_eq!(out, TickOutcome::Running, "tick {}", i);
        assert_eq!(s.phase, Phase::TaskTime);
    }
    assert_eq!(s.progress_ms, 239 * 250);
    let out = s.tick(&cfg);
    assert_eq!(out, TickOutcome::TaskDone);
    assert_eq!(s.phase, Phase::ShortBreak);
    assert_eq!(s.progress_ms, 0);
}

fn finish_phase(s: &mut CycleState, cfg: &CycleConfig) -> TickOutcome {
    s.fast_forward(cfg);
    s.tick(cfg)
}

#[test]
fn long_break_comes_after_the_configured_short_breaks_and_resets_the_count() {
    let cfg = CycleConfig::from_minutes(1, 1, 1, 2).unwrap();
    let mut s = CycleState::initial();

    // two rounds of task time ending in short breaks
    for round in 0..2 {
        assert_eq!(finish_phase(&mut s, &cfg), TickOutcome::TaskDone, "round {}", round);
        assert_eq!(s.phase, Phase::ShortBreak);
        assert_eq!(finish_phase(&mut s, &cfg), TickOutcome::ShortBreakDone);
        assert_eq!(s.phase, Phase::TaskTime);
        assert_eq!(s.short_breaks, round + 1);
    }

    // the bound is reached: the next finished task leads into the long break
    assert_eq!(s.short_breaks, 2);
    assert_eq!(finish_phase(&mut s, &cfg), TickOutcome::TaskDone);
    assert_eq!(s.phase, Phase::LongBreak);
    // the count resets only once the long break itself completes
    assert_eq!(s.short_breaks, 2);
    assert_eq!(finish_phase(&mut s, &cfg), TickOutcome::LongBreakDone);
    assert_eq!(s.phase, Phase::TaskTime);
    assert_eq!(s.short_breaks, 0);
}

#[test]
fn pause_freezes_progress_exactly_and_resume_continues_from_it() {
    let cfg = one_minute_config();
    let mut s = CycleState::initial();
    for _ in 0..10 {
        s.tick(&cfg);
    }
    let frozen = s.progress_ms;
    s.pause_toggle();
    for _ in 0..50 {
        assert_eq!(s.tick(&cfg), TickOutcome::Idle);
        assert_eq!(s.progress_ms, frozen);
    }
    s.pause_toggle();
    assert_eq!(s.progress_ms, frozen);
    s.tick(&cfg);
    assert_eq!(s.progress_ms, frozen + 250);
}

#[test]
fn fast_forward_forces_the_phase_to_its_end() {
    let cfg = one_minute_config();
    let mut s = CycleState::initial();
    s.fast_forward(&cfg);
    assert_eq!(s.progress_ms, cfg.task_ms);
    assert_eq!(s.phase, Phase::TaskTime);
    assert_eq!(s.tick(&cfg), TickOutcome::TaskDone);
    assert_eq!(s.phase, Phase::ShortBreak);
}

#[test]
fn task_actions_are_honoured_only_during_unpaused_task_time() {
    let cfg = one_minute_config();
    let mut s = CycleState::initial();
    assert!(s.can_act_on_task());
    s.pause_toggle();
    assert!(!s.can_act_on_task());
    s.pause_toggle();
    finish_phase(&mut s, &cfg);
    assert_eq!(s.phase, Phase::ShortBreak);
    assert!(!s.can_act_on_task());
}
