use vstd::prelude::*;
use crate::errors::CoreError;

verus! {

/// Length of one timer tick, in milliseconds: the unit of progress accrual.
pub const TICK_MS: u64 = 250;

/// Milliseconds per minute; phase durations are configured in minutes.
pub const MS_PER_MINUTE: u64 = 60_000;

/// The longest supported phase duration, in minutes.
pub const MAX_PHASE_MINUTES: u64 = 1_000_000;

/// The three phases the timer cycles through.
#[derive(Clone, Copy, Debug, PartialEq, Eq, Structural)]
pub enum Phase {
    /// Working on the currently selected task.
    TaskTime,
    /// A short pause between tasks.
    ShortBreak,
    /// The long pause that follows a run of short breaks.
    LongBreak,
}

/// The fixed timing plan of the cycle, all durations in milliseconds.
#[derive(Clone, Copy, Debug, PartialEq, Eq, Structural)]
pub struct CycleConfig {
    /// How long one task phase lasts.
    pub task_ms: u64,
    /// How long a short break lasts.
    pub short_break_ms: u64,
    /// How long the long break lasts.
    pub long_break_ms: u64,
    /// How many short breaks are taken before a long break is due.
    pub max_short_breaks: u64,
}

/// The mutable state of the break cycle.
#[derive(Clone, Copy, Debug, PartialEq, Eq, Structural)]
pub struct CycleState {
    /// The phase the timer is in.
    pub phase: Phase,
    /// Elapsed time inside the current phase, in milliseconds.
    pub progress_ms: u64,
    /// Short breaks completed since the last long break.
    pub short_breaks: u64,
    /// While set, ticks accrue no progress.
    pub paused: bool,
}

/// What one tick did, so the caller knows when to ring, notify, count a
/// finished task, or draw the next one.
#[derive(Clone, Copy, Debug, PartialEq, Eq, Structural)]
pub enum TickOutcome {
    /// The timer is paused; nothing moved.
    Idle,
    /// Progress accrued; the phase goes on.
    Running,
    /// The task phase ended; a break begins and the finished task counts.
    TaskDone,
    /// A short break ended; a fresh task must be drawn.
    ShortBreakDone,
    /// The long break ended; the short-break run restarts and a fresh task
    /// must be drawn.
    LongBreakDone,
}

/// The duration of the given phase under the given plan.
pub open spec fn phase_duration(cfg: CycleConfig, p: Phase) -> int {
    match p {
        Phase::TaskTime => cfg.task_ms as int,
        Phase::ShortBreak => cfg.short_break_ms as int,
        Phase::LongBreak => cfg.long_break_ms as int,
    }
}

impl CycleConfig {
    /// A usable plan: every duration positive and within the supported
    /// horizon, so progress arithmetic stays inside a machine word.
    pub open spec fn wf(self) -> bool {
        &&& 0 < self.task_ms <= MAX_PHASE_MINUTES * MS_PER_MINUTE
        &&& 0 < self.short_break_ms <= MAX_PHASE_MINUTES * MS_PER_MINUTE
        &&& 0 < self.long_break_ms <= MAX_PHASE_MINUTES * MS_PER_MINUTE
        &&& self.max_short_breaks < u64::MAX
    }

    /// Build the plan from the configured values, all in whole minutes.
    ///
    /// Rejects, as the configuration contract demands, any value that is
    /// zero or beyond the supported horizon.
    pub fn from_minutes(
        task_time: u64,
        min_break_time: u64,
        max_break_time: u64,
        maxno_min_breaks: u64,
    ) -> (r: Result<CycleConfig, CoreError>)
        ensures
            match r {
                Ok(cfg) => {
                    &&& 1 <= task_time <= MAX_PHASE_MINUTES
                    &&& 1 <= min_break_time <= MAX_PHASE_MINUTES
                    &&& 1 <= max_break_time <= MAX_PHASE_MINUTES
                    &&& 1 <= maxno_min_breaks < u64::MAX
                    &&& cfg.task_ms == task_time * MS_PER_MINUTE
                    &&& cfg.short_break_ms == min_break_time * MS_PER_MINUTE
                    &&& cfg.long_break_ms == max_break_time * MS_PER_MINUTE
                    &&& cfg.max_short_breaks == maxno_min_breaks
                    &&& cfg.wf()
                },
                Err(e) => {
                    &&& e == CoreError::BadDuration
                    &&& !(1 <= task_time <= MAX_PHASE_MINUTES && 1 <= min_break_time
                        <= MAX_PHASE_MINUTES && 1 <= max_break_time <= MAX_PHASE_MINUTES && 1
                        <= maxno_min_breaks < u64::MAX)
                },
            },
    {
        if task_time == 0 || task_time > MAX_PHASE_MINUTES || min_break_time == 0
            || min_break_time > MAX_PHASE_MINUTES || max_break_time == 0 || max_break_time
            > MAX_PHASE_MINUTES || maxno_min_breaks == 0 || maxno_min_breaks == u64::MAX {
            return Err(CoreError::BadDuration);
        }
        proof {
            vstd::arithmetic::mul::lemma_mul_inequality(
                task_time as int,
                MAX_PHASE_MINUTES as int,
                MS_PER_MINUTE as int,
            );
            vstd::arithmetic::mul::lemma_mul_inequality(
                min_break_time as int,
                MAX_PHASE_MINUTES as int,
                MS_PER_MINUTE as int,
            );
            vstd::arithmetic::mul::lemma_mul_inequality(
                max_break_time as int,
                MAX_PHASE_MINUTES as int,
                MS_PER_MINUTE as int,
            );
            vstd::arithmetic::mul::lemma_mul_strictly_positive(task_time as int, MS_PER_MINUTE as int);
            vstd::arithmetic::mul::lemma_mul_strictly_positive(
                min_break_time as int,
                MS_PER_MINUTE as int,
            );
            vstd::arithmetic::mul::lemma_mul_strictly_positive(
                max_break_time as int,
                MS_PER_MINUTE as int,
            );
        }
        Ok(
            CycleConfig {
                task_ms: task_time * MS_PER_MINUTE,
                short_break_ms: min_break_time * MS_PER_MINUTE,
                long_break_ms: max_break_time * MS_PER_MINUTE,
                max_short_breaks: maxno_min_breaks,
            },
        )
    }
}

impl CycleState {
    /// The state invariant: progress never passes the phase's duration, the
    /// short-break count never passes its bound, and a short break can only
    /// be under way while the bound has not been reached.
    pub open spec fn wf(self, cfg: CycleConfig) -> bool {
        &&& self.progress_ms <= phase_duration(cfg, self.phase)
        &&& self.short_breaks <= cfg.max_short_breaks
        &&& (self.phase is ShortBreak ==> self.short_breaks < cfg.max_short_breaks)
    }

    /// The state at process start: task time, no progress, no short breaks
    /// taken, not paused.
    pub open spec fn spec_initial() -> CycleState {
        CycleState { phase: Phase::TaskTime, progress_ms: 0, short_breaks: 0, paused: false }
    }

    /// Build the starting state.
    pub fn initial() -> (s: CycleState)
        ensures
            s == CycleState::spec_initial(),
            forall|cfg: CycleConfig| cfg.wf() ==> s.wf(cfg),
    {
        CycleState { phase: Phase::TaskTime, progress_ms: 0, short_breaks: 0, paused: false }
    }
}

/// The state one tick later: the whole transition table as one function.
pub open spec fn next_cycle(cfg: CycleConfig, s: CycleState) -> CycleState {
    if s.paused {
        s
    } else {
        let p = s.progress_ms + TICK_MS;
        if p < phase_duration(cfg, s.phase) {
            CycleState { progress_ms: p as u64, ..s }
        } else {
            match s.phase {
                Phase::TaskTime => CycleState {
                    phase: if s.short_breaks >= cfg.max_short_breaks {
                        Phase::LongBreak
                    } else {
                        Phase::ShortBreak
                    },
                    progress_ms: 0,
                    short_breaks: s.short_breaks,
                    paused: false,
                },
                Phase::ShortBreak => CycleState {
                    phase: Phase::TaskTime,
                    progress_ms: 0,
                    short_breaks: (s.short_breaks + 1) as u64,
                    paused: false,
                },
                Phase::LongBreak => CycleState {
                    phase: Phase::TaskTime,
                    progress_ms: 0,
                    short_breaks: 0,
                    paused: false,
                },
            }
        }
    }
}

/// What the tick that makes that transition reports.
pub open spec fn tick_outcome(cfg: CycleConfig, s: CycleState) -> TickOutcome {
    if s.paused {
        TickOutcome::Idle
    } else if s.progress_ms + TICK_MS < phase_duration(cfg, s.phase) {
        TickOutcome::Running
    } else {
        match s.phase {
            Phase::TaskTime => TickOutcome::TaskDone,
            Phase::ShortBreak => TickOutcome::ShortBreakDone,
            Phase::LongBreak => TickOutcome::LongBreakDone,
        }
    }
}

/// The same state with the paused flag flipped: what one press of the
/// pause key does.
pub open spec fn toggled(s: CycleState) -> CycleState {
    CycleState { paused: !s.paused, ..s }
}

/// The state after `n` ticks.
pub open spec fn run_ticks(cfg: CycleConfig, s: CycleState, n: nat) -> CycleState
    decreases n,
{
    if n == 0 {
        s
    } else {
        next_cycle(cfg, run_ticks(cfg, s, (n - 1) as nat))
    }
}

impl CycleState {
    /// Advance the timer by one tick of `TICK_MS`.
    ///
    /// While paused nothing changes at all.  Otherwise progress accrues, and
    /// a phase whose duration is reached ends: a finished task phase leads
    /// to a short break, or to the long break once the short-break bound has
    /// been reached; a finished short break counts itself and returns to
    /// task time; the finished long break clears the count and returns to
    /// task time.
    pub fn tick(&mut self, cfg: &CycleConfig) -> (out: TickOutcome)
        requires
            old(self).wf(*cfg),
            cfg.wf(),
        ensures
            *final(self) == next_cycle(*cfg, *old(self)),
            out == tick_outcome(*cfg, *old(self)),
            final(self).wf(*cfg),
            old(self).paused ==> *final(self) == *old(self),
    {
        if self.paused {
            return TickOutcome::Idle;
        }
        let dur: u64 = match self.phase {
            Phase::TaskTime => cfg.task_ms,
            Phase::ShortBreak => cfg.short_break_ms,
            Phase::LongBreak => cfg.long_break_ms,
        };
        let p = self.progress_ms + TICK_MS;
        if p < dur {
            self.progress_ms = p;
            return TickOutcome::Running;
        }
        self.progress_ms = 0;
        match self.phase {
            Phase::TaskTime => {
                if self.short_breaks >= cfg.max_short_breaks {
                    self.phase = Phase::LongBreak;
                } else {
                    self.phase = Phase::ShortBreak;
                }
                TickOutcome::TaskDone
            },
            Phase::ShortBreak => {
                self.phase = Phase::TaskTime;
                self.short_breaks = self.short_breaks + 1;
                TickOutcome::ShortBreakDone
            },
            Phase::LongBreak => {
                self.phase = Phase::TaskTime;
                self.short_breaks = 0;
                TickOutcome::LongBreakDone
            },
        }
    }

    /// Flip the paused flag; legal in any state, and touches nothing else.
    pub fn pause_toggle(&mut self)
        ensures
            *final(self) == toggled(*old(self)),
    {
        self.paused = !self.paused;
    }

    /// Force the current phase to its very end, so the next unpaused tick
    /// completes it.
    pub fn fast_forward(&mut self, cfg: &CycleConfig)
        requires
            old(self).wf(*cfg),
            cfg.wf(),
        ensures
            final(self).progress_ms == phase_duration(*cfg, old(self).phase),
            final(self).phase == old(self).phase,
            final(self).short_breaks == old(self).short_breaks,
            final(self).paused == old(self).paused,
            final(self).wf(*cfg),
    {
        self.progress_ms = match self.phase {
            Phase::TaskTime => cfg.task_ms,
            Phase::ShortBreak => cfg.short_break_ms,
            Phase::LongBreak => cfg.long_break_ms,
        };
    }

    /// Whether a user action on the current task (complete or reroll) is
    /// honoured now: only during unpaused task time.
    pub fn can_act_on_task(&self) -> (r: bool)
        ensures
            r == (self.phase is TaskTime && !self.paused),
    {
        matches!(self.phase, Phase::TaskTime) && !self.paused
    }
}

/// How many of the first `n` ticks complete a short break.
pub open spec fn short_breaks_completed(cfg: CycleConfig, s: CycleState, n: nat) -> int
    decreases n,
{
    if n == 0 {
        0
    } else {
        short_breaks_completed(cfg, s, (n - 1) as nat) + if tick_outcome(
            cfg,
            run_ticks(cfg, s, (n - 1) as nat),
        ) is ShortBreakDone {
            1int
        } else {
            0int
        }
    }
}

/// Whether any of the first `n` ticks completes the long break.
pub open spec fn long_break_completed(cfg: CycleConfig, s: CycleState, n: nat) -> bool
    decreases n,
{
    if n == 0 {
        false
    } else {
        long_break_completed(cfg, s, (n - 1) as nat) || tick_outcome(
            cfg,
            run_ticks(cfg, s, (n - 1) as nat),
        ) is LongBreakDone
    }
}

/// One transition keeps the state invariant.
pub proof fn lemma_next_cycle_wf(cfg: CycleConfig, s: CycleState)
    requires
        cfg.wf(),
        s.wf(cfg),
    ensures
        next_cycle(cfg, s).wf(cfg),
{
}

/// Any run of ticks keeps the state invariant.
pub proof fn lemma_run_ticks_wf(cfg: CycleConfig, s: CycleState, n: nat)
    requires
        cfg.wf(),
        s.wf(cfg),
    ensures
        run_ticks(cfg, s, n).wf(cfg),
    decreases n,
{
    if n > 0 {
        lemma_run_ticks_wf(cfg, s, (n - 1) as nat);
        lemma_next_cycle_wf(cfg, run_ticks(cfg, s, (n - 1) as nat));
    }
}

/// Law: as long as the long break never completes, consecutive short-break
/// completions accumulate one by one in the count, which is how it comes to
/// reach the configured bound.
pub proof fn lemma_counter_counts_short_breaks(cfg: CycleConfig, s: CycleState, n: nat)
    requires
        cfg.wf(),
        s.wf(cfg),
        !long_break_completed(cfg, s, n),
    ensures
        run_ticks(cfg, s, n).short_breaks == s.short_breaks + short_breaks_completed(cfg, s, n),
    decreases n,
{
    if n > 0 {
        lemma_counter_counts_short_breaks(cfg, s, (n - 1) as nat);
        lemma_run_ticks_wf(cfg, s, (n - 1) as nat);
        lemma_counter_resets_only_on_long_break(cfg, run_ticks(cfg, s, (n - 1) as nat));
    }
}

/// Law: ticks that stop short of the phase's end do nothing but accrue
/// their exact time, one tick's worth each.
pub proof fn lemma_ticks_accrue_progress(cfg: CycleConfig, s: CycleState, n: nat)
    requires
        cfg.wf(),
        s.wf(cfg),
        !s.paused,
        s.progress_ms + n * TICK_MS < phase_duration(cfg, s.phase),
    ensures
        run_ticks(cfg, s, n) == (CycleState {
            progress_ms: (s.progress_ms + n * TICK_MS) as u64,
            ..s
        }),
    decreases n,
{
    if n == 0 {
        assert(run_ticks(cfg, s, 0) == s);
        assert((CycleState { progress_ms: (s.progress_ms + 0 * TICK_MS) as u64, ..s }) == s);
    } else {
        assert((n - 1) * TICK_MS == n * TICK_MS - TICK_MS) by (nonlinear_arith);
        lemma_ticks_accrue_progress(cfg, s, (n - 1) as nat);
    }
}

/// Law: once the short-break bound is reached, the task phase that ends
/// next leads into the long break, and the count does not move with it.
pub proof fn lemma_long_break_after_max_short_breaks(cfg: CycleConfig, s: CycleState)
    requires
        cfg.wf(),
        s.wf(cfg),
        s.phase is TaskTime,
        !s.paused,
        s.short_breaks == cfg.max_short_breaks,
        s.progress_ms + TICK_MS >= cfg.task_ms,
    ensures
        next_cycle(cfg, s).phase is LongBreak,
        next_cycle(cfg, s).short_breaks == s.short_breaks,
{
}

/// Law: the short-break count falls back to zero only when the long break
/// completes; a completing short break raises it by one, and every other
/// step leaves it alone.
pub proof fn lemma_counter_resets_only_on_long_break(cfg: CycleConfig, s: CycleState)
    requires
        cfg.wf(),
        s.wf(cfg),
    ensures
        tick_outcome(cfg, s) is LongBreakDone ==> next_cycle(cfg, s).short_breaks == 0,
        tick_outcome(cfg, s) is ShortBreakDone ==> next_cycle(cfg, s).short_breaks == s.short_breaks
            + 1,
        !(tick_outcome(cfg, s) is LongBreakDone) && !(tick_outcome(cfg, s) is ShortBreakDone)
            ==> next_cycle(cfg, s).short_breaks == s.short_breaks,
        next_cycle(cfg, s).short_breaks < s.short_breaks ==> tick_outcome(cfg, s) is LongBreakDone,
{
}

/// Law: while paused, any number of ticks leaves the state exactly where it
/// was, so resuming continues from the paused value with nothing lost or
/// gained.
pub proof fn lemma_pause_freezes(cfg: CycleConfig, s: CycleState, n: nat)
    requires
        s.paused,
    ensures
        run_ticks(cfg, s, n) == s,
    decreases n,
{
    if n > 0 {
        lemma_pause_freezes(cfg, s, (n - 1) as nat);
    }
}

/// Law: pausing and resuming is exact: the second toggle restores the
/// state, and neither toggle touches progress, phase or the short-break
/// count, so accrual resumes at exactly the paused value.
pub proof fn lemma_pause_resume_roundtrip(s: CycleState)
    ensures
        toggled(toggled(s)) == s,
        toggled(s).progress_ms == s.progress_ms,
        toggled(s).phase == s.phase,
        toggled(s).short_breaks == s.short_breaks,
{
}

} // verus!
