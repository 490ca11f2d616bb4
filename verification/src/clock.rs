//! The stopwatch: its state, the three operations that steer it, and what
//! its runner does on every tick.

use crate::display::{lemma_two_digit_field, with_integer, DisplayCommand};
use crate::segments::{DIGIT_COUNT, SYM_BLANK, SYM_COLON};
use vstd::arithmetic::div_mod::lemma_div_denominator;
use vstd::prelude::*;

verus! {

/// Milliseconds between two ticks of the runner; two ticks make a second.
pub const TICK_MILLIS: u64 = 500;

/// What the clock is doing.
#[derive(Clone, Copy, Debug, PartialEq, Eq, Structural)]
pub enum ClockState {
    /// Just switched on; the runner shows the splash.
    Startup,
    /// Showing the time of day. Nothing enters this state.
    Time,
    /// The stopwatch stands still.
    StopWatchStopped,
    /// The stopwatch counts.
    StopWatchRunning,
}

/// The clock as the contracts see it.
pub struct Clock {
    pub state: ClockState,
    /// Half seconds counted so far.
    pub run_time: nat,
}

impl Clock {
    /// The clock after the stopwatch is started.
    pub open spec fn started(self) -> Clock {
        Clock { state: ClockState::StopWatchRunning, ..self }
    }

    /// The clock after the stopwatch is stopped.
    pub open spec fn stopped(self) -> Clock {
        Clock { state: ClockState::StopWatchStopped, ..self }
    }

    /// The clock after the stopwatch is reset.
    pub open spec fn cleared(self) -> Clock {
        Clock { state: ClockState::StopWatchStopped, run_time: 0 }
    }

    /// The clock after one tick of a runner that saw the state `observed`
    /// when the tick began.
    pub open spec fn ticked(self, observed: ClockState) -> Clock {
        if observed == ClockState::StopWatchRunning {
            Clock { run_time: self.run_time + 1, ..self }
        } else {
            self
        }
    }

    /// The clock after `n` ticks with nothing steering it in between.
    pub open spec fn ticked_times(self, n: nat) -> Clock
        decreases n,
    {
        if n == 0 {
            self
        } else {
            let before = self.ticked_times((n - 1) as nat);
            before.ticked(before.state)
        }
    }
}

/// Whole seconds in `run_time` half seconds, less the whole minutes.
pub open spec fn seconds_field(run_time: nat) -> nat {
    (run_time / 2) % 60
}

/// Whole minutes in `run_time` half seconds.
pub open spec fn minutes_field(run_time: nat) -> nat {
    (run_time / 2) / 60
}

/// One thing that the runner does.
#[derive(Clone, Copy, Debug, PartialEq, Eq, Structural)]
pub enum RunnerAction {
    /// Change what the display shows.
    Show(DisplayCommand),
    /// Wait for the next tick.
    WaitTick,
}

/// What the runner does in one round, given the state it saw when the round
/// began and the run time after the tick was counted.
pub open spec fn runner_actions(observed: ClockState, run_time: nat) -> Seq<RunnerAction> {
    match observed {
        ClockState::Startup => seq![
            RunnerAction::Show(DisplayCommand::SetSymRange { start: 0, end: 4, sym: SYM_BLANK }),
            RunnerAction::Show(DisplayCommand::SetSym { pos: 4, sym: SYM_COLON }),
            RunnerAction::WaitTick,
            RunnerAction::Show(DisplayCommand::SetSymRange { start: 0, end: 5, sym: SYM_BLANK }),
            RunnerAction::WaitTick,
        ],
        ClockState::Time => seq![RunnerAction::WaitTick],
        ClockState::StopWatchStopped | ClockState::StopWatchRunning => seq![
            RunnerAction::Show(DisplayCommand::SetSym { pos: 4, sym: SYM_COLON }),
            RunnerAction::Show(
                DisplayCommand::SetInt { start: 2, end: 4, val: seconds_field(run_time) as u16 },
            ),
            RunnerAction::Show(
                DisplayCommand::SetInt {
                    start: 0,
                    end: 2,
                    val: (minutes_field(run_time) % 100) as u16,
                },
            ),
            RunnerAction::WaitTick,
        ],
    }
}

/// What the display shows after the actions, taken in order.
pub open spec fn shown_after(syms: Seq<u8>, actions: Seq<RunnerAction>) -> Seq<u8>
    decreases actions.len(),
{
    if actions.len() == 0 {
        syms
    } else {
        let before = shown_after(syms, actions.drop_last());
        match actions.last() {
            RunnerAction::Show(command) => command.applied(before),
            RunnerAction::WaitTick => before,
        }
    }
}

/// The clock state and the only operations, besides the runner's tick, that
/// change it.
pub struct ClockControl {
    state: ClockState,
    run_time: u32,
}

impl View for ClockControl {
    type V = Clock;

    closed spec fn view(&self) -> Clock {
        Clock { state: self.state, run_time: self.run_time as nat }
    }
}

/// A clock that was just switched on.
pub fn new() -> (clock: ClockControl)
    ensures
        clock@ == (Clock { state: ClockState::Startup, run_time: 0 }),
{
    ClockControl { state: ClockState::Startup, run_time: 0 }
}

impl ClockControl {
    /// What the clock is doing.
    pub fn state(&self) -> (state: ClockState)
        ensures
            state == self@.state,
    {
        self.state
    }

    /// Half seconds counted so far.
    pub fn run_time(&self) -> (run_time: u32)
        ensures
            run_time == self@.run_time,
    {
        self.run_time
    }

    /// Lets the stopwatch count, whatever it did before.
    pub fn stopwatch_start(&mut self)
        ensures
            final(self)@ == old(self)@.started(),
    {
        self.state = ClockState::StopWatchRunning;
    }

    /// Halts the stopwatch and keeps what it counted.
    pub fn stopwatch_stop(&mut self)
        ensures
            final(self)@ == old(self)@.stopped(),
    {
        self.state = ClockState::StopWatchStopped;
    }

    /// Halts the stopwatch and sets it back to zero, both at once.
    pub fn stopwatch_reset(&mut self)
        ensures
            final(self)@ == old(self)@.cleared(),
            final(self)@.state == ClockState::StopWatchStopped,
            final(self)@.run_time == 0,
    {
        self.state = ClockState::StopWatchStopped;
        self.run_time = 0;
    }
}

/// One round of the runner.
///
/// `observed` is the state that the runner read when the round began. A
/// running stopwatch counts one tick. The returned actions are to be carried
/// out in order: they show the splash while the clock starts up, and the
/// minutes and seconds of the stopwatch otherwise, and end with the wait for
/// the next tick.
pub fn clock_runner(clock: &mut ClockControl, observed: ClockState) -> (actions: Vec<RunnerAction>)
    requires
        observed == ClockState::StopWatchRunning ==> old(clock)@.run_time < u32::MAX,
    ensures
        final(clock)@ == old(clock)@.ticked(observed),
        actions@ == runner_actions(observed, final(clock)@.run_time),
        forall|i: int|
            0 <= i < actions@.len() ==> (#[trigger] actions@[i] matches RunnerAction::Show(command)
                ==> command.valid()),
{
    let mut actions: Vec<RunnerAction> = Vec::new();
    match observed {
        ClockState::Startup => {
            actions.push(
                RunnerAction::Show(
                    DisplayCommand::SetSymRange { start: 0, end: 4, sym: SYM_BLANK },
                ),
            );
            actions.push(RunnerAction::Show(DisplayCommand::SetSym { pos: 4, sym: SYM_COLON }));
            actions.push(RunnerAction::WaitTick);
            actions.push(
                RunnerAction::Show(
                    DisplayCommand::SetSymRange { start: 0, end: 5, sym: SYM_BLANK },
                ),
            );
        },
        ClockState::StopWatchStopped | ClockState::StopWatchRunning => {
            let mut run_time: u32 = clock.run_time;
            if observed == ClockState::StopWatchRunning {
                run_time = run_time + 1;
                clock.run_time = run_time;
            }
            proof {
                lemma_div_denominator(run_time as int, 2, 60);
            }
            let seconds: u16 = ((run_time / 2) % 60) as u16;
            let minutes: u16 = ((run_time / (2 * 60)) % 100) as u16;
            actions.push(RunnerAction::Show(DisplayCommand::SetSym { pos: 4, sym: SYM_COLON }));
            actions.push(
                RunnerAction::Show(DisplayCommand::SetInt { start: 2, end: 4, val: seconds }),
            );
            actions.push(
                RunnerAction::Show(DisplayCommand::SetInt { start: 0, end: 2, val: minutes }),
            );
        },
        ClockState::Time => {},
    }
    actions.push(RunnerAction::WaitTick);
    assert(actions@ =~= runner_actions(observed, clock@.run_time));
    actions
}

/// Stopping a stopwatch that was just stopped changes nothing, and so does
/// starting one that was just started.
pub proof fn lemma_stop_start_idempotent(clock: Clock)
    ensures
        clock.stopped().stopped() == clock.stopped(),
        clock.started().started() == clock.started(),
        clock.stopped().run_time == clock.run_time,
        clock.started().run_time == clock.run_time,
{
}

/// A running stopwatch counts every tick: after `n` ticks it still runs and
/// its run time has grown by exactly `n`.
pub proof fn lemma_running_counts(clock: Clock, n: nat)
    requires
        clock.state == ClockState::StopWatchRunning,
    ensures
        clock.ticked_times(n) == (Clock { run_time: clock.run_time + n, ..clock }),
    decreases n,
{
    if n > 0 {
        lemma_running_counts(clock, (n - 1) as nat);
    }
}

/// A clock that is not running counts nothing: ticks leave it as it is.
pub proof fn lemma_idle_keeps(clock: Clock, n: nat)
    requires
        clock.state != ClockState::StopWatchRunning,
    ensures
        clock.ticked_times(n) == clock,
    decreases n,
{
    if n > 0 {
        lemma_idle_keeps(clock, (n - 1) as nat);
    }
}

/// After a start, `n` ticks add exactly `n` to the run time; after a stop,
/// ticks add nothing.
pub proof fn lemma_start_then_stop(clock: Clock, n: nat)
    ensures
        clock.started().ticked_times(n).run_time == clock.run_time + n,
        clock.stopped().ticked_times(n) == clock.stopped(),
        clock.cleared().ticked_times(n) == clock.cleared(),
{
    lemma_running_counts(clock.started(), n);
    lemma_idle_keeps(clock.stopped(), n);
    lemma_idle_keeps(clock.cleared(), n);
}

/// The run time never goes down from tick to tick.
pub proof fn lemma_ticks_monotone(clock: Clock, n: nat)
    ensures
        clock.ticked_times(n).run_time >= clock.run_time,
        clock.ticked_times(n).state == clock.state,
    decreases n,
{
    if n > 0 {
        lemma_ticks_monotone(clock, (n - 1) as nat);
    }
}

/// One more action shows what it does to the display the earlier ones left.
pub proof fn lemma_shown_push(syms: Seq<u8>, actions: Seq<RunnerAction>, action: RunnerAction)
    ensures
        shown_after(syms, actions.push(action)) == match action {
            RunnerAction::Show(command) => command.applied(shown_after(syms, actions)),
            RunnerAction::WaitTick => shown_after(syms, actions),
        },
{
    assert(actions.push(action).drop_last() =~= actions);
}

/// A round of the stopwatch, stopped or running, leaves on the display the
/// minutes in the two left positions, the seconds in the next two and the
/// colon in the last, whatever stood there before. Minutes beyond 99 lose
/// their leading digits.
pub proof fn lemma_stopwatch_display(syms: Seq<u8>, observed: ClockState, run_time: nat)
    requires
        syms.len() == DIGIT_COUNT,
        observed == ClockState::StopWatchStopped || observed == ClockState::StopWatchRunning,
        run_time <= u32::MAX,
    ensures
        shown_after(syms, runner_actions(observed, run_time)) == seq![
            ((minutes_field(run_time) / 10) % 10) as u8,
            (minutes_field(run_time) % 10) as u8,
            (seconds_field(run_time) / 10) as u8,
            (seconds_field(run_time) % 10) as u8,
            SYM_COLON,
        ],
{
    let m = minutes_field(run_time);
    let s = seconds_field(run_time);
    let colon = RunnerAction::Show(DisplayCommand::SetSym { pos: 4, sym: SYM_COLON });
    let seconds = RunnerAction::Show(DisplayCommand::SetInt { start: 2, end: 4, val: s as u16 });
    let minutes = RunnerAction::Show(
        DisplayCommand::SetInt { start: 0, end: 2, val: (m % 100) as u16 },
    );
    let none = Seq::<RunnerAction>::empty();
    assert(runner_actions(observed, run_time) =~= none.push(colon).push(seconds).push(
        minutes,
    ).push(RunnerAction::WaitTick));
    lemma_shown_push(syms, none, colon);
    lemma_shown_push(syms, none.push(colon), seconds);
    lemma_shown_push(syms, none.push(colon).push(seconds), minutes);
    lemma_shown_push(syms, none.push(colon).push(seconds).push(minutes), RunnerAction::WaitTick);
    let after_colon = syms.update(4, SYM_COLON);
    let after_seconds = with_integer(after_colon, 2, 4, s);
    let after_minutes = with_integer(after_seconds, 0, 2, m);
    lemma_two_digit_field(after_colon, 2, s);
    lemma_two_digit_field(after_seconds, 0, m);
    assert(shown_after(syms, runner_actions(observed, run_time)) == after_minutes);
    assert(after_minutes =~= seq![
        ((m / 10) % 10) as u8,
        (m % 10) as u8,
        (s / 10) as u8,
        (s % 10) as u8,
        SYM_COLON,
    ]);
}

/// A round of the clock that starts up shows the splash, four blanks and the
/// colon, until the tick, and a blank display after it.
pub proof fn lemma_startup_display(syms: Seq<u8>)
    requires
        syms.len() == DIGIT_COUNT,
    ensures
        shown_after(syms, runner_actions(ClockState::Startup, 0).subrange(0, 3)) == seq![
            SYM_BLANK,
            SYM_BLANK,
            SYM_BLANK,
            SYM_BLANK,
            SYM_COLON,
        ],
        shown_after(syms, runner_actions(ClockState::Startup, 0)) == seq![
            SYM_BLANK,
            SYM_BLANK,
            SYM_BLANK,
            SYM_BLANK,
            SYM_BLANK,
        ],
{
    let blank_four = RunnerAction::Show(
        DisplayCommand::SetSymRange { start: 0, end: 4, sym: SYM_BLANK },
    );
    let colon = RunnerAction::Show(DisplayCommand::SetSym { pos: 4, sym: SYM_COLON });
    let blank_all = RunnerAction::Show(
        DisplayCommand::SetSymRange { start: 0, end: 5, sym: SYM_BLANK },
    );
    let none = Seq::<RunnerAction>::empty();
    let splash = none.push(blank_four).push(colon).push(RunnerAction::WaitTick);
    assert(runner_actions(ClockState::Startup, 0).subrange(0, 3) =~= splash);
    assert(runner_actions(ClockState::Startup, 0) =~= splash.push(blank_all).push(
        RunnerAction::WaitTick,
    ));
    lemma_shown_push(syms, none, blank_four);
    lemma_shown_push(syms, none.push(blank_four), colon);
    lemma_shown_push(syms, none.push(blank_four).push(colon), RunnerAction::WaitTick);
    lemma_shown_push(syms, splash, blank_all);
    lemma_shown_push(syms, splash.push(blank_all), RunnerAction::WaitTick);
    assert(shown_after(syms, splash) =~= seq![
        SYM_BLANK,
        SYM_BLANK,
        SYM_BLANK,
        SYM_BLANK,
        SYM_COLON,
    ]);
    assert(shown_after(syms, splash.push(blank_all).push(RunnerAction::WaitTick)) =~= seq![
        SYM_BLANK,
        SYM_BLANK,
        SYM_BLANK,
        SYM_BLANK,
        SYM_BLANK,
    ]);
}

} // verus!
