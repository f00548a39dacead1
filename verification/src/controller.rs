//! The run controller: when a cycle runs, when the loop waits, and when it
//! ends.
//!
//! The controller waits for nothing itself. [`run`] is told what happened and
//! answers with what is to be done next; whoever drives it runs the cycles,
//! sleeps and watches the control signal. The signal is looked at only where
//! a wait ends, so a cycle that has begun always runs to its end.

use vstd::prelude::*;
use crate::config::Config;

verus! {

/// The control signal: what the loop is wanted to do.
#[derive(Clone, Copy, Debug, PartialEq, Eq, Structural)]
pub enum SignalType {
    Run,
    /// The loop is to end. Nothing that is sent later takes this back.
    Stop,
    /// No cycle is to begin until the signal is `Run` again.
    Pause,
}

/// How often the cycle is wanted.
#[derive(Clone, Copy, Debug, PartialEq, Eq, Structural)]
pub enum RunType {
    /// One cycle, then the run ends.
    Once,
    /// Cycle after cycle, with a delay between them, until the signal is
    /// `Stop`.
    Loops,
}

/// The state of a run.
#[derive(Clone, Copy, Debug, PartialEq, Eq, Structural)]
pub enum RunState {
    /// The run has not begun.
    Idle,
    /// Running: the runtime that carries the cycles is being constructed.
    Booting,
    /// Running: the interrupt handler is being registered.
    Arming,
    /// Running: the cycles of both families are in flight.
    Cycling,
    /// Running: the delay between two cycles is being waited out.
    Waiting,
    /// The signal was `Pause` when the delay ended; its change is awaited.
    Paused,
    /// The run has ended, for good.
    Stopped,
}

/// What happened since the controller last said what to do.
#[derive(Clone, Copy, Debug, PartialEq, Eq, Structural)]
pub enum RunEvent {
    /// The run is to begin.
    Start,
    /// The attempt to construct the runtime ended; `true` where it
    /// succeeded.
    RuntimeBuilt(bool),
    /// The attempt to register the interrupt handler ended; `true` where it
    /// succeeded.
    HandlerInstalled(bool),
    /// The cycles of both families are complete.
    CycleDone,
    /// A wait ended, and this was the control signal at that instant.
    Woke(SignalType),
}

/// What went wrong in setting a run up. Either is fatal: the run ends before
/// its first cycle.
#[derive(Clone, Copy, Debug, PartialEq, Eq, Structural)]
pub enum SetupError {
    /// The runtime could not be constructed.
    Runtime,
    /// The interrupt handler could not be registered.
    InterruptHandler,
}

/// Why a signal could not be sent. This is fatal to the one control
/// operation that met it, and to nothing else.
#[derive(Clone, Copy, Debug, PartialEq, Eq, Structural)]
pub enum ServiceControlError {
    /// The loop no longer listens to the signal.
    ChannelClosed,
}

/// What is to be done next.
#[derive(Clone, Copy, Debug, PartialEq, Eq, Structural)]
pub enum RunAction {
    /// Construct the runtime that carries the cycles, with several worker
    /// threads where the flag is set and with one where it is not, and report
    /// whether that succeeded.
    BuildRuntime(bool),
    /// Register a handler that sends `Stop` when the host asks the process to
    /// end, and report whether that succeeded.
    InstallHandler,
    /// Run the cycle of each family, both at once, and report when both are
    /// complete.
    Cycle,
    /// Wait until this many seconds have passed or the signal is `Stop`,
    /// whichever comes first, and report the signal.
    Delay(u64),
    /// Wait until the signal is no longer `Pause`, and report the signal.
    AwaitResume,
    /// End the run with success.
    Exit,
    /// End the run with this failure of its setup.
    Abort(SetupError),
    /// Nothing new: the event changes nothing.
    Nothing,
}

impl RunState {
    /// Whether the run has begun and neither pauses nor has ended.
    pub open spec fn is_running(self) -> bool {
        self == RunState::Booting || self == RunState::Arming || self == RunState::Cycling || self
            == RunState::Waiting
    }

    /// Whether the run has come past the start of its first cycle.
    pub open spec fn has_cycled(self) -> bool {
        self == RunState::Cycling || self == RunState::Waiting || self == RunState::Paused || self
            == RunState::Stopped
    }
}

/// The signal that stands after `signal` is sent while `current` stands:
/// `Stop` stays, anything else gives way.
pub open spec fn signal_after(current: SignalType, signal: SignalType) -> SignalType {
    if current == SignalType::Stop {
        SignalType::Stop
    } else {
        signal
    }
}

/// The signal that stands after each of `sent` is sent in turn.
pub open spec fn signal_after_all(current: SignalType, sent: Seq<SignalType>) -> SignalType
    decreases sent.len(),
{
    if sent.len() == 0 {
        current
    } else {
        signal_after(signal_after_all(current, sent.drop_last()), sent.last())
    }
}

/// What the end of a wait leads to, by the signal that stands then.
pub open spec fn on_wake(signal: SignalType) -> (RunState, RunAction) {
    match signal {
        SignalType::Stop => (RunState::Stopped, RunAction::Exit),
        SignalType::Pause => (RunState::Paused, RunAction::AwaitResume),
        SignalType::Run => (RunState::Cycling, RunAction::Cycle),
    }
}

/// One step of a run of `run_type` configured by `config`: the state after
/// `event` happens in `state`, and what is to be done then.
pub open spec fn run_step(run_type: RunType, config: Config, state: RunState, event: RunEvent) -> (
    RunState,
    RunAction,
) {
    match (state, event) {
        (RunState::Stopped, _) => (RunState::Stopped, RunAction::Exit),
        (RunState::Idle, RunEvent::Start) => (
            RunState::Booting,
            RunAction::BuildRuntime(config.mutli_thread),
        ),
        (RunState::Booting, RunEvent::RuntimeBuilt(built)) => if !built {
            (RunState::Stopped, RunAction::Abort(SetupError::Runtime))
        } else {
            match run_type {
                RunType::Once => (RunState::Cycling, RunAction::Cycle),
                RunType::Loops => (RunState::Arming, RunAction::InstallHandler),
            }
        },
        (RunState::Arming, RunEvent::HandlerInstalled(installed)) => if installed {
            (RunState::Cycling, RunAction::Cycle)
        } else {
            (RunState::Stopped, RunAction::Abort(SetupError::InterruptHandler))
        },
        (RunState::Cycling, RunEvent::CycleDone) => match run_type {
            RunType::Once => (RunState::Stopped, RunAction::Exit),
            RunType::Loops => (RunState::Waiting, RunAction::Delay(config.delay)),
        },
        (RunState::Waiting, RunEvent::Woke(signal)) => on_wake(signal),
        (RunState::Paused, RunEvent::Woke(signal)) => on_wake(signal),
        _ => (state, RunAction::Nothing),
    }
}

/// The states that a run goes through from `state` as `events` happen in
/// turn, with what is to be done after each.
pub open spec fn run_trace(
    run_type: RunType,
    config: Config,
    state: RunState,
    events: Seq<RunEvent>,
) -> Seq<(RunState, RunAction)>
    decreases events.len(),
{
    if events.len() == 0 {
        Seq::empty()
    } else {
        let before = run_trace(run_type, config, state, events.drop_last());
        let from = if before.len() == 0 {
            state
        } else {
            before.last().0
        };
        before.push(run_step(run_type, config, from, events.last()))
    }
}

/// Sends `signal` while `current` stands, to a loop that is `listening` or
/// not. Fails where nobody listens. Else returns the signal that stands then:
/// once it is `Stop`, a later `Pause` or `Run` has no effect.
pub fn send_service_signal(current: SignalType, signal: SignalType, listening: bool) -> (standing:
    Result<SignalType, ServiceControlError>)
    ensures
        standing == if listening {
            Ok::<SignalType, ServiceControlError>(signal_after(current, signal))
        } else {
            Err::<SignalType, ServiceControlError>(ServiceControlError::ChannelClosed)
        },
        listening && current == SignalType::Stop ==> standing == Ok::<
            SignalType,
            ServiceControlError,
        >(SignalType::Stop),
{
    if !listening {
        return Err(ServiceControlError::ChannelClosed);
    }
    match current {
        SignalType::Stop => Ok(SignalType::Stop),
        _ => Ok(signal),
    }
}

/// What the interrupt handler does to the signal when the host asks the
/// process to end: it makes it `Stop`, whatever it was.
pub fn system_signal_handler(current: SignalType) -> (standing: SignalType)
    ensures
        standing == SignalType::Stop,
        standing == signal_after(current, SignalType::Stop),
{
    SignalType::Stop
}

/// One step of a run: takes the state the run is in and what happened, and
/// returns the state it is in now and what is to be done next.
///
/// * Every run first has its runtime constructed, with several worker
///   threads or with one as `config` says, and ends with a failure if that
///   fails.
/// * A run of one cycle then starts its cycle, and ends when the cycle is
///   complete.
/// * A looping run then has the interrupt handler registered, and ends with
///   a failure if that fails. Then it repeats: cycle; wait out the
///   configured delay or the signal `Stop`; end on `Stop`, wait on while the
///   signal is `Pause`, cycle again on `Run`.
/// * A run that has ended stays ended, whatever happens.
/// * An event that does not belong to the state changes nothing.
pub fn run(run_type: RunType, config: &Config, state: RunState, event: RunEvent) -> (next: (
    RunState,
    RunAction,
))
    ensures
        next == run_step(run_type, *config, state, event),
{
    match state {
        RunState::Stopped => (RunState::Stopped, RunAction::Exit),
        RunState::Idle => match event {
            RunEvent::Start => (RunState::Booting, RunAction::BuildRuntime(config.mutli_thread)),
            _ => (state, RunAction::Nothing),
        },
        RunState::Booting => match event {
            RunEvent::RuntimeBuilt(true) => match run_type {
                RunType::Once => (RunState::Cycling, RunAction::Cycle),
                RunType::Loops => (RunState::Arming, RunAction::InstallHandler),
            },
            RunEvent::RuntimeBuilt(false) => (
                RunState::Stopped,
                RunAction::Abort(SetupError::Runtime),
            ),
            _ => (state, RunAction::Nothing),
        },
        RunState::Arming => match event {
            RunEvent::HandlerInstalled(true) => (RunState::Cycling, RunAction::Cycle),
            RunEvent::HandlerInstalled(false) => (
                RunState::Stopped,
                RunAction::Abort(SetupError::InterruptHandler),
            ),
            _ => (state, RunAction::Nothing),
        },
        RunState::Cycling => match event {
            RunEvent::CycleDone => match run_type {
                RunType::Once => (RunState::Stopped, RunAction::Exit),
                RunType::Loops => (RunState::Waiting, RunAction::Delay(config.delay)),
            },
            _ => (state, RunAction::Nothing),
        },
        RunState::Waiting | RunState::Paused => match event {
            RunEvent::Woke(SignalType::Stop) => (RunState::Stopped, RunAction::Exit),
            RunEvent::Woke(SignalType::Pause) => (RunState::Paused, RunAction::AwaitResume),
            RunEvent::Woke(SignalType::Run) => (RunState::Cycling, RunAction::Cycle),
            _ => (state, RunAction::Nothing),
        },
    }
}

/// Once the signal is `Stop` it stays `Stop`, whatever is sent after it and
/// however much.
pub proof fn lemma_stop_signal_is_final(sent: Seq<SignalType>)
    ensures
        signal_after_all(SignalType::Stop, sent) == SignalType::Stop,
    decreases sent.len(),
{
    if sent.len() > 0 {
        lemma_stop_signal_is_final(sent.drop_last());
    }
}

/// A run that has ended stays ended, and asks for nothing but to leave.
pub proof fn lemma_stopped_is_terminal(
    run_type: RunType,
    config: Config,
    events: Seq<RunEvent>,
    i: int,
)
    requires
        0 <= i < events.len(),
    ensures
        run_trace(run_type, config, RunState::Stopped, events).len() == events.len(),
        run_trace(run_type, config, RunState::Stopped, events)[i] == (
            RunState::Stopped,
            RunAction::Exit,
        ),
    decreases events.len(),
{
    let front = events.drop_last();
    lemma_trace_len(run_type, config, RunState::Stopped, events);
    lemma_trace_len(run_type, config, RunState::Stopped, front);
    if front.len() > 0 {
        lemma_stopped_is_terminal(run_type, config, front, front.len() - 1);
    }
    if i < front.len() {
        lemma_stopped_is_terminal(run_type, config, front, i);
    }
}

/// A trace holds one step for each event.
pub proof fn lemma_trace_len(
    run_type: RunType,
    config: Config,
    state: RunState,
    events: Seq<RunEvent>,
)
    ensures
        run_trace(run_type, config, state, events).len() == events.len(),
    decreases events.len(),
{
    if events.len() > 0 {
        lemma_trace_len(run_type, config, state, events.drop_last());
    }
}

/// Whether every wait among `events` ends with the signal `Stop`.
pub open spec fn wakes_on_stop_only(events: Seq<RunEvent>) -> bool {
    forall|i: int|
        0 <= i < events.len() ==> (#[trigger] events[i] matches RunEvent::Woke(signal)
            ==> signal == SignalType::Stop)
}

/// Once the signal is `Stop`, no cycle starts any more: in a run that is past
/// the start of its first cycle, and in which every wait ends on `Stop`, no
/// step asks for a cycle. A cycle that is in flight is left to complete.
pub proof fn lemma_no_cycle_after_stop(
    run_type: RunType,
    config: Config,
    state: RunState,
    events: Seq<RunEvent>,
    i: int,
)
    requires
        state.has_cycled(),
        wakes_on_stop_only(events),
        0 <= i < events.len(),
    ensures
        run_trace(run_type, config, state, events).len() == events.len(),
        run_trace(run_type, config, state, events)[i].1 != RunAction::Cycle,
        run_trace(run_type, config, state, events)[i].0.has_cycled(),
        run_trace(run_type, config, state, events)[i].0 != RunState::Paused || state
            == RunState::Paused,
    decreases events.len(),
{
    let front = events.drop_last();
    lemma_trace_len(run_type, config, state, events);
    lemma_trace_len(run_type, config, state, front);
    assert(wakes_on_stop_only(front)) by {
        assert forall|j: int| 0 <= j < front.len() implies (#[trigger] front[j] matches RunEvent::Woke(
            signal,
        ) ==> signal == SignalType::Stop) by {
            assert(front[j] == events[j]);
        }
    }
    if front.len() > 0 {
        lemma_no_cycle_after_stop(run_type, config, state, front, front.len() - 1);
    }
    if i < front.len() {
        lemma_no_cycle_after_stop(run_type, config, state, front, i);
    } else {
        assert(events.last() == events[i]);
    }
}

/// A step moves along the edges of the state graph only: from `Idle` into
/// running; from running on to paused or stopped; from paused back to
/// running or on to stopped; from stopped nowhere.
pub proof fn lemma_step_follows_the_graph(
    run_type: RunType,
    config: Config,
    state: RunState,
    event: RunEvent,
)
    ensures
        ({
            let next = run_step(run_type, config, state, event).0;
            &&& state == RunState::Idle ==> next == RunState::Idle || next.is_running()
            &&& state.is_running() ==> next.is_running() || next == RunState::Paused || next
                == RunState::Stopped
            &&& state == RunState::Paused ==> next == RunState::Paused || next.is_running() || next
                == RunState::Stopped
            &&& state == RunState::Stopped ==> next == RunState::Stopped
        }),
{
}

/// A run of one cycle runs exactly one: once its runtime stands it starts the
/// cycle, and it ends when the cycle is complete.
pub proof fn lemma_once_runs_one_cycle(config: Config)
    ensures
        run_trace(
            RunType::Once,
            config,
            RunState::Idle,
            seq![RunEvent::Start, RunEvent::RuntimeBuilt(true), RunEvent::CycleDone],
        ) == seq![
            (RunState::Booting, RunAction::BuildRuntime(config.mutli_thread)),
            (RunState::Cycling, RunAction::Cycle),
            (RunState::Stopped, RunAction::Exit),
        ],
{
    let events = seq![RunEvent::Start, RunEvent::RuntimeBuilt(true), RunEvent::CycleDone];
    let two = events.drop_last();
    let one = two.drop_last();
    assert(one.drop_last().len() == 0);
    assert(one.last() == RunEvent::Start);
    assert(two.last() == RunEvent::RuntimeBuilt(true));
    assert(events.last() == RunEvent::CycleDone);
    reveal_with_fuel(run_trace, 4);
    assert(run_trace(RunType::Once, config, RunState::Idle, one) == seq![
        (RunState::Booting, RunAction::BuildRuntime(config.mutli_thread)),
    ]);
    assert(run_trace(RunType::Once, config, RunState::Idle, two) == seq![
        (RunState::Booting, RunAction::BuildRuntime(config.mutli_thread)),
        (RunState::Cycling, RunAction::Cycle),
    ]);
}

/// A failure to set the run up is fatal: the run ends before any cycle.
pub proof fn lemma_setup_failure_is_fatal(run_type: RunType, config: Config)
    ensures
        run_step(run_type, config, RunState::Booting, RunEvent::RuntimeBuilt(false)) == (
            RunState::Stopped,
            RunAction::Abort(SetupError::Runtime),
        ),
        run_step(run_type, config, RunState::Arming, RunEvent::HandlerInstalled(false)) == (
            RunState::Stopped,
            RunAction::Abort(SetupError::InterruptHandler),
        ),
{
}

/// A cycle that has begun is never cut short: while the cycles are in
/// flight, nothing but their completion moves the run, whatever the signal.
pub proof fn lemma_cycle_runs_to_completion(run_type: RunType, config: Config, event: RunEvent)
    requires
        event != RunEvent::CycleDone,
    ensures
        run_step(run_type, config, RunState::Cycling, event) == (
            RunState::Cycling,
            RunAction::Nothing,
        ),
{
}

} // verus!
