//! The service shim: what the commands of the host's service manager do to
//! the control signal and to the worker that hosts the loop.
//!
//! The loop runs on a worker of its own, so that the manager's callback is
//! never held up by a cycle. The shim itself starts and joins nothing: it says
//! what is to be done.

use vstd::prelude::*;
use crate::controller::{send_service_signal, signal_after, ServiceControlError, SignalType};

verus! {

/// A command of the host's service manager.
#[derive(Clone, Copy, Debug, PartialEq, Eq, Structural)]
pub enum ServiceCommand {
    Start,
    Stop,
    Pause,
    Resume,
}

/// What the shim knows between two commands.
#[derive(Clone, Copy, Debug, PartialEq, Eq, Structural)]
pub struct ServiceState {
    /// The control signal as it stands.
    pub signal: SignalType,
    /// Whether a worker was started and has not been joined.
    pub worker: bool,
}

/// What is to be done for a command, beyond setting the signal.
#[derive(Clone, Copy, Debug, PartialEq, Eq, Structural)]
pub enum ServiceAction {
    /// Start the loop on a worker of its own.
    SpawnWorker,
    /// Block until the worker has left the loop, so that no cycle is in
    /// flight when the command returns.
    JoinWorker,
    Nothing,
}

/// Whether `command` sends a signal to the loop.
pub open spec fn sends_signal(command: ServiceCommand) -> bool {
    command != ServiceCommand::Start
}

/// The state after `command`, and what is to be done for it.
pub open spec fn service_step(state: ServiceState, command: ServiceCommand) -> (
    ServiceState,
    ServiceAction,
) {
    match command {
        ServiceCommand::Start => (
            ServiceState { signal: state.signal, worker: true },
            ServiceAction::SpawnWorker,
        ),
        ServiceCommand::Stop => (
            ServiceState { signal: SignalType::Stop, worker: false },
            if state.worker {
                ServiceAction::JoinWorker
            } else {
                ServiceAction::Nothing
            },
        ),
        ServiceCommand::Pause => (
            ServiceState { signal: signal_after(state.signal, SignalType::Pause), worker: state.worker },
            ServiceAction::Nothing,
        ),
        ServiceCommand::Resume => (
            ServiceState { signal: signal_after(state.signal, SignalType::Run), worker: state.worker },
            ServiceAction::Nothing,
        ),
    }
}

/// The state after each of `commands` in turn.
pub open spec fn service_state_after(state: ServiceState, commands: Seq<ServiceCommand>) -> ServiceState
    decreases commands.len(),
{
    if commands.len() == 0 {
        state
    } else {
        service_step(service_state_after(state, commands.drop_last()), commands.last()).0
    }
}

/// The state of a service that has been told nothing yet: the signal is
/// `Run`, and there is no worker.
pub fn new_service() -> (state: ServiceState)
    ensures
        state == (ServiceState { signal: SignalType::Run, worker: false }),
{
    ServiceState { signal: SignalType::Run, worker: false }
}

/// Handles one command of the service manager, for a loop that is
/// `listening` to the signal or not.
///
/// * `Start`: the loop is to be started on a worker of its own.
/// * `Stop`: the signal becomes `Stop`, and the worker, if there is one, is
///   to be joined before the command returns.
/// * `Pause`: the signal becomes `Pause`. A cycle in flight goes on; only the
///   next wait is affected.
/// * `Resume`: the signal becomes `Run` again.
///
/// After `Stop`, `Pause` and `Resume` leave the signal as it is. A command
/// that sends a signal fails where nobody listens, and changes nothing then.
pub fn run_service_windows(state: ServiceState, command: ServiceCommand, listening: bool) -> (next:
    Result<(ServiceState, ServiceAction), ServiceControlError>)
    ensures
        next == if sends_signal(command) && !listening {
            Err::<(ServiceState, ServiceAction), ServiceControlError>(
                ServiceControlError::ChannelClosed,
            )
        } else {
            Ok::<(ServiceState, ServiceAction), ServiceControlError>(service_step(state, command))
        },
{
    let wanted = match command {
        ServiceCommand::Start => {
            return Ok(
                (ServiceState { signal: state.signal, worker: true }, ServiceAction::SpawnWorker),
            );
        },
        ServiceCommand::Stop => SignalType::Stop,
        ServiceCommand::Pause => SignalType::Pause,
        ServiceCommand::Resume => SignalType::Run,
    };
    let signal = match send_service_signal(state.signal, wanted, listening) {
        Ok(signal) => signal,
        Err(error) => {
            return Err(error);
        },
    };
    match command {
        ServiceCommand::Stop => {
            let action = if state.worker {
                ServiceAction::JoinWorker
            } else {
                ServiceAction::Nothing
            };
            Ok((ServiceState { signal, worker: false }, action))
        },
        _ => Ok((ServiceState { signal, worker: state.worker }, ServiceAction::Nothing)),
    }
}

/// Once the service was told to stop, the signal stays `Stop` whatever
/// commands follow: a pause or a resume that arrives late has no effect.
pub proof fn lemma_stop_command_is_final(state: ServiceState, commands: Seq<ServiceCommand>)
    requires
        state.signal == SignalType::Stop,
    ensures
        service_state_after(state, commands).signal == SignalType::Stop,
    decreases commands.len(),
{
    if commands.len() > 0 {
        lemma_stop_command_is_final(state, commands.drop_last());
    }
}

/// `Stop` leaves no worker behind: where one was running it is to be joined,
/// and the state after holds none.
pub proof fn lemma_stop_joins_the_worker(state: ServiceState)
    ensures
        service_step(state, ServiceCommand::Stop).0.signal == SignalType::Stop,
        !service_step(state, ServiceCommand::Stop).0.worker,
        state.worker ==> service_step(state, ServiceCommand::Stop).1 == ServiceAction::JoinWorker,
{
}

} // verus!
