use cloudflare_ddns::config::{
    get_default_ipv4_url, get_default_ipv6_url, get_default_log_level, Config,
};
use cloudflare_ddns::controller::{
    run, send_service_signal, system_signal_handler, RunAction, RunEvent, RunState, RunType,
    ServiceControlError, SetupError, SignalType,
};
use cloudflare_ddns::service::{
    new_service, run_service_windows, ServiceAction, ServiceCommand, ServiceState,
};

const STATES: [RunState; 7] = [
    RunState::Idle,
    RunState::Booting,
    RunState::Arming,
    RunState::Cycling,
    RunState::Waiting,
    RunState::Paused,
    RunState::Stopped,
];

const SIGNALS: [SignalType; 3] = [SignalType::Run, SignalType::Stop, SignalType::Pause];

fn run_config(delay: u64, mutli_thread: bool) -> Config {
    Config {
        delay,
        mutli_thread,
        log_level: get_default_log_level(),
        ipv4_url: get_default_ipv4_url(),
        ipv6_url: get_default_ipv6_url(),
        dns_records: Vec::new(),
    }
}

fn events() -> Vec<RunEvent> {
    vec![
        RunEvent::Start,
        RunEvent::RuntimeBuilt(true),
        RunEvent::RuntimeBuilt(false),
        RunEvent::HandlerInstalled(true),
        RunEvent::HandlerInstalled(false),
        RunEvent::CycleDone,
        RunEvent::Woke(SignalType::Run),
        RunEvent::Woke(SignalType::Stop),
        RunEvent::Woke(SignalType::Pause),
    ]
}

#[test]
fn once_runs_one_cycle_and_ends() {
    let config = run_config(60, false);
    let (state, action) = run(RunType::Once, &config, RunState::Idle, RunEvent::Start);
    assert_eq!((state, action), (RunState::Booting, RunAction::BuildRuntime(false)));
    let (state, action) = run(RunType::Once, &config, state, RunEvent::RuntimeBuilt(true));
    assert_eq!((state, action), (RunState::Cycling, RunAction::Cycle));
    let (state, action) = run(RunType::Once, &config, state, RunEvent::CycleDone);
    assert_eq!((state, action), (RunState::Stopped, RunAction::Exit));
}

#[test]
fn runtime_follows_the_configured_flag() {
    for run_type in [RunType::Once, RunType::Loops] {
        for flag in [false, true] {
            assert_eq!(
                run(run_type, &run_config(60, flag), RunState::Idle, RunEvent::Start),
                (RunState::Booting, RunAction::BuildRuntime(flag))
            );
        }
    }
}

#[test]
fn setup_failures_are_fatal() {
    for run_type in [RunType::Once, RunType::Loops] {
        assert_eq!(
            run(run_type, &run_config(60, false), RunState::Booting, RunEvent::RuntimeBuilt(false)),
            (RunState::Stopped, RunAction::Abort(SetupError::Runtime))
        );
        assert_eq!(
            run(run_type, &run_config(60, false), RunState::Arming, RunEvent::HandlerInstalled(false)),
            (RunState::Stopped, RunAction::Abort(SetupError::InterruptHandler))
        );
    }
}

#[test]
fn loop_registers_the_handler_first() {
    let config = run_config(60, false);
    let (state, action) = run(RunType::Loops, &config, RunState::Booting, RunEvent::RuntimeBuilt(true));
    assert_eq!((state, action), (RunState::Arming, RunAction::InstallHandler));
    assert_eq!(
        run(RunType::Loops, &config, state, RunEvent::HandlerInstalled(true)),
        (RunState::Cycling, RunAction::Cycle)
    );
}

#[test]
fn loop_waits_the_configured_delay_between_cycles() {
    assert_eq!(
        run(RunType::Loops, &run_config(60, false), RunState::Cycling, RunEvent::CycleDone),
        (RunState::Waiting, RunAction::Delay(60))
    );
    assert_eq!(
        run(RunType::Loops, &run_config(7, false), RunState::Cycling, RunEvent::CycleDone),
        (RunState::Waiting, RunAction::Delay(7))
    );
    assert_eq!(
        run(RunType::Loops, &run_config(60, false), RunState::Waiting, RunEvent::Woke(SignalType::Run)),
        (RunState::Cycling, RunAction::Cycle)
    );
}

#[test]
fn loop_ends_on_stop() {
    for state in [RunState::Waiting, RunState::Paused] {
        assert_eq!(
            run(RunType::Loops, &run_config(60, false), state, RunEvent::Woke(SignalType::Stop)),
            (RunState::Stopped, RunAction::Exit)
        );
    }
}

#[test]
fn loop_pauses_and_resumes() {
    let (state, action) = run(RunType::Loops, &run_config(60, false), RunState::Waiting, RunEvent::Woke(SignalType::Pause));
    assert_eq!((state, action), (RunState::Paused, RunAction::AwaitResume));
    let (state, action) = run(RunType::Loops, &run_config(60, false), state, RunEvent::Woke(SignalType::Pause));
    assert_eq!((state, action), (RunState::Paused, RunAction::AwaitResume));
    let (state, action) = run(RunType::Loops, &run_config(60, false), state, RunEvent::Woke(SignalType::Run));
    assert_eq!((state, action), (RunState::Cycling, RunAction::Cycle));
}

#[test]
fn cycle_in_flight_is_not_cut_short() {
    for run_type in [RunType::Once, RunType::Loops] {
        for event in events() {
            if event == RunEvent::CycleDone {
                continue;
            }
            assert_eq!(
                run(run_type, &run_config(60, false), RunState::Cycling, event),
                (RunState::Cycling, RunAction::Nothing)
            );
        }
    }
}

#[test]
fn stopped_is_terminal() {
    for run_type in [RunType::Once, RunType::Loops] {
        for event in events() {
            assert_eq!(
                run(run_type, &run_config(60, false), RunState::Stopped, event),
                (RunState::Stopped, RunAction::Exit)
            );
        }
    }
}

#[test]
fn no_cycle_starts_once_the_signal_is_stop() {
    // every run that is past the start of its first cycle, fed every sequence
    // of four events in which each wait ends on Stop
    let feed: Vec<RunEvent> =
        events().into_iter().filter(|e| !matches!(e, RunEvent::Woke(s) if *s != SignalType::Stop)).collect();
    let n = feed.len();
    for run_type in [RunType::Once, RunType::Loops] {
        for start in [RunState::Cycling, RunState::Waiting, RunState::Paused, RunState::Stopped] {
            for code in 0..n * n * n * n {
                let mut state = start;
                let mut code = code;
                for _ in 0..4 {
                    let (next, action) = run(run_type, &run_config(60, false), state, feed[code % n]);
                    code /= n;
                    assert_ne!(action, RunAction::Cycle);
                    state = next;
                }
            }
        }
    }
}

#[test]
fn loop_of_three_cycles_then_stop() {
    let mut signal = SignalType::Run;
    let mut state = RunState::Idle;
    let mut event = RunEvent::Start;
    let mut cycles = 0;
    let mut delays = Vec::new();
    let end = loop {
        let (next, action) = run(RunType::Loops, &run_config(60, false), state, event);
        state = next;
        event = match action {
            RunAction::BuildRuntime(_) => RunEvent::RuntimeBuilt(true),
            RunAction::InstallHandler => RunEvent::HandlerInstalled(true),
            RunAction::Cycle => {
                cycles += 1;
                if cycles == 3 {
                    // the host interrupts while the third cycle is in flight
                    signal = system_signal_handler(signal);
                }
                RunEvent::CycleDone
            }
            RunAction::Delay(secs) => {
                delays.push(secs);
                RunEvent::Woke(signal)
            }
            RunAction::AwaitResume => RunEvent::Woke(signal),
            other => break other,
        };
    };
    assert_eq!(end, RunAction::Exit);
    assert_eq!(state, RunState::Stopped);
    assert_eq!(cycles, 3);
    assert_eq!(delays, [60, 60, 60]);
}

#[test]
fn unexpected_events_change_nothing() {
    for run_type in [RunType::Once, RunType::Loops] {
        for state in STATES {
            for event in events() {
                let (next, action) = run(run_type, &run_config(60, false), state, event);
                if action == RunAction::Nothing {
                    assert_eq!(next, state);
                }
            }
        }
        assert_eq!(
            run(run_type, &run_config(60, false), RunState::Idle, RunEvent::CycleDone),
            (RunState::Idle, RunAction::Nothing)
        );
        assert_eq!(
            run(run_type, &run_config(60, false), RunState::Waiting, RunEvent::Start),
            (RunState::Waiting, RunAction::Nothing)
        );
    }
}

#[test]
fn stop_signal_is_not_taken_back() {
    for signal in SIGNALS {
        assert_eq!(send_service_signal(SignalType::Stop, signal, true), Ok(SignalType::Stop));
        assert_eq!(send_service_signal(SignalType::Run, signal, true), Ok(signal));
        assert_eq!(send_service_signal(SignalType::Pause, signal, true), Ok(signal));
        assert_eq!(system_signal_handler(signal), SignalType::Stop);
    }
}

#[test]
fn signal_is_not_sent_where_nobody_listens() {
    for current in SIGNALS {
        for signal in SIGNALS {
            assert_eq!(
                send_service_signal(current, signal, false),
                Err(ServiceControlError::ChannelClosed)
            );
        }
    }
}

#[test]
fn service_commands_drive_signal_and_worker() {
    let state = new_service();
    assert_eq!(state, ServiceState { signal: SignalType::Run, worker: false });
    let (state, action) = run_service_windows(state, ServiceCommand::Start, true).unwrap();
    assert_eq!(action, ServiceAction::SpawnWorker);
    assert_eq!(state, ServiceState { signal: SignalType::Run, worker: true });
    let (state, action) = run_service_windows(state, ServiceCommand::Pause, true).unwrap();
    assert_eq!(action, ServiceAction::Nothing);
    assert_eq!(state, ServiceState { signal: SignalType::Pause, worker: true });
    let (state, action) = run_service_windows(state, ServiceCommand::Resume, true).unwrap();
    assert_eq!(action, ServiceAction::Nothing);
    assert_eq!(state, ServiceState { signal: SignalType::Run, worker: true });
    let (state, action) = run_service_windows(state, ServiceCommand::Stop, true).unwrap();
    assert_eq!(action, ServiceAction::JoinWorker);
    assert_eq!(state, ServiceState { signal: SignalType::Stop, worker: false });
}

#[test]
fn service_commands_after_stop_have_no_effect_on_the_signal() {
    let stopped = ServiceState { signal: SignalType::Stop, worker: false };
    for command in [ServiceCommand::Pause, ServiceCommand::Resume, ServiceCommand::Stop] {
        let (state, action) = run_service_windows(stopped, command, true).unwrap();
        assert_eq!(state.signal, SignalType::Stop);
        assert_eq!(action, ServiceAction::Nothing);
    }
}

#[test]
fn stop_without_a_worker_joins_nothing() {
    let (state, action) = run_service_windows(new_service(), ServiceCommand::Stop, true).unwrap();
    assert_eq!(action, ServiceAction::Nothing);
    assert_eq!(state, ServiceState { signal: SignalType::Stop, worker: false });
}

#[test]
fn service_command_fails_where_nobody_listens() {
    let state = ServiceState { signal: SignalType::Run, worker: true };
    for command in [ServiceCommand::Stop, ServiceCommand::Pause, ServiceCommand::Resume] {
        assert_eq!(
            run_service_windows(state, command, false),
            Err(ServiceControlError::ChannelClosed)
        );
    }
    assert_eq!(
        run_service_windows(new_service(), ServiceCommand::Start, false),
        Ok((ServiceState { signal: SignalType::Run, worker: true }, ServiceAction::SpawnWorker))
    );
}
