use hyperion::controller::{Action, Controller, Event, Phase, ProcessState, State};

fn backoff_seconds(a: &Action) -> Option<u64> {
    match a {
        Action::Backoff { seconds, .. } => Some(*seconds),
        _ => None,
    }
}

#[test]
fn starts_in_init_acquiring() {
    let c = Controller::new();
    assert_eq!(c.get_status(), "Init");
    assert_eq!(c.current_phase(), Phase::Acquiring);
    assert_eq!(c.next_backoff(), 1);
}

#[test]
fn one_round_from_init_to_exit_and_back() {
    let mut c = Controller::new();
    match c.on_event(Event::Acquired(Ok("/bin/true".to_string()))) {
        Action::Spawn(p) => assert_eq!(p, "/bin/true"),
        _ => panic!("expected a spawn"),
    }
    assert_eq!(c.get_status(), "Init");
    assert!(matches!(c.on_event(Event::Spawned(true)), Action::Watch));
    assert_eq!(c.get_status(), "Running");
    let a = c.on_event(Event::Exited(Ok("exit status: 0".to_string())));
    assert!(matches!(a, Action::Backoff { cleanup: true, seconds: 1 }));
    assert_eq!(c.get_status(), "Exit: exit status: 0");
    assert_eq!(c.current_phase(), Phase::BackingOff);
    assert!(matches!(c.on_event(Event::Slept), Action::Acquire));
    assert_eq!(c.get_status(), "Init");
}

#[test]
fn backoff_doubles_each_restart() {
    let mut c = Controller::new();
    let mut waits = Vec::new();
    for _ in 0..5 {
        let a = c.on_event(Event::Acquired(Err("boom".to_string())));
        waits.push(backoff_seconds(&a).unwrap());
        assert_eq!(c.get_status(), "boom");
        assert!(matches!(c.on_event(Event::Slept), Action::Acquire));
    }
    assert_eq!(waits, vec![1, 2, 4, 8, 16]);
}

#[test]
fn spawn_failure_is_crash_loop_backoff() {
    let mut c = Controller::new();
    c.on_event(Event::Acquired(Ok("/does/not/exist".to_string())));
    let a = c.on_event(Event::Spawned(false));
    assert!(matches!(a, Action::Backoff { cleanup: false, seconds: 1 }));
    assert_eq!(c.get_status(), "InitCrashLoopBackoff");
    c.on_event(Event::Slept);
    c.on_event(Event::Acquired(Ok("/does/not/exist".to_string())));
    let a = c.on_event(Event::Spawned(false));
    assert_eq!(backoff_seconds(&a), Some(2));
}

#[test]
fn cancel_while_running_terminates_and_finishes() {
    let mut c = Controller::new();
    c.on_event(Event::Acquired(Ok("/bin/sleep".to_string())));
    c.on_event(Event::Spawned(true));
    assert!(matches!(c.on_event(Event::Cancelled), Action::Terminate));
    assert_eq!(c.current_phase(), Phase::Terminating);
    let a = c.on_event(Event::Terminated(Ok("signal: 2 (SIGINT)".to_string())));
    assert!(matches!(a, Action::Finish));
    assert_eq!(c.current_phase(), Phase::Stopped);
    assert_eq!(c.get_status(), "Exit: signal: 2 (SIGINT)");
    assert!(matches!(c.on_event(Event::Slept), Action::Nothing));
    assert!(matches!(c.on_event(Event::Spawned(true)), Action::Nothing));
    assert_eq!(c.current_phase(), Phase::Stopped);
}

#[test]
fn failed_termination_is_an_error_state() {
    let mut c = Controller::new();
    c.on_event(Event::Acquired(Ok("/bin/sleep".to_string())));
    c.on_event(Event::Spawned(true));
    c.on_event(Event::Cancelled);
    c.on_event(Event::Terminated(Err("failed to terminate process".to_string())));
    assert_eq!(c.get_status(), "failed to terminate process");
}

#[test]
fn wait_error_backs_off_with_cleanup() {
    let mut c = Controller::new();
    c.on_event(Event::Acquired(Ok("/bin/x".to_string())));
    c.on_event(Event::Spawned(true));
    let a = c.on_event(Event::Exited(Err("wait failed".to_string())));
    assert!(matches!(a, Action::Backoff { cleanup: true, seconds: 1 }));
    assert_eq!(c.get_status(), "wait failed");
}

#[test]
fn events_out_of_phase_are_ignored() {
    let mut c = Controller::new();
    assert!(matches!(c.on_event(Event::Cancelled), Action::Nothing));
    assert!(matches!(c.on_event(Event::Slept), Action::Nothing));
    assert_eq!(c.current_phase(), Phase::Acquiring);
    assert_eq!(c.get_status(), "Init");
}

#[test]
fn process_state_texts() {
    let mut p = ProcessState::new();
    assert_eq!(p.to_string(), "Init");
    p.set(State::Running);
    assert_eq!(p.to_string(), "Running");
    p.set(State::InitCrashLoopBackOff);
    assert_eq!(p.to_string(), "InitCrashLoopBackoff");
    p.set(State::Exit("exit status: 1".to_string()));
    assert_eq!(p.to_string(), "Exit: exit status: 1");
    p.set(State::Error("unsupported OS/Arch".to_string()));
    assert_eq!(p.get().to_string(), "unsupported OS/Arch");
}
