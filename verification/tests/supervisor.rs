//! The supervisor's decision core: command parsing, respawn cap, signals.

use gasket::process_manager::parse_command;
use gasket::process_manager::reaper_step;
use gasket::process_manager::signal_action;
use gasket::process_manager::split_whitespace;
use gasket::process_manager::ReapDecision;
use gasket::process_manager::Signal;
use gasket::process_manager::SignalAction;
use gasket::process_manager::StaticProcessManager;
use gasket::process_manager::SupervisorAction;

#[test]
fn command_splits_on_whitespace() {
    let (program, args) = parse_command("/bin/echo hello world").unwrap();
    assert_eq!(program, "/bin/echo");
    assert_eq!(args, vec!["hello".to_string(), "world".to_string()]);
}

#[test]
fn command_collapses_repeated_whitespace() {
    let (program, args) = parse_command("  a \t b\n\rc  ").unwrap();
    assert_eq!(program, "a");
    assert_eq!(args, vec!["b".to_string(), "c".to_string()]);
}

#[test]
fn command_without_arguments() {
    let (program, args) = parse_command("/bin/false").unwrap();
    assert_eq!(program, "/bin/false");
    assert!(args.is_empty());
}

#[test]
fn empty_command_is_inert() {
    assert!(parse_command("").is_none());
    assert!(parse_command("   \t ").is_none());
}

#[test]
fn split_whitespace_matches_std() {
    for s in ["", "a", " a b ", "one\ttwo  three\n", "  "] {
        let ours = split_whitespace(s);
        let expected: Vec<String> = s.split_whitespace().map(|t| t.to_string()).collect();
        assert_eq!(ours, expected, "splitting {s:?}");
    }
}

#[test]
fn supervisor_starts_with_the_next_port() {
    let m = StaticProcessManager::new("/bin/false".to_string(), 3000, 42);
    assert_eq!(m.port, 3001);
    assert_eq!(m.max_spawns, 5);
    assert_eq!(m.self_pid, 42);
    assert_eq!(m.respawn_counter, 0);
}

#[test]
fn sixth_exit_aborts_with_minus_one() {
    let mut m = StaticProcessManager::new("/bin/false".to_string(), 3000, 1);
    let mut counters = Vec::new();
    for _ in 0..5 {
        let action = m.on_child_exit();
        counters.push(m.respawn_counter);
        assert_eq!(action, SupervisorAction::Respawn { delay_ms: 1000 });
    }
    let action = m.on_child_exit();
    counters.push(m.respawn_counter);
    assert_eq!(action, SupervisorAction::Abort { exit_code: -1 });
    // the counter increased strictly, by one, on every exit
    assert_eq!(counters, vec![1, 2, 3, 4, 5, 6]);
}

#[test]
fn signals_are_dispatched_as_documented() {
    assert_eq!(signal_action(Signal::Hup), SignalAction::LogOnly);
    assert_eq!(signal_action(Signal::Child), SignalAction::LogOnly);
    assert_eq!(signal_action(Signal::Int), SignalAction::ForwardInt);
    assert_eq!(signal_action(Signal::Term), SignalAction::ForwardTerm);
    assert_eq!(signal_action(Signal::Quit), SignalAction::ForwardTerm);
}

#[test]
fn reaper_stops_on_target_or_none_left() {
    assert_eq!(reaper_step(17, 17), ReapDecision::TargetReaped);
    assert_eq!(reaper_step(0, 17), ReapDecision::NoMoreChildren);
    assert_eq!(reaper_step(-1, 17), ReapDecision::NoMoreChildren);
    assert_eq!(reaper_step(23, 17), ReapDecision::KeepReaping);
    // a failed PID conversion makes the target -1; an errno answer matches it
    assert_eq!(reaper_step(-1, -1), ReapDecision::TargetReaped);
}
