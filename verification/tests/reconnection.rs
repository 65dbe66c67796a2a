use bridge::reconnect::{
    reconnect_step, run_reconnect_machine, ReconnectConfig, RunAction, RunEvent, RunPhase,
};
use bridge::CONNECTION_FAILURE_EXIT;

fn config(recovery_configured: bool, timeout_secs: u64) -> ReconnectConfig {
    ReconnectConfig {
        recovery_configured,
        timeout_secs,
    }
}

#[test]
fn test_plain_success_is_final() {
    let result = run_reconnect_machine(0, &config(true, 90), &vec![], 7);
    assert_eq!(result, 0);
}

#[test]
fn test_ordinary_failure_is_final() {
    // a non-zero exit that is not the sentinel is passed through untouched
    let result = run_reconnect_machine(3, &config(true, 90), &vec![true], 7);
    assert_eq!(result, 3);
}

#[test]
fn test_sentinel_without_recovery_is_final() {
    let result = run_reconnect_machine(CONNECTION_FAILURE_EXIT, &config(false, 90), &vec![true], 7);
    assert_eq!(result, CONNECTION_FAILURE_EXIT);
}

#[test]
fn test_recovery_exit_becomes_final_result() {
    // the probe succeeds on the third try, well within the window:
    // the reported status is the recovery command's, not the sentinel
    let probes = vec![false, false, true];
    let result = run_reconnect_machine(CONNECTION_FAILURE_EXIT, &config(true, 90), &probes, 7);
    assert_eq!(result, 7);
}

#[test]
fn test_recovery_can_fail_too() {
    let probes = vec![true];
    let result = run_reconnect_machine(CONNECTION_FAILURE_EXIT, &config(true, 90), &probes, 1);
    assert_eq!(result, 1);
}

#[test]
fn test_timeout_reports_sentinel() {
    // ten seconds of window, five per poll: the third probe never happens,
    // and no probe ever succeeds
    let probes = vec![false; 10];
    let result = run_reconnect_machine(CONNECTION_FAILURE_EXIT, &config(true, 10), &probes, 7);
    assert_eq!(result, CONNECTION_FAILURE_EXIT);
}

#[test]
fn test_probe_after_window_is_never_used() {
    // the probe that would succeed lies beyond the window
    let probes = vec![false, false, true];
    let result = run_reconnect_machine(CONNECTION_FAILURE_EXIT, &config(true, 10), &probes, 7);
    assert_eq!(result, CONNECTION_FAILURE_EXIT);
}

#[test]
fn test_zero_window_never_probes() {
    let probes = vec![true];
    let result = run_reconnect_machine(CONNECTION_FAILURE_EXIT, &config(true, 0), &probes, 7);
    assert_eq!(result, CONNECTION_FAILURE_EXIT);
}

#[test]
fn test_step_by_step_transitions() {
    let cfg = config(true, 90);
    let (phase, action) = reconnect_step(
        &RunPhase::Running,
        &RunEvent::PrimaryExited {
            exit_code: CONNECTION_FAILURE_EXIT,
        },
        &cfg,
    );
    assert_eq!(phase, RunPhase::Polling { waited_secs: 0 });
    assert_eq!(action, RunAction::WaitAndProbe);

    let (phase, action) = reconnect_step(&phase, &RunEvent::ProbeFinished { reachable: false }, &cfg);
    assert_eq!(phase, RunPhase::Polling { waited_secs: 5 });
    assert_eq!(action, RunAction::WaitAndProbe);

    let (phase, action) = reconnect_step(&phase, &RunEvent::ProbeFinished { reachable: true }, &cfg);
    assert_eq!(phase, RunPhase::RunningRecovery);
    assert_eq!(action, RunAction::StartRecovery);

    let (phase, action) = reconnect_step(&phase, &RunEvent::RecoveryExited { exit_code: 4 }, &cfg);
    assert_eq!(phase, RunPhase::Done { exit_code: 4 });
    assert_eq!(action, RunAction::Report { exit_code: 4 });
}
