//! Disconnect detection and reconnection.
//!
//! A run goes through a small state machine: the primary command runs; if
//! the transport client exits with the connection-failure status and a
//! recovery command is configured, the controller polls reachability at a
//! fixed interval until the peer answers or the recovery window runs out;
//! a recovered peer gets the recovery command, whose exit status becomes
//! the final result. Any other primary exit is final as it stands.
//!
//! The transitions are decided here; the surrounding I/O layer performs
//! each action (sleeping, probing, spawning) and feeds the outcome back as
//! the next event.

use vstd::prelude::*;

use crate::CONNECTION_FAILURE_EXIT;

verus! {

/// Seconds between two reachability probes.
pub const RECONNECT_POLL_INTERVAL_SECS: u64 = 5;

/// What the controller needs to know for one run.
#[derive(Debug, Clone, Copy, PartialEq, Eq, Structural)]
pub struct ReconnectConfig {
    /// Whether a recovery command is configured; without one a lost
    /// connection is final.
    pub recovery_configured: bool,
    /// Seconds to wait for the peer to come back before giving up.
    pub timeout_secs: u64,
}

/// Where one run stands.
#[derive(Debug, Clone, Copy, PartialEq, Eq, Structural)]
pub enum RunPhase {
    /// The primary command is running.
    Running,
    /// The connection was lost; the peer has been awaited for
    /// `waited_secs` so far.
    Polling { waited_secs: u64 },
    /// The peer answered again; the recovery command is running.
    RunningRecovery,
    /// The run is over with this exit status.
    Done { exit_code: i32 },
}

/// What the I/O layer reports back.
#[derive(Debug, Clone, Copy, PartialEq, Eq, Structural)]
pub enum RunEvent {
    /// The primary command finished.
    PrimaryExited { exit_code: i32 },
    /// One reachability probe finished.
    ProbeFinished { reachable: bool },
    /// The recovery command finished.
    RecoveryExited { exit_code: i32 },
}

/// What the I/O layer is asked to do next.
#[derive(Debug, Clone, Copy, PartialEq, Eq, Structural)]
pub enum RunAction {
    /// Sleep one poll interval, then probe reachability.
    WaitAndProbe,
    /// Compose and run the recovery command.
    StartRecovery,
    /// Report this exit status to the caller.
    Report { exit_code: i32 },
}

/// The wait counter after one more poll interval, capped at the largest
/// representable value.
pub open spec fn spec_add_wait(waited_secs: u64) -> u64 {
    if waited_secs + RECONNECT_POLL_INTERVAL_SECS > u64::MAX {
        u64::MAX
    } else {
        (waited_secs + RECONNECT_POLL_INTERVAL_SECS) as u64
    }
}

fn add_wait(waited_secs: u64) -> (r: u64)
    ensures
        r == spec_add_wait(waited_secs),
{
    if waited_secs > u64::MAX - RECONNECT_POLL_INTERVAL_SECS {
        u64::MAX
    } else {
        waited_secs + RECONNECT_POLL_INTERVAL_SECS
    }
}

/// Which events a phase can take.
pub open spec fn phase_accepts(phase: RunPhase, event: RunEvent) -> bool {
    match (phase, event) {
        (RunPhase::Running, RunEvent::PrimaryExited { .. }) => true,
        (RunPhase::Polling { .. }, RunEvent::ProbeFinished { .. }) => true,
        (RunPhase::RunningRecovery, RunEvent::RecoveryExited { .. }) => true,
        _ => false,
    }
}

/// The transition relation of the controller.
pub open spec fn spec_step(phase: RunPhase, event: RunEvent, config: ReconnectConfig) -> Option<
    (RunPhase, RunAction),
> {
    match (phase, event) {
        (RunPhase::Running, RunEvent::PrimaryExited { exit_code }) => {
            if exit_code == CONNECTION_FAILURE_EXIT && config.recovery_configured {
                if config.timeout_secs == 0 {
                    Some(
                        (
                            RunPhase::Done { exit_code: CONNECTION_FAILURE_EXIT },
                            RunAction::Report { exit_code: CONNECTION_FAILURE_EXIT },
                        ),
                    )
                } else {
                    Some((RunPhase::Polling { waited_secs: 0 }, RunAction::WaitAndProbe))
                }
            } else {
                Some((RunPhase::Done { exit_code }, RunAction::Report { exit_code }))
            }
        },
        (RunPhase::Polling { waited_secs }, RunEvent::ProbeFinished { reachable }) => {
            if reachable {
                Some((RunPhase::RunningRecovery, RunAction::StartRecovery))
            } else {
                let w = spec_add_wait(waited_secs);
                if w >= config.timeout_secs {
                    Some(
                        (
                            RunPhase::Done { exit_code: CONNECTION_FAILURE_EXIT },
                            RunAction::Report { exit_code: CONNECTION_FAILURE_EXIT },
                        ),
                    )
                } else {
                    Some((RunPhase::Polling { waited_secs: w }, RunAction::WaitAndProbe))
                }
            }
        },
        (RunPhase::RunningRecovery, RunEvent::RecoveryExited { exit_code }) => {
            Some((RunPhase::Done { exit_code }, RunAction::Report { exit_code }))
        },
        _ => None,
    }
}

/// One transition of the controller: the next phase, and the action the
/// I/O layer performs before reporting the next event.
pub fn reconnect_step(phase: &RunPhase, event: &RunEvent, config: &ReconnectConfig) -> (r: (
    RunPhase,
    RunAction,
))
    requires
        phase_accepts(*phase, *event),
    ensures
        Some(r) == spec_step(*phase, *event, *config),
{
    match (phase, event) {
        (RunPhase::Running, RunEvent::PrimaryExited { exit_code }) => {
            if *exit_code == CONNECTION_FAILURE_EXIT && config.recovery_configured {
                if config.timeout_secs == 0 {
                    (
                        RunPhase::Done { exit_code: CONNECTION_FAILURE_EXIT },
                        RunAction::Report { exit_code: CONNECTION_FAILURE_EXIT },
                    )
                } else {
                    (RunPhase::Polling { waited_secs: 0 }, RunAction::WaitAndProbe)
                }
            } else {
                (RunPhase::Done { exit_code: *exit_code }, RunAction::Report {
                    exit_code: *exit_code,
                })
            }
        },
        (RunPhase::Polling { waited_secs }, RunEvent::ProbeFinished { reachable }) => {
            if *reachable {
                (RunPhase::RunningRecovery, RunAction::StartRecovery)
            } else {
                let w = add_wait(*waited_secs);
                if w >= config.timeout_secs {
                    (
                        RunPhase::Done { exit_code: CONNECTION_FAILURE_EXIT },
                        RunAction::Report { exit_code: CONNECTION_FAILURE_EXIT },
                    )
                } else {
                    (RunPhase::Polling { waited_secs: w }, RunAction::WaitAndProbe)
                }
            }
        },
        (RunPhase::RunningRecovery, RunEvent::RecoveryExited { exit_code }) => {
            (RunPhase::Done { exit_code: *exit_code }, RunAction::Report { exit_code: *exit_code })
        },
        _ => {
            proof {
                assert(false);
            }
            (RunPhase::Running, RunAction::WaitAndProbe)
        },
    }
}

/// Whether the poll loop reaches a successful probe before the window runs
/// out, given the outcome of each probe in turn. A run that exhausts the
/// given outcomes without an answer never recovers.
pub open spec fn spec_poll_recovers(probes: Seq<bool>, waited_secs: u64, timeout_secs: u64) -> bool
    decreases probes.len(),
{
    if probes.len() == 0 {
        false
    } else if probes[0] {
        true
    } else if spec_add_wait(waited_secs) >= timeout_secs {
        false
    } else {
        spec_poll_recovers(probes.skip(1), spec_add_wait(waited_secs), timeout_secs)
    }
}

/// Whether a whole run reaches the recovery command.
pub open spec fn spec_run_attempts_recovery(
    primary_exit: i32,
    recovery_configured: bool,
    timeout_secs: u64,
    probes: Seq<bool>,
) -> bool {
    &&& primary_exit == CONNECTION_FAILURE_EXIT
    &&& recovery_configured
    &&& timeout_secs > 0
    &&& spec_poll_recovers(probes, 0, timeout_secs)
}

/// The exit status a whole run reports: the primary command's status, the
/// recovery command's status after a recovery, or the connection-failure
/// status when the window runs out.
pub open spec fn spec_run_result(
    primary_exit: i32,
    recovery_configured: bool,
    timeout_secs: u64,
    probes: Seq<bool>,
    recovery_exit: i32,
) -> i32 {
    if primary_exit == CONNECTION_FAILURE_EXIT && recovery_configured {
        if timeout_secs > 0 && spec_poll_recovers(probes, 0, timeout_secs) {
            recovery_exit
        } else {
            CONNECTION_FAILURE_EXIT
        }
    } else {
        primary_exit
    }
}

spec fn action_rank(action: RunAction) -> nat {
    match action {
        RunAction::Report { .. } => 0,
        RunAction::StartRecovery => 1,
        RunAction::WaitAndProbe => 2,
    }
}

/// Drive the controller to completion against a given record of probe
/// outcomes: the `k`-th wait-and-probe action takes its answer from
/// `probes[k]`, and the recovery command, if reached, exits with
/// `recovery_exit`. A record that runs out before the peer answers stands
/// for a peer that never came back.
pub fn run_reconnect_machine(
    primary_exit: i32,
    config: &ReconnectConfig,
    probes: &Vec<bool>,
    recovery_exit: i32,
) -> (r: i32)
    ensures
        r == spec_run_result(
            primary_exit,
            config.recovery_configured,
            config.timeout_secs,
            probes@,
            recovery_exit,
        ),
{
    let ghost result = spec_run_result(
        primary_exit,
        config.recovery_configured,
        config.timeout_secs,
        probes@,
        recovery_exit,
    );
    let first = reconnect_step(
        &RunPhase::Running,
        &RunEvent::PrimaryExited { exit_code: primary_exit },
        config,
    );
    let mut phase = first.0;
    let mut action = first.1;
    let mut k: usize = 0;
    proof {
        assert(probes@.skip(0) =~= probes@);
    }
    loop
        invariant
            k <= probes@.len(),
            result == spec_run_result(
                primary_exit,
                config.recovery_configured,
                config.timeout_secs,
                probes@,
                recovery_exit,
            ),
            match action {
                RunAction::WaitAndProbe => (phase matches RunPhase::Polling { waited_secs } && {
                    &&& waited_secs < config.timeout_secs
                    &&& result == (if spec_poll_recovers(
                        probes@.skip(k as int),
                        waited_secs,
                        config.timeout_secs,
                    ) {
                        recovery_exit
                    } else {
                        CONNECTION_FAILURE_EXIT
                    })
                }),
                RunAction::StartRecovery => phase is RunningRecovery && result == recovery_exit,
                RunAction::Report { exit_code } => result == exit_code,
            },
        decreases probes@.len() - k, action_rank(action),
    {
        match action {
            RunAction::Report { exit_code } => {
                return exit_code;
            },
            RunAction::StartRecovery => {
                let next = reconnect_step(
                    &phase,
                    &RunEvent::RecoveryExited { exit_code: recovery_exit },
                    config,
                );
                phase = next.0;
                action = next.1;
            },
            RunAction::WaitAndProbe => {
                if k >= probes.len() {
                    proof {
                        assert(probes@.skip(k as int).len() == 0);
                    }
                    return CONNECTION_FAILURE_EXIT;
                }
                let reachable = probes[k];
                let next = reconnect_step(
                    &phase,
                    &RunEvent::ProbeFinished { reachable },
                    config,
                );
                proof {
                    assert(probes@.skip(k as int)[0] == probes@[k as int]);
                    assert(probes@.skip(k as int).skip(1) =~= probes@.skip(k as int + 1));
                }
                k = k + 1;
                phase = next.0;
                action = next.1;
            },
        }
    }
}

/// A run that loses the connection and sees the peer answer within the
/// recovery window reports the recovery command's exit status, not the
/// connection-failure status: the `k`-th probe is the first to succeed,
/// and it happens before the window runs out.
pub proof fn lemma_recovery_result_is_recovery_exit(
    timeout_secs: u64,
    probes: Seq<bool>,
    recovery_exit: i32,
    k: int,
)
    requires
        0 <= k < probes.len(),
        probes[k],
        forall|j: int| 0 <= j < k ==> !probes[j],
        RECONNECT_POLL_INTERVAL_SECS * k < timeout_secs,
    ensures
        spec_run_attempts_recovery(CONNECTION_FAILURE_EXIT, true, timeout_secs, probes),
        spec_run_result(CONNECTION_FAILURE_EXIT, true, timeout_secs, probes, recovery_exit)
            == recovery_exit,
{
    lemma_poll_recovers_at(probes, 0, timeout_secs, k);
}

proof fn lemma_poll_recovers_at(probes: Seq<bool>, waited_secs: u64, timeout_secs: u64, k: int)
    requires
        0 <= k < probes.len(),
        probes[k],
        forall|j: int| 0 <= j < k ==> !probes[j],
        waited_secs < timeout_secs,
        waited_secs + RECONNECT_POLL_INTERVAL_SECS * k < timeout_secs,
    ensures
        spec_poll_recovers(probes, waited_secs, timeout_secs),
    decreases k,
{
    if k > 0 {
        assert(!probes[0]);
        let w = spec_add_wait(waited_secs);
        assert(w == waited_secs + RECONNECT_POLL_INTERVAL_SECS);
        assert(probes.skip(1)[k - 1] == probes[k]);
        assert forall|j: int| 0 <= j < k - 1 implies !probes.skip(1)[j] by {
            assert(probes.skip(1)[j] == probes[j + 1]);
        }
        lemma_poll_recovers_at(probes.skip(1), w, timeout_secs, k - 1);
    }
}

/// A run whose probes never succeed reports the connection-failure status
/// and never attempts the recovery command.
pub proof fn lemma_timeout_result_is_sentinel(
    recovery_configured: bool,
    timeout_secs: u64,
    probes: Seq<bool>,
    recovery_exit: i32,
)
    requires
        forall|j: int| 0 <= j < probes.len() ==> !probes[j],
    ensures
        !spec_run_attempts_recovery(
            CONNECTION_FAILURE_EXIT,
            recovery_configured,
            timeout_secs,
            probes,
        ),
        spec_run_result(
            CONNECTION_FAILURE_EXIT,
            recovery_configured,
            timeout_secs,
            probes,
            recovery_exit,
        ) == CONNECTION_FAILURE_EXIT,
{
    lemma_poll_never_recovers(probes, 0, timeout_secs);
}

proof fn lemma_poll_never_recovers(probes: Seq<bool>, waited_secs: u64, timeout_secs: u64)
    requires
        forall|j: int| 0 <= j < probes.len() ==> !probes[j],
    ensures
        !spec_poll_recovers(probes, waited_secs, timeout_secs),
    decreases probes.len(),
{
    if probes.len() > 0 {
        assert(!probes[0]);
        assert forall|j: int| 0 <= j < probes.skip(1).len() implies !probes.skip(1)[j] by {
            assert(probes.skip(1)[j] == probes[j + 1]);
        }
        lemma_poll_never_recovers(probes.skip(1), spec_add_wait(waited_secs), timeout_secs);
    }
}

/// Whatever happens, the reported status is the primary command's, the
/// recovery command's, or the connection-failure status - never an
/// internal value of the controller's own.
pub proof fn lemma_result_is_never_internal(
    primary_exit: i32,
    recovery_configured: bool,
    timeout_secs: u64,
    probes: Seq<bool>,
    recovery_exit: i32,
)
    ensures
        spec_run_result(primary_exit, recovery_configured, timeout_secs, probes, recovery_exit)
            == primary_exit || spec_run_result(
            primary_exit,
            recovery_configured,
            timeout_secs,
            probes,
            recovery_exit,
        ) == recovery_exit || spec_run_result(
            primary_exit,
            recovery_configured,
            timeout_secs,
            probes,
            recovery_exit,
        ) == CONNECTION_FAILURE_EXIT,
{
}

} // verus!
