//! What a daemon restart does to deployments that were under way, and how a
//! service's recorded status is brought in line with its containers.

use vstd::prelude::*;
use crate::deploy::machine::rank;
use crate::deploy::state::{terminal, DeployState};
use crate::text::push_str;

verus! {

/// What recovery does with an interrupted deployment.
#[derive(Clone, Copy, Debug, PartialEq, Eq, Structural)]
pub enum RecoveryAction {
    /// Its service is gone: mark the deployment failed.
    FailMissingService,
    /// Nothing live was touched yet: remove the staging container, mark the
    /// deployment failed and the service in error.
    Abort,
    /// The swap had begun (or a rollback): run the executor again from the
    /// recorded state.
    Resume,
    /// Already finished.
    Leave,
}

/// The states from which a restart resumes rather than aborts.
pub open spec fn swap_begun(s: DeployState) -> bool {
    s == DeployState::SwappingIn || s == DeployState::Draining || s == DeployState::Promoting
        || s == DeployState::RollingBack
}

/// The decision for a deployment found in state `s` at start-up.
pub open spec fn recovery_of(s: DeployState, service_found: bool) -> RecoveryAction {
    if terminal(s) {
        RecoveryAction::Leave
    } else if !service_found {
        RecoveryAction::FailMissingService
    } else if swap_begun(s) {
        RecoveryAction::Resume
    } else {
        RecoveryAction::Abort
    }
}

/// What the reconciler does with one service.
#[derive(Clone, Copy, Debug, PartialEq, Eq, Structural)]
pub enum ReconcileAction {
    /// Containers found for a service recorded as not running: mark it
    /// running and register its routes.
    MarkRunning,
    /// No container for a service recorded as running: mark it stopped and
    /// remove its routes.
    MarkStopped,
    /// Both agree it runs: register its routes again.
    RefreshRoutes,
    /// Both agree it does not run.
    Nothing,
}

/// The reconciler's decision from whether live containers were found and
/// whether the service is recorded as running (or degraded).
pub open spec fn reconcile_of(is_running: bool, was_running: bool) -> ReconcileAction {
    if is_running && !was_running {
        ReconcileAction::MarkRunning
    } else if !is_running && was_running {
        ReconcileAction::MarkStopped
    } else if is_running {
        ReconcileAction::RefreshRoutes
    } else {
        ReconcileAction::Nothing
    }
}

/// The decision for a deployment found in state `s` at start-up.
pub fn recovery_action(s: DeployState, service_found: bool) -> (a: RecoveryAction)
    ensures
        a == recovery_of(s, service_found),
{
    if s.is_terminal() {
        RecoveryAction::Leave
    } else if !service_found {
        RecoveryAction::FailMissingService
    } else {
        match s {
            DeployState::SwappingIn | DeployState::Draining | DeployState::Promoting
            | DeployState::RollingBack => RecoveryAction::Resume,
            _ => RecoveryAction::Abort,
        }
    }
}

/// The message recorded on a deployment that recovery marks failed.
pub fn recovery_message(a: RecoveryAction) -> (r: Option<String>)
    ensures
        a == RecoveryAction::FailMissingService ==> (r matches Some(m) && m@
            == "service not found during recovery"@),
        a == RecoveryAction::Abort ==> (r matches Some(m) && m@ == "daemon restarted during deploy"@),
        a == RecoveryAction::Resume || a == RecoveryAction::Leave ==> r is None,
{
    let mut m = String::new();
    match a {
        RecoveryAction::FailMissingService => {
            push_str(&mut m, "service not found during recovery");
            Some(m)
        },
        RecoveryAction::Abort => {
            push_str(&mut m, "daemon restarted during deploy");
            Some(m)
        },
        _ => None,
    }
}

/// The error status given to a service whose deployment was aborted.
pub fn interrupted_status_text() -> (r: String)
    ensures
        r@ == "deploy interrupted by restart"@,
{
    let mut m = String::new();
    push_str(&mut m, "deploy interrupted by restart");
    m
}

/// The reconciler's decision for one service.
pub fn reconcile_action(is_running: bool, was_running: bool) -> (a: ReconcileAction)
    ensures
        a == reconcile_of(is_running, was_running),
{
    match (is_running, was_running) {
        (true, false) => ReconcileAction::MarkRunning,
        (false, true) => ReconcileAction::MarkStopped,
        (true, true) => ReconcileAction::RefreshRoutes,
        (false, false) => ReconcileAction::Nothing,
    }
}

/// A restart aborts exactly the unfinished deployments that had not begun
/// to swap (those before `SwappingIn` in the pipeline), and resumes the
/// others; finished ones are left alone.
pub proof fn lemma_recovery_split(s: DeployState)
    ensures
        recovery_of(s, true) == RecoveryAction::Abort <==> !terminal(s) && rank(s) < rank(
            DeployState::SwappingIn,
        ),
        recovery_of(s, true) == RecoveryAction::Resume <==> !terminal(s) && rank(s) >= rank(
            DeployState::SwappingIn,
        ),
        recovery_of(s, true) == RecoveryAction::Leave <==> terminal(s),
{
}

/// After the reconciler acts, the recorded status agrees with the
/// containers: it marks a service running exactly when containers run and
/// the record said otherwise, and stopped in the opposite case.
pub proof fn lemma_reconcile_agrees(is_running: bool, was_running: bool)
    ensures
        (reconcile_of(is_running, was_running) == ReconcileAction::MarkRunning) == (is_running
            && !was_running),
        (reconcile_of(is_running, was_running) == ReconcileAction::MarkStopped) == (!is_running
            && was_running),
        is_running == was_running ==> reconcile_of(is_running, was_running)
            != ReconcileAction::MarkRunning && reconcile_of(is_running, was_running)
            != ReconcileAction::MarkStopped,
{
}

} // verus!
