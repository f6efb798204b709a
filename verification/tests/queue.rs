use rustployd::deploy::queue::DeployQueue;
use rustployd::deploy::recovery::{
    interrupted_status_text, reconcile_action, recovery_action, recovery_message, ReconcileAction,
    RecoveryAction,
};
use rustployd::deploy::state::DeployState;

fn queued(q: &DeployQueue) -> Vec<String> {
    q.snapshot().1
}

#[test]
fn enqueue_orders_fifo_and_dedups() {
    let mut q = DeployQueue::new();
    q.enqueue("a".into());
    q.enqueue("b".into());
    q.enqueue("a".into());
    assert_eq!(queued(&q), vec!["a", "b"]);
}

#[test]
fn promote_moves_to_front() {
    let mut q = DeployQueue::new();
    for id in ["a", "b", "c"] {
        q.enqueue(id.into());
    }
    q.promote("c");
    assert_eq!(queued(&q), vec!["c", "a", "b"]);
    q.promote("zzz");
    assert_eq!(queued(&q), vec!["c", "a", "b"]);
}

#[test]
fn reorder_applies_and_appends_omitted() {
    let mut q = DeployQueue::new();
    for id in ["a", "b", "c"] {
        q.enqueue(id.into());
    }
    q.reorder(&["c".into(), "zzz".into(), "a".into()]);
    assert_eq!(queued(&q), vec!["c", "a", "b"]);
}

#[test]
fn remove_queued_reports_and_removes() {
    let mut q = DeployQueue::new();
    q.enqueue("a".into());
    q.enqueue("b".into());
    assert!(q.remove_queued("a"));
    assert!(!q.remove_queued("nope"));
    assert_eq!(queued(&q), vec!["b"]);
}

#[test]
fn take_next_respects_pause_and_marks_running() {
    let mut q = DeployQueue::new();
    q.enqueue("a".into());
    q.set_paused(true);
    assert!(q.take_next().is_none(), "pausada não entrega");
    q.set_paused(false);
    assert_eq!(q.take_next().as_deref(), Some("a"));
    let (running, queued_now, paused) = q.snapshot();
    assert_eq!(running.as_deref(), Some("a"));
    assert!(queued_now.is_empty());
    assert!(!paused);
    q.clear_running();
    assert!(q.snapshot().0.is_none());
}

#[test]
fn running_deployment_is_not_enqueued_again() {
    let mut q = DeployQueue::new();
    q.enqueue("a".into());
    assert_eq!(q.take_next().as_deref(), Some("a"));
    q.enqueue("a".into());
    assert!(queued(&q).is_empty());
    q.clear_running();
    q.enqueue("a".into());
    assert_eq!(queued(&q), vec!["a"]);
}

#[test]
fn reorder_with_repeated_ids_keeps_each_once() {
    let mut q = DeployQueue::new();
    for id in ["a", "b", "c"] {
        q.enqueue(id.into());
    }
    q.reorder(&["b".into(), "b".into(), "c".into()]);
    assert_eq!(queued(&q), vec!["b", "c", "a"]);
}

#[test]
fn recovery_aborts_before_swap_and_resumes_after() {
    assert_eq!(recovery_action(DeployState::Staging, true), RecoveryAction::Abort);
    assert_eq!(recovery_action(DeployState::PreDeployCheck, true), RecoveryAction::Abort);
    assert_eq!(recovery_action(DeployState::Draining, true), RecoveryAction::Resume);
    assert_eq!(recovery_action(DeployState::RollingBack, true), RecoveryAction::Resume);
    assert_eq!(recovery_action(DeployState::Live, false), RecoveryAction::Leave);
    assert_eq!(recovery_action(DeployState::Pending, false), RecoveryAction::FailMissingService);
    assert_eq!(recovery_message(RecoveryAction::Abort).as_deref(), Some("daemon restarted during deploy"));
    assert_eq!(
        recovery_message(RecoveryAction::FailMissingService).as_deref(),
        Some("service not found during recovery")
    );
    assert!(recovery_message(RecoveryAction::Resume).is_none());
    assert_eq!(interrupted_status_text(), "deploy interrupted by restart");
}

#[test]
fn reconcile_follows_the_containers() {
    assert_eq!(reconcile_action(true, false), ReconcileAction::MarkRunning);
    assert_eq!(reconcile_action(false, true), ReconcileAction::MarkStopped);
    assert_eq!(reconcile_action(true, true), ReconcileAction::RefreshRoutes);
    assert_eq!(reconcile_action(false, false), ReconcileAction::Nothing);
}
