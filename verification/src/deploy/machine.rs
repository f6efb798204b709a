//! The decisions of the deploy executor, apart from the Docker, network and
//! database work that carries them out.
//!
//! For each state, [`plan_step`] says which work the state calls for and the
//! state that follows when that work succeeds; [`after_step`] turns the
//! outcome of the work into the transition that is recorded. The executor
//! loop runs until [`DeployState::is_terminal`] holds.

use vstd::prelude::*;
use crate::deploy::failure::{failure_lines, failure_log_lines, views};
use crate::deploy::state::{label_of, terminal, DeployState};
use crate::service::ServiceSource;
use crate::text::push_str;

verus! {

/// The kind of a service's source, which picks the path through the pipeline.
#[derive(Clone, Copy, Debug, PartialEq, Eq, Structural)]
pub enum SourceKind {
    Registry,
    Git,
    Archive,
    Compose,
}

/// What a step depends on besides the state.
#[derive(Clone, Copy, Debug, PartialEq, Eq, Structural)]
pub struct StepInput {
    pub source: SourceKind,
    /// Replicas asked for; zero counts as one.
    pub replicas: u32,
    /// The service has no healthcheck configured.
    pub healthcheck_none: bool,
}

/// The outside work a state calls for.
#[derive(Clone, Copy, Debug, PartialEq, Eq, Structural)]
pub enum StepWork {
    /// Create the project network if needed.
    EnsureNetwork,
    /// Run the service's pre-deploy check jobs, in order.
    RunPreDeployChecks,
    /// Log which source the deployment builds from.
    AnnounceSource,
    PullImage,
    CloneRepo,
    /// Check the Dockerfile, then build the image.
    BuildImage,
    /// Create and start the single staging container.
    StartStaging,
    /// Replace the live replicas one by one, each after its healthcheck.
    RollingUpdate,
    PollHealthcheck,
    /// Point the ingress at the staging containers and stop the old ones.
    SwapIn,
    /// Wait for connections to the old containers to finish.
    Drain,
    /// Rename staging to live, mark the service running, supersede the
    /// previous live deployment.
    Promote,
    /// Bring the Compose stack down and mark the service in error.
    RollBackCompose,
    /// Remove staging containers, restore the previous backends and mark the
    /// service in error.
    RollBackContainers,
    ComposeUp,
}

/// The work of a step and the state that follows when it succeeds.
#[derive(Clone, Copy, Debug, PartialEq, Eq, Structural)]
pub struct StepPlan {
    pub work: StepWork,
    pub next: DeployState,
}

/// The transition recorded after a step.
pub struct Transition {
    pub to: DeployState,
    /// The cause, when the step failed.
    pub message: Option<String>,
    /// Lines to add to the build log before the transition.
    pub log_lines: Vec<String>,
}

/// Kind of a source.
pub open spec fn kind_of(s: ServiceSource) -> SourceKind {
    match s {
        ServiceSource::Registry { .. } => SourceKind::Registry,
        ServiceSource::Git(_) => SourceKind::Git,
        ServiceSource::Archive(_) => SourceKind::Archive,
        ServiceSource::Compose(_) => SourceKind::Compose,
    }
}

/// Replicas actually run: at least one.
pub open spec fn effective_replicas(r: u32) -> nat {
    if r == 0 {
        1
    } else {
        r as nat
    }
}

/// The plan of each state; `None` where the step fails before any work.
pub open spec fn plan_of(s: DeployState, i: StepInput) -> Option<StepPlan> {
    match s {
        DeployState::Pending => Some(
            StepPlan { work: StepWork::EnsureNetwork, next: DeployState::PreDeployCheck },
        ),
        DeployState::PreDeployCheck => Some(
            StepPlan { work: StepWork::RunPreDeployChecks, next: DeployState::ResolvingDeps },
        ),
        DeployState::ResolvingDeps => Some(
            StepPlan {
                work: StepWork::AnnounceSource,
                next: match i.source {
                    SourceKind::Registry => DeployState::PullingImage,
                    SourceKind::Git => DeployState::CloningRepo,
                    SourceKind::Archive => DeployState::BuildingImage,
                    SourceKind::Compose => DeployState::ComposingUp,
                },
            },
        ),
        DeployState::PullingImage => Some(
            StepPlan { work: StepWork::PullImage, next: DeployState::Staging },
        ),
        DeployState::CloningRepo => if i.source == SourceKind::Git {
            Some(StepPlan { work: StepWork::CloneRepo, next: DeployState::BuildingImage })
        } else {
            None
        },
        DeployState::BuildingImage => if i.source == SourceKind::Git || i.source
            == SourceKind::Archive {
            Some(StepPlan { work: StepWork::BuildImage, next: DeployState::Staging })
        } else {
            None
        },
        DeployState::Staging => if effective_replicas(i.replicas) == 1 {
            Some(StepPlan { work: StepWork::StartStaging, next: DeployState::HealthcheckPolling })
        } else if i.healthcheck_none {
            None
        } else {
            Some(StepPlan { work: StepWork::RollingUpdate, next: DeployState::Promoting })
        },
        DeployState::HealthcheckPolling => Some(
            StepPlan { work: StepWork::PollHealthcheck, next: DeployState::SwappingIn },
        ),
        DeployState::SwappingIn => Some(
            StepPlan { work: StepWork::SwapIn, next: DeployState::Draining },
        ),
        DeployState::Draining => Some(
            StepPlan { work: StepWork::Drain, next: DeployState::Promoting },
        ),
        DeployState::Promoting => Some(
            StepPlan { work: StepWork::Promote, next: DeployState::Live },
        ),
        DeployState::RollingBack => Some(
            StepPlan {
                work: if i.source == SourceKind::Compose {
                    StepWork::RollBackCompose
                } else {
                    StepWork::RollBackContainers
                },
                next: DeployState::Failed,
            },
        ),
        DeployState::ComposingUp => if i.source == SourceKind::Compose {
            Some(StepPlan { work: StepWork::ComposeUp, next: DeployState::Live })
        } else {
            None
        },
        _ => None,
    }
}

/// The error of a step that fails before any work.
pub open spec fn plan_error(s: DeployState, i: StepInput) -> Seq<char> {
    match s {
        DeployState::CloningRepo => "expected Git source"@,
        DeployState::BuildingImage => "expected Git or Archive source"@,
        DeployState::Staging => "Deploy com múltiplas réplicas requer configuração de healthcheck"@,
        DeployState::ComposingUp => "expected Compose source in ComposingUp"@,
        _ => "unhandled state: "@ + label_of(s),
    }
}

/// The state recorded after a step: the planned successor when the step
/// succeeded, `RollingBack` when it failed (before or during its work).
pub open spec fn next_after(s: DeployState, i: StepInput, work_failed: bool) -> DeployState {
    match plan_of(s, i) {
        Some(p) => if work_failed {
            DeployState::RollingBack
        } else {
            p.next
        },
        None => DeployState::RollingBack,
    }
}

/// Position of a state along the pipeline.
pub open spec fn rank(s: DeployState) -> nat {
    match s {
        DeployState::Pending => 0,
        DeployState::PreDeployCheck => 1,
        DeployState::ResolvingDeps => 2,
        DeployState::PullingImage => 3,
        DeployState::CloningRepo => 3,
        DeployState::ComposingUp => 3,
        DeployState::BuildingImage => 4,
        DeployState::Staging => 5,
        DeployState::HealthcheckPolling => 6,
        DeployState::SwappingIn => 7,
        DeployState::Draining => 8,
        DeployState::Promoting => 9,
        DeployState::Live => 10,
        DeployState::RollingBack => 11,
        DeployState::Failed => 12,
        DeployState::Stopped => 12,
        DeployState::Pruning => 12,
    }
}

/// The state reached after `n` steps when every step's work succeeds.
pub open spec fn run_ok(s: DeployState, i: StepInput, n: nat) -> DeployState
    decreases n,
{
    if n == 0 || terminal(s) {
        s
    } else {
        run_ok(next_after(s, i, false), i, (n - 1) as nat)
    }
}

/// The kind of a source.
pub fn source_kind(s: &ServiceSource) -> (k: SourceKind)
    ensures
        k == kind_of(*s),
{
    match s {
        ServiceSource::Registry { .. } => SourceKind::Registry,
        ServiceSource::Git(_) => SourceKind::Git,
        ServiceSource::Archive(_) => SourceKind::Archive,
        ServiceSource::Compose(_) => SourceKind::Compose,
    }
}

fn text(t: &str) -> (r: String)
    ensures
        r@ == t@,
{
    let mut s = String::new();
    push_str(&mut s, t);
    s
}

/// What the step in state `s` does, or why it cannot run.
pub fn plan_step(s: DeployState, i: &StepInput) -> (r: Result<StepPlan, String>)
    ensures
        r matches Ok(p) ==> plan_of(s, *i) == Some(p),
        r matches Err(e) ==> plan_of(s, *i) is None && e@ == plan_error(s, *i),
{
    let one = i.replicas <= 1;
    match s {
        DeployState::Pending => Ok(
            StepPlan { work: StepWork::EnsureNetwork, next: DeployState::PreDeployCheck },
        ),
        DeployState::PreDeployCheck => Ok(
            StepPlan { work: StepWork::RunPreDeployChecks, next: DeployState::ResolvingDeps },
        ),
        DeployState::ResolvingDeps => Ok(
            StepPlan {
                work: StepWork::AnnounceSource,
                next: match i.source {
                    SourceKind::Registry => DeployState::PullingImage,
                    SourceKind::Git => DeployState::CloningRepo,
                    SourceKind::Archive => DeployState::BuildingImage,
                    SourceKind::Compose => DeployState::ComposingUp,
                },
            },
        ),
        DeployState::PullingImage => Ok(
            StepPlan { work: StepWork::PullImage, next: DeployState::Staging },
        ),
        DeployState::CloningRepo => if i.source == SourceKind::Git {
            Ok(StepPlan { work: StepWork::CloneRepo, next: DeployState::BuildingImage })
        } else {
            Err(text("expected Git source"))
        },
        DeployState::BuildingImage => if i.source == SourceKind::Git || i.source
            == SourceKind::Archive {
            Ok(StepPlan { work: StepWork::BuildImage, next: DeployState::Staging })
        } else {
            Err(text("expected Git or Archive source"))
        },
        DeployState::Staging => if one {
            Ok(StepPlan { work: StepWork::StartStaging, next: DeployState::HealthcheckPolling })
        } else if i.healthcheck_none {
            Err(text("Deploy com múltiplas réplicas requer configuração de healthcheck"))
        } else {
            Ok(StepPlan { work: StepWork::RollingUpdate, next: DeployState::Promoting })
        },
        DeployState::HealthcheckPolling => Ok(
            StepPlan { work: StepWork::PollHealthcheck, next: DeployState::SwappingIn },
        ),
        DeployState::SwappingIn => Ok(
            StepPlan { work: StepWork::SwapIn, next: DeployState::Draining },
        ),
        DeployState::Draining => Ok(
            StepPlan { work: StepWork::Drain, next: DeployState::Promoting },
        ),
        DeployState::Promoting => Ok(
            StepPlan { work: StepWork::Promote, next: DeployState::Live },
        ),
        DeployState::RollingBack => Ok(
            StepPlan {
                work: if i.source == SourceKind::Compose {
                    StepWork::RollBackCompose
                } else {
                    StepWork::RollBackContainers
                },
                next: DeployState::Failed,
            },
        ),
        DeployState::ComposingUp => if i.source == SourceKind::Compose {
            Ok(StepPlan { work: StepWork::ComposeUp, next: DeployState::Live })
        } else {
            Err(text("expected Compose source in ComposingUp"))
        },
        _ => {
            let mut e = text("unhandled state: ");
            push_str(&mut e, s.label());
            Err(e)
        },
    }
}

/// The transition after the step run in `state` ended with `outcome`: the
/// next state on success; on failure, `RollingBack` with the cause as the
/// transition's message and the cause's lines for the build log.
pub fn after_step(state: DeployState, outcome: Result<DeployState, String>) -> (t: Transition)
    ensures
        outcome matches Ok(next) ==> t.to == next && t.message is None && t.log_lines@.len() == 0,
        outcome matches Err(e) ==> t.to == DeployState::RollingBack && t.message == Some(e)
            && views(t.log_lines@) == failure_lines(label_of(state), e@),
{
    match outcome {
        Ok(next) => Transition { to: next, message: None, log_lines: Vec::new() },
        Err(e) => {
            let lines = failure_log_lines(state.label(), e.as_str());
            Transition { to: DeployState::RollingBack, message: Some(e), log_lines: lines }
        },
    }
}

/// The executor loop stops exactly at terminal states, and `step` refuses to
/// run in one.
pub proof fn lemma_terminal_stops(s: DeployState, i: StepInput)
    ensures
        terminal(s) ==> plan_of(s, i) is None,
        terminal(s) ==> run_ok(s, i, 1) == s,
{
}

/// Every recorded transition out of a non-terminal state moves forward along
/// the pipeline, except a failed rollback step, which stays in
/// `RollingBack`; so the executor loop ends unless rolling back keeps failing.
pub proof fn lemma_progress(s: DeployState, i: StepInput, work_failed: bool)
    requires
        !terminal(s),
        !(s == DeployState::RollingBack && work_failed),
    ensures
        rank(next_after(s, i, work_failed)) > rank(s),
{
}

/// A failure anywhere leads to `RollingBack`, and the rollback step, when it
/// succeeds, ends the deployment in `Failed`.
pub proof fn lemma_failure_ends_failed(s: DeployState, i: StepInput)
    requires
        !terminal(s),
    ensures
        next_after(s, i, true) == DeployState::RollingBack,
        next_after(DeployState::RollingBack, i, false) == DeployState::Failed,
        run_ok(next_after(s, i, true), i, 1) == DeployState::Failed,
{
    reveal_with_fuel(run_ok, 2);
}

/// A new deployment whose every step succeeds goes live: directly through
/// Compose, otherwise through staging, healthcheck, swap, drain and
/// promotion (or a rolling update when several replicas have a
/// healthcheck). With several replicas and no healthcheck it ends `Failed`.
pub proof fn lemma_success_goes_live(i: StepInput)
    ensures
        effective_replicas(i.replicas) == 1 || !i.healthcheck_none || i.source
            == SourceKind::Compose ==> run_ok(DeployState::Pending, i, 11) == DeployState::Live,
        effective_replicas(i.replicas) > 1 && i.healthcheck_none && i.source
            != SourceKind::Compose ==> run_ok(DeployState::Pending, i, 11) == DeployState::Failed,
{
    reveal_with_fuel(run_ok, 12);
}


/// Once the source is resolved, the next step fetches it the way its kind
/// needs: a registry image is pulled, a repository cloned, an upload built,
/// a Compose stack brought up.
pub proof fn lemma_source_fetched(i: StepInput)
    ensures
        ({
            let p = plan_of(DeployState::ResolvingDeps, i);
            &&& p is Some
            &&& p->Some_0.work == StepWork::AnnounceSource
            &&& plan_of(p->Some_0.next, i) is Some
            &&& plan_of(p->Some_0.next, i)->Some_0.work == match i.source {
                SourceKind::Registry => StepWork::PullImage,
                SourceKind::Git => StepWork::CloneRepo,
                SourceKind::Archive => StepWork::BuildImage,
                SourceKind::Compose => StepWork::ComposeUp,
            }
        }),
{
}

/// A registry deployment whose steps succeed pulls its image before
/// staging: it is in `PullingImage` after three steps and in `Staging`
/// after four.
pub proof fn lemma_registry_pulls_before_staging(i: StepInput)
    requires
        i.source == SourceKind::Registry,
    ensures
        run_ok(DeployState::Pending, i, 3) == DeployState::PullingImage,
        run_ok(DeployState::Pending, i, 4) == DeployState::Staging,
        plan_of(DeployState::PullingImage, i) matches Some(p) && p.work == StepWork::PullImage,
{
    reveal_with_fuel(run_ok, 5);
}

/// A rollback always ends in `Failed`, and it takes a stack down exactly
/// for a Compose source; any other source has its containers rolled back.
pub proof fn lemma_rollback_work(i: StepInput)
    ensures
        plan_of(DeployState::RollingBack, i) matches Some(p) && p.next == DeployState::Failed
            && (p.work == StepWork::RollBackCompose <==> i.source == SourceKind::Compose)
            && (p.work == StepWork::RollBackContainers <==> i.source != SourceKind::Compose),
{
}


/// The path a single-replica deployment takes when every step succeeds:
/// network, pre-deploy checks and source resolution; then the fetch of its
/// kind (pull; clone and build; build; or a Compose stack, which goes live
/// at once); then staging, healthcheck, swap, drain and promotion.
pub proof fn lemma_single_replica_path(i: StepInput)
    requires
        effective_replicas(i.replicas) == 1,
    ensures
        run_ok(DeployState::Pending, i, 1) == DeployState::PreDeployCheck,
        run_ok(DeployState::Pending, i, 2) == DeployState::ResolvingDeps,
        i.source == SourceKind::Compose ==> run_ok(DeployState::Pending, i, 3)
            == DeployState::ComposingUp && run_ok(DeployState::Pending, i, 4) == DeployState::Live,
        i.source == SourceKind::Git ==> run_ok(DeployState::Pending, i, 3) == DeployState::CloningRepo
            && run_ok(DeployState::Pending, i, 4) == DeployState::BuildingImage
            && run_ok(DeployState::Pending, i, 5) == DeployState::Staging,
        i.source == SourceKind::Archive ==> run_ok(DeployState::Pending, i, 3)
            == DeployState::BuildingImage && run_ok(DeployState::Pending, i, 4) == DeployState::Staging,
        i.source == SourceKind::Registry ==> run_ok(DeployState::Pending, i, 3)
            == DeployState::PullingImage && run_ok(DeployState::Pending, i, 4) == DeployState::Staging,
        run_ok(DeployState::Staging, i, 1) == DeployState::HealthcheckPolling,
        run_ok(DeployState::Staging, i, 2) == DeployState::SwappingIn,
        run_ok(DeployState::Staging, i, 3) == DeployState::Draining,
        run_ok(DeployState::Staging, i, 4) == DeployState::Promoting,
        run_ok(DeployState::Staging, i, 5) == DeployState::Live,
{
    reveal_with_fuel(run_ok, 6);
}

} // verus!
