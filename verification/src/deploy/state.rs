//! The states a deployment moves through, their stored names, and which of
//! them end a deployment.

use vstd::prelude::*;
use crate::text::str_eq;

verus! {

/// Where a deployment stands in the pipeline.
#[derive(Clone, Copy, Debug, PartialEq, Eq, Structural)]
pub enum DeployState {
    Pending,
    PreDeployCheck,
    ResolvingDeps,
    PullingImage,
    CloningRepo,
    BuildingImage,
    Staging,
    HealthcheckPolling,
    SwappingIn,
    Draining,
    Promoting,
    Live,
    Stopped,
    RollingBack,
    Failed,
    Pruning,
    ComposingUp,
}

/// The name under which a state is stored and shown.
pub open spec fn label_of(s: DeployState) -> Seq<char> {
    match s {
        DeployState::Pending => "Pending"@,
        DeployState::PreDeployCheck => "PreDeployCheck"@,
        DeployState::ResolvingDeps => "ResolvingDeps"@,
        DeployState::PullingImage => "PullingImage"@,
        DeployState::CloningRepo => "CloningRepo"@,
        DeployState::BuildingImage => "BuildingImage"@,
        DeployState::Staging => "Staging"@,
        DeployState::HealthcheckPolling => "HealthcheckPolling"@,
        DeployState::SwappingIn => "SwappingIn"@,
        DeployState::Draining => "Draining"@,
        DeployState::Promoting => "Promoting"@,
        DeployState::Live => "Live"@,
        DeployState::Stopped => "Stopped"@,
        DeployState::RollingBack => "RollingBack"@,
        DeployState::Failed => "Failed"@,
        DeployState::Pruning => "Pruning"@,
        DeployState::ComposingUp => "ComposingUp"@,
    }
}

/// A deployment in one of these states is finished: nothing runs for it.
pub open spec fn terminal(s: DeployState) -> bool {
    s == DeployState::Live || s == DeployState::Stopped || s == DeployState::Failed || s
        == DeployState::Pruning
}

/// The states whose stored name is read back; `PreDeployCheck` is not among
/// them, and any other text reads as `Failed`.
pub open spec fn parsed(t: Seq<char>) -> DeployState {
    if t == "Pending"@ {
        DeployState::Pending
    } else if t == "ResolvingDeps"@ {
        DeployState::ResolvingDeps
    } else if t == "PullingImage"@ {
        DeployState::PullingImage
    } else if t == "CloningRepo"@ {
        DeployState::CloningRepo
    } else if t == "BuildingImage"@ {
        DeployState::BuildingImage
    } else if t == "Staging"@ {
        DeployState::Staging
    } else if t == "HealthcheckPolling"@ {
        DeployState::HealthcheckPolling
    } else if t == "SwappingIn"@ {
        DeployState::SwappingIn
    } else if t == "Draining"@ {
        DeployState::Draining
    } else if t == "Promoting"@ {
        DeployState::Promoting
    } else if t == "Live"@ {
        DeployState::Live
    } else if t == "Stopped"@ {
        DeployState::Stopped
    } else if t == "RollingBack"@ {
        DeployState::RollingBack
    } else if t == "Failed"@ {
        DeployState::Failed
    } else if t == "Pruning"@ {
        DeployState::Pruning
    } else if t == "ComposingUp"@ {
        DeployState::ComposingUp
    } else {
        DeployState::Failed
    }
}

impl DeployState {
    /// The state's name.
    pub fn label(&self) -> (r: &'static str)
        ensures
            r@ == label_of(*self),
    {
        match self {
            DeployState::Pending => "Pending",
            DeployState::PreDeployCheck => "PreDeployCheck",
            DeployState::ResolvingDeps => "ResolvingDeps",
            DeployState::PullingImage => "PullingImage",
            DeployState::CloningRepo => "CloningRepo",
            DeployState::BuildingImage => "BuildingImage",
            DeployState::Staging => "Staging",
            DeployState::HealthcheckPolling => "HealthcheckPolling",
            DeployState::SwappingIn => "SwappingIn",
            DeployState::Draining => "Draining",
            DeployState::Promoting => "Promoting",
            DeployState::Live => "Live",
            DeployState::Stopped => "Stopped",
            DeployState::RollingBack => "RollingBack",
            DeployState::Failed => "Failed",
            DeployState::Pruning => "Pruning",
            DeployState::ComposingUp => "ComposingUp",
        }
    }

    /// Whether the deployment has finished.
    pub fn is_terminal(&self) -> (b: bool)
        ensures
            b == terminal(*self),
    {
        match self {
            DeployState::Live | DeployState::Stopped | DeployState::Failed
            | DeployState::Pruning => true,
            _ => false,
        }
    }
}

/// Reads a stored state name back.
pub fn parse_state(s: &str) -> (r: DeployState)
    ensures
        r == parsed(s@),
{
    if str_eq(s, "Pending") {
        DeployState::Pending
    } else if str_eq(s, "ResolvingDeps") {
        DeployState::ResolvingDeps
    } else if str_eq(s, "PullingImage") {
        DeployState::PullingImage
    } else if str_eq(s, "CloningRepo") {
        DeployState::CloningRepo
    } else if str_eq(s, "BuildingImage") {
        DeployState::BuildingImage
    } else if str_eq(s, "Staging") {
        DeployState::Staging
    } else if str_eq(s, "HealthcheckPolling") {
        DeployState::HealthcheckPolling
    } else if str_eq(s, "SwappingIn") {
        DeployState::SwappingIn
    } else if str_eq(s, "Draining") {
        DeployState::Draining
    } else if str_eq(s, "Promoting") {
        DeployState::Promoting
    } else if str_eq(s, "Live") {
        DeployState::Live
    } else if str_eq(s, "Stopped") {
        DeployState::Stopped
    } else if str_eq(s, "RollingBack") {
        DeployState::RollingBack
    } else if str_eq(s, "Failed") {
        DeployState::Failed
    } else if str_eq(s, "Pruning") {
        DeployState::Pruning
    } else if str_eq(s, "ComposingUp") {
        DeployState::ComposingUp
    } else {
        DeployState::Failed
    }
}

/// The first characters and the length of each state name, enough to tell
/// any two of them apart.
proof fn lemma_names()
    ensures
        "Pending"@.len() == 7 && "Pending"@[0] == 'P' && "Pending"@[1] == 'e' && "Pending"@[2] == 'n',
        "PreDeployCheck"@.len() == 14 && "PreDeployCheck"@[0] == 'P' && "PreDeployCheck"@[1] == 'r' && "PreDeployCheck"@[2] == 'e',
        "ResolvingDeps"@.len() == 13 && "ResolvingDeps"@[0] == 'R' && "ResolvingDeps"@[1] == 'e' && "ResolvingDeps"@[2] == 's',
        "PullingImage"@.len() == 12 && "PullingImage"@[0] == 'P' && "PullingImage"@[1] == 'u' && "PullingImage"@[2] == 'l',
        "CloningRepo"@.len() == 11 && "CloningRepo"@[0] == 'C' && "CloningRepo"@[1] == 'l' && "CloningRepo"@[2] == 'o',
        "BuildingImage"@.len() == 13 && "BuildingImage"@[0] == 'B' && "BuildingImage"@[1] == 'u' && "BuildingImage"@[2] == 'i',
        "Staging"@.len() == 7 && "Staging"@[0] == 'S' && "Staging"@[1] == 't' && "Staging"@[2] == 'a',
        "HealthcheckPolling"@.len() == 18 && "HealthcheckPolling"@[0] == 'H' && "HealthcheckPolling"@[1] == 'e' && "HealthcheckPolling"@[2] == 'a',
        "SwappingIn"@.len() == 10 && "SwappingIn"@[0] == 'S' && "SwappingIn"@[1] == 'w' && "SwappingIn"@[2] == 'a',
        "Draining"@.len() == 8 && "Draining"@[0] == 'D' && "Draining"@[1] == 'r' && "Draining"@[2] == 'a',
        "Promoting"@.len() == 9 && "Promoting"@[0] == 'P' && "Promoting"@[1] == 'r' && "Promoting"@[2] == 'o',
        "Live"@.len() == 4 && "Live"@[0] == 'L' && "Live"@[1] == 'i' && "Live"@[2] == 'v',
        "Stopped"@.len() == 7 && "Stopped"@[0] == 'S' && "Stopped"@[1] == 't' && "Stopped"@[2] == 'o',
        "RollingBack"@.len() == 11 && "RollingBack"@[0] == 'R' && "RollingBack"@[1] == 'o' && "RollingBack"@[2] == 'l',
        "Failed"@.len() == 6 && "Failed"@[0] == 'F' && "Failed"@[1] == 'a' && "Failed"@[2] == 'i',
        "Pruning"@.len() == 7 && "Pruning"@[0] == 'P' && "Pruning"@[1] == 'r' && "Pruning"@[2] == 'u',
        "ComposingUp"@.len() == 11 && "ComposingUp"@[0] == 'C' && "ComposingUp"@[1] == 'o' && "ComposingUp"@[2] == 'm',
{
    reveal_strlit("Pending");
    reveal_strlit("PreDeployCheck");
    reveal_strlit("ResolvingDeps");
    reveal_strlit("PullingImage");
    reveal_strlit("CloningRepo");
    reveal_strlit("BuildingImage");
    reveal_strlit("Staging");
    reveal_strlit("HealthcheckPolling");
    reveal_strlit("SwappingIn");
    reveal_strlit("Draining");
    reveal_strlit("Promoting");
    reveal_strlit("Live");
    reveal_strlit("Stopped");
    reveal_strlit("RollingBack");
    reveal_strlit("Failed");
    reveal_strlit("Pruning");
    reveal_strlit("ComposingUp");
}

/// Reading back the stored name of a state gives that state, for every
/// state but `PreDeployCheck` (whose name reads back as `Failed`).
pub proof fn lemma_parse_label(s: DeployState)
    ensures
        s != DeployState::PreDeployCheck ==> parsed(label_of(s)) == s,
        parsed(label_of(DeployState::PreDeployCheck)) == DeployState::Failed,
{
    lemma_names();
}

/// Distinct states have distinct names.
pub proof fn lemma_label_injective(a: DeployState, b: DeployState)
    ensures
        label_of(a) == label_of(b) ==> a == b,
{
    lemma_names();
}

} // verus!
