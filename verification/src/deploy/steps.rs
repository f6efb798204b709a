//! The details of individual steps: image tags, the lines they log, the
//! verdict on each pre-deploy check and on each healthcheck attempt.

use vstd::prelude::*;
use crate::deploy::failure::{
    missing_dockerfile_msg, missing_dockerfile_text, rollback_cause, rollback_cause_of, views,
    Deployment,
};
use crate::docker::names::{live_name_of, replica_live_name, replica_staging_name, staging_name_of};
use crate::deploy::state::DeployState;
use crate::service::ServiceSource;
use crate::text::{dec, push_decimal, push_signed_decimal, push_str, sdec};

verus! {

/// The image a deployment runs: the registry image itself, a tag built for
/// this deployment (`rp_<name>:<short id>`), or a marker for a Compose stack.
pub open spec fn image_of(source: ServiceSource, safe_name: Seq<char>, dep_short: Seq<char>) -> Seq<
    char,
> {
    match source {
        ServiceSource::Registry { image } => image@,
        ServiceSource::Compose(c) => "compose:"@ + c.content@,
        _ => "rp_"@ + safe_name + ":"@ + dep_short,
    }
}

/// The line logged when the source of a deployment has been resolved.
pub open spec fn announce_text(source: ServiceSource) -> Seq<char> {
    match source {
        ServiceSource::Registry { image } => "--> Pulling image: "@ + image@,
        ServiceSource::Git(g) => "--> Clonando repositório: "@ + g.url@ + " ("@ + g.branch@
            + ")"@,
        ServiceSource::Archive(_) => "--> Preparando zip enviado"@,
        ServiceSource::Compose(_) => "--> Executando docker compose up"@,
    }
}

/// The pre-deploy check jobs of a service: the list when it has any,
/// otherwise the single job of the older setting, if set.
pub open spec fn checks_of(ids: Seq<String>, legacy: Option<String>) -> Seq<Seq<char>> {
    if ids.len() > 0 {
        views(ids)
    } else {
        match legacy {
            Some(j) => seq![j@],
            None => Seq::empty(),
        }
    }
}

/// `<idx + 1>/<total>`.
pub open spec fn position(idx: nat, total: nat) -> Seq<char> {
    dec(idx + 1) + "/"@ + dec(total)
}

/// The outcome of one pre-deploy check: its log line when the job exited
/// with 0, otherwise the error that stops the queue (a job that could not
/// run counts as exit code -1).
pub open spec fn check_verdict_of(idx: nat, total: nat, name: Seq<char>, exit: Option<int>) -> Result<
    Seq<char>,
    Seq<char>,
> {
    let code = match exit {
        Some(c) => c,
        None => -1,
    };
    if code == 0 {
        Ok("--> Pré-deploy check "@ + position(idx, total) + " OK"@)
    } else {
        Err(
            "pré-deploy check "@ + position(idx, total) + " ("@ + name + ") falhou (exit code "@
                + sdec(code) + ")"@,
        )
    }
}

/// What one healthcheck attempt decides.
#[derive(Clone, Copy, Debug, PartialEq, Eq, Structural)]
pub enum HealthVerdict {
    /// The service answers: go on.
    Passed,
    /// Not yet: wait an interval and try again.
    Retry,
    /// The container is gone: fail.
    Stopped,
    /// No attempt is left: fail.
    Exhausted,
}

/// The decision of attempt `attempt` (from 0) out of `max`: a stopped
/// container fails at once, a service without healthcheck or whose probe
/// succeeded passes, otherwise it retries while attempts remain.
pub open spec fn verdict_of(attempt: nat, max: nat, running: bool, no_check: bool, probe_ok: bool) -> HealthVerdict {
    if !running {
        HealthVerdict::Stopped
    } else if no_check || probe_ok {
        HealthVerdict::Passed
    } else if attempt + 1 < max {
        HealthVerdict::Retry
    } else {
        HealthVerdict::Exhausted
    }
}

/// The image a deployment runs (see [`image_of`]); `safe_name` is the
/// service name normalised for Docker and `dep_short` the short id of the
/// deployment.
pub fn image_for(source: &ServiceSource, safe_name: &str, dep_short: &str) -> (r: String)
    ensures
        r@ == image_of(*source, safe_name@, dep_short@),
{
    let mut s = String::new();
    match source {
        ServiceSource::Registry { image } => {
            push_str(&mut s, image.as_str());
        },
        ServiceSource::Compose(c) => {
            push_str(&mut s, "compose:");
            push_str(&mut s, c.content.as_str());
        },
        _ => {
            push_str(&mut s, "rp_");
            push_str(&mut s, safe_name);
            push_str(&mut s, ":");
            push_str(&mut s, dep_short);
        },
    }
    assert(s@ =~= image_of(*source, safe_name@, dep_short@));
    s
}

/// The line logged when the source of a deployment has been resolved.
pub fn announce_line(source: &ServiceSource) -> (r: String)
    ensures
        r@ == announce_text(*source),
{
    let mut s = String::new();
    match source {
        ServiceSource::Registry { image } => {
            push_str(&mut s, "--> Pulling image: ");
            push_str(&mut s, image.as_str());
        },
        ServiceSource::Git(g) => {
            push_str(&mut s, "--> Clonando repositório: ");
            push_str(&mut s, g.url.as_str());
            push_str(&mut s, " (");
            push_str(&mut s, g.branch.as_str());
            push_str(&mut s, ")");
        },
        ServiceSource::Archive(_) => {
            push_str(&mut s, "--> Preparando zip enviado");
        },
        ServiceSource::Compose(_) => {
            push_str(&mut s, "--> Executando docker compose up");
        },
    }
    assert(s@ =~= announce_text(*source));
    s
}

/// The pre-deploy check jobs of a service (see [`checks_of`]).
pub fn pre_deploy_checks(ids: &Vec<String>, legacy: &Option<String>) -> (r: Vec<String>)
    ensures
        views(r@) == checks_of(ids@, *legacy),
{
    let mut out: Vec<String> = Vec::new();
    if ids.len() > 0 {
        let mut i: usize = 0;
        while i < ids.len()
            invariant
                i <= ids@.len(),
                views(out@) == views(ids@).take(i as int),
            decreases ids.len() - i,
        {
            let mut s = String::new();
            push_str(&mut s, ids[i].as_str());
            assert(s@ =~= ids@[i as int]@);
            let ghost before = out@;
            assert(views(before) == views(ids@).take(i as int));
            assert(views(before).len() == i);
            out.push(s);
            assert forall|k: int| 0 <= k < i + 1 implies views(out@)[k] == views(ids@).take(i + 1)[k] by {
                if k < i {
                    assert(views(before)[k] == views(ids@).take(i as int)[k]);
                }
            }
            assert(views(out@) =~= views(ids@).take(i + 1));
            i = i + 1;
        }
        assert(views(ids@).take(ids@.len() as int) =~= views(ids@));
    } else {
        match legacy {
            Some(j) => {
                let mut s = String::new();
                push_str(&mut s, j.as_str());
                out.push(s);
                assert(views(out@) =~= seq![j@]);
            },
            None => {
                assert(views(out@) =~= Seq::<Seq<char>>::empty());
            },
        }
    }
    out
}

fn push_position(out: &mut String, idx: usize, total: usize)
    requires
        idx < total,
        total <= u64::MAX,
    ensures
        final(out)@ == old(out)@ + position(idx as nat, total as nat),
{
    push_decimal(out, (idx + 1) as u64);
    push_str(out, "/");
    push_decimal(out, total as u64);
    assert(out@ =~= old(out)@ + position(idx as nat, total as nat));
}

/// The line logged before pre-deploy check `idx` of `total` runs.
pub fn check_started_line(idx: usize, total: usize, name: &str) -> (r: String)
    requires
        idx < total,
    ensures
        r@ == "==> Pré-deploy check "@ + position(idx as nat, total as nat) + ": "@ + name@,
{
    let mut s = String::new();
    push_str(&mut s, "==> Pré-deploy check ");
    push_position(&mut s, idx, total);
    push_str(&mut s, ": ");
    push_str(&mut s, name);
    s
}

/// The error for a pre-deploy check whose job no longer exists.
pub fn check_missing_msg(job_id: &str) -> (r: String)
    ensures
        r@ == "job de pré-deploy check não encontrado: "@ + job_id@,
{
    let mut s = String::new();
    push_str(&mut s, "job de pré-deploy check não encontrado: ");
    push_str(&mut s, job_id);
    s
}

/// The outcome of pre-deploy check `idx` of `total`, from the exit code of
/// its job (`Err` when the job could not run); see [`check_verdict_of`].
pub fn check_verdict(idx: usize, total: usize, name: &str, run: &Result<i32, String>) -> (r:
    Result<String, String>)
    requires
        idx < total,
    ensures
        r matches Ok(l) ==> check_verdict_of(
            idx as nat,
            total as nat,
            name@,
            match run {
                Ok(c) => Some(*c as int),
                Err(_) => None,
            },
        ) == Ok::<Seq<char>, Seq<char>>(l@),
        r matches Err(e) ==> check_verdict_of(
            idx as nat,
            total as nat,
            name@,
            match run {
                Ok(c) => Some(*c as int),
                Err(_) => None,
            },
        ) == Err::<Seq<char>, Seq<char>>(e@),
{
    let code: i32 = match run {
        Ok(c) => *c,
        Err(_) => -1,
    };
    if code == 0 {
        let mut s = String::new();
        push_str(&mut s, "--> Pré-deploy check ");
        push_position(&mut s, idx, total);
        push_str(&mut s, " OK");
        Ok(s)
    } else {
        let mut s = String::new();
        push_str(&mut s, "pré-deploy check ");
        push_position(&mut s, idx, total);
        push_str(&mut s, " (");
        push_str(&mut s, name);
        push_str(&mut s, ") falhou (exit code ");
        push_signed_decimal(&mut s, code);
        push_str(&mut s, ")");
        Err(s)
    }
}

/// The decision of one healthcheck attempt (see [`verdict_of`]).
pub fn health_verdict(attempt: u32, max: u32, running: bool, no_check: bool, probe_ok: bool) -> (v:
    HealthVerdict)
    ensures
        v == verdict_of(attempt as nat, max as nat, running, no_check, probe_ok),
{
    if !running {
        HealthVerdict::Stopped
    } else if no_check || probe_ok {
        HealthVerdict::Passed
    } else if attempt as u64 + 1 < max as u64 {
        HealthVerdict::Retry
    } else {
        HealthVerdict::Exhausted
    }
}

/// The health Docker reports for a container with a `HEALTHCHECK`.
#[derive(Clone, Copy, Debug, PartialEq, Eq, Structural)]
pub enum HealthStatus {
    Empty,
    NoCheck,
    Starting,
    Healthy,
    Unhealthy,
}

/// Whether a Docker-native healthcheck attempt passes: an image without a
/// `HEALTHCHECK` (no status) passes while running; otherwise only
/// `healthy` passes (`starting` waits for the next attempt, `unhealthy`
/// fails it).
pub fn docker_health_ok(status: Option<HealthStatus>) -> (b: bool)
    ensures
        b == (status is None || status == Some(HealthStatus::Healthy)),
{
    match status {
        None => true,
        Some(HealthStatus::Healthy) => true,
        Some(_) => false,
    }
}

/// The error of a healthcheck that never passed.
pub fn health_exhausted_msg(max: u32) -> (r: String)
    ensures
        r@ == "healthcheck failed after "@ + dec(max as nat) + " retries"@,
{
    let mut s = String::new();
    push_str(&mut s, "healthcheck failed after ");
    push_decimal(&mut s, max as u64);
    push_str(&mut s, " retries");
    s
}

/// The address a TCP healthcheck connects to.
pub fn health_addr(ip: &str, port: u16) -> (r: String)
    ensures
        r@ == ip@ + ":"@ + dec(port as nat),
{
    let mut s = String::new();
    push_str(&mut s, ip);
    push_str(&mut s, ":");
    push_decimal(&mut s, port as u64);
    s
}

/// The URL an HTTP healthcheck requests.
pub fn health_url(ip: &str, port: u16, path: &str) -> (r: String)
    ensures
        r@ == "http://"@ + ip@ + ":"@ + dec(port as nat) + path@,
{
    let mut s = String::new();
    push_str(&mut s, "http://");
    push_str(&mut s, ip);
    push_str(&mut s, ":");
    push_decimal(&mut s, port as u64);
    push_str(&mut s, path);
    assert(s@ =~= "http://"@ + ip@ + ":"@ + dec(port as nat) + path@);
    s
}

/// The build-log block for a container that stopped during its
/// healthcheck: its last output framed by two rulers, or a note that it
/// printed nothing.
pub fn crash_log_block(output: &Vec<String>) -> (r: Vec<String>)
    ensures
        output@.len() == 0 ==> views(r@) == seq!["  [sem output do container]"@],
        output@.len() > 0 ==> views(r@) == seq!["--- output do container ---"@] + views(output@)
            + seq!["--------------------------"@],
{
    let mut r: Vec<String> = Vec::new();
    if output.len() == 0 {
        let mut s = String::new();
        push_str(&mut s, "  [sem output do container]");
        r.push(s);
        assert(views(r@) =~= seq!["  [sem output do container]"@]);
        return r;
    }
    let mut head = String::new();
    push_str(&mut head, "--- output do container ---");
    r.push(head);
    let mut i: usize = 0;
    while i < output.len()
        invariant
            i <= output@.len(),
            views(r@) == seq!["--- output do container ---"@] + views(output@).take(i as int),
        decreases output.len() - i,
    {
        let mut s = String::new();
        push_str(&mut s, output[i].as_str());
        assert(s@ =~= output@[i as int]@);
        let ghost before = r@;
        assert(views(before) == seq!["--- output do container ---"@] + views(output@).take(i as int));
        assert(views(before).len() == i + 1);
        r.push(s);
        assert forall|k: int| 0 <= k < i + 2 implies views(r@)[k] == (seq!["--- output do container ---"@] + views(output@).take(i + 1))[k] by {
            if k < i + 1 {
                assert(views(before)[k] == (seq!["--- output do container ---"@] + views(output@).take(i as int))[k]);
            }
        }
        assert(views(r@) =~= seq!["--- output do container ---"@] + views(output@).take(i + 1));
        i = i + 1;
    }
    assert(views(output@).take(output@.len() as int) =~= views(output@));
    let mut tail = String::new();
    push_str(&mut tail, "--------------------------");
    r.push(tail);
    assert(views(r@) =~= seq!["--- output do container ---"@] + views(output@) + seq![
        "--------------------------"@,
    ]);
    r
}

/// A healthcheck never makes more attempts than it is given: it only asks
/// for another when one remains.
pub proof fn lemma_health_bounded(attempt: nat, max: nat, running: bool, no_check: bool, probe_ok: bool)
    ensures
        verdict_of(attempt, max, running, no_check, probe_ok) == HealthVerdict::Retry ==> attempt
            + 1 < max,
        !running ==> verdict_of(attempt, max, running, no_check, probe_ok)
            == HealthVerdict::Stopped,
{
}

/// The addresses of the replicas that are up, in replica order.
pub open spec fn active_of(ips: Seq<Option<String>>) -> Seq<Seq<char>>
    decreases ips.len(),
{
    if ips.len() == 0 {
        Seq::empty()
    } else {
        let r = active_of(ips.drop_last());
        match ips.last() {
            Some(ip) => r.push(ip@),
            None => r,
        }
    }
}

/// During a rolling update, the addresses the ingress is pointed at: those
/// of the replicas that are up (replaced ones, and old ones not yet
/// reached).
pub fn active_ips(ips: &Vec<Option<String>>) -> (r: Vec<String>)
    ensures
        views(r@) == active_of(ips@),
{
    let mut r: Vec<String> = Vec::new();
    let mut i: usize = 0;
    assert(ips@.take(0) =~= Seq::<Option<String>>::empty());
    while i < ips.len()
        invariant
            i <= ips@.len(),
            views(r@) == active_of(ips@.take(i as int)),
        decreases ips.len() - i,
    {
        assert(ips@.take(i + 1).drop_last() =~= ips@.take(i as int));
        if let Some(ip) = &ips[i] {
            let mut s = String::new();
            push_str(&mut s, ip.as_str());
            let ghost before = views(r@);
            r.push(s);
            assert(views(r@) =~= before.push(ip@));
        }
        i = i + 1;
    }
    assert(ips@.take(ips@.len() as int) =~= ips@);
    r
}

/// Once every replica has been replaced, all of them serve traffic.
pub proof fn lemma_all_replaced_all_active(ips: Seq<Option<String>>)
    requires
        forall|i: int| 0 <= i < ips.len() ==> ips[i] is Some,
    ensures
        active_of(ips).len() == ips.len(),
        forall|i: int| 0 <= i < ips.len() ==> active_of(ips)[i] == ips[i]->Some_0@,
    decreases ips.len(),
{
    if ips.len() > 0 {
        let init = ips.drop_last();
        assert forall|i: int| 0 <= i < init.len() implies init[i] is Some by {
            assert(init[i] == ips[i]);
        }
        lemma_all_replaced_all_active(init);
        assert forall|i: int| 0 <= i < ips.len() implies active_of(ips)[i] == ips[i]->Some_0@ by {
            if i < init.len() {
                assert(init[i] == ips[i]);
            }
        }
    }
}

/// A rolling update has promoted replica `i` (of `ips.len()`), now at
/// `ip`: it is recorded as up, and the result is the addresses to route to
/// from now on (see [`active_of`]) with the progress line to report.
pub fn replica_promoted(ips: &mut Vec<Option<String>>, i: usize, ip: String) -> (r: (
    Vec<String>,
    String,
))
    requires
        i < old(ips)@.len(),
    ensures
        final(ips)@ == old(ips)@.update(i as int, Some(ip)),
        views(r.0@) == active_of(final(ips)@),
        r.1@ == "replica "@ + position(i as nat, old(ips)@.len()) + " ok"@,
{
    ips.set(i, Some(ip));
    let active = active_ips(ips);
    let mut line = String::new();
    push_str(&mut line, "replica ");
    push_position(&mut line, i, ips.len());
    push_str(&mut line, " ok");
    (active, line)
}

/// The deployments a promoted one supersedes: the other deployments of the
/// service still `Live`, in history order.
pub open spec fn superseded_of(history: Seq<Deployment>, current: Seq<char>) -> Seq<Seq<char>>
    decreases history.len(),
{
    if history.len() == 0 {
        Seq::empty()
    } else {
        let r = superseded_of(history.drop_last(), current);
        let d = history.last();
        if d.id@ != current && d.state == DeployState::Live {
            r.push(d.id@)
        } else {
            r
        }
    }
}

/// The ids of the deployments that move to `Pruning` when `current_id` is
/// promoted (see [`superseded_of`]), so that a service has one `Live`
/// deployment.
pub fn superseded_ids(history: &Vec<Deployment>, current_id: &str) -> (r: Vec<String>)
    ensures
        views(r@) == superseded_of(history@, current_id@),
{
    let mut r: Vec<String> = Vec::new();
    let mut i: usize = 0;
    assert(history@.take(0) =~= Seq::<Deployment>::empty());
    while i < history.len()
        invariant
            i <= history@.len(),
            views(r@) == superseded_of(history@.take(i as int), current_id@),
        decreases history.len() - i,
    {
        assert(history@.take(i + 1).drop_last() =~= history@.take(i as int));
        let d = &history[i];
        if !crate::text::str_eq(d.id.as_str(), current_id) && d.state == DeployState::Live {
            let mut s = String::new();
            push_str(&mut s, d.id.as_str());
            let ghost before = views(r@);
            r.push(s);
            assert(views(r@) =~= before.push(d.id@));
        }
        i = i + 1;
    }
    assert(history@.take(history@.len() as int) =~= history@);
    r
}

/// Every other deployment that was `Live` is superseded, and only those.
pub proof fn lemma_one_live_after_promotion(history: Seq<Deployment>, current: Seq<char>, x: Seq<char>)
    ensures
        superseded_of(history, current).contains(x) <==> exists|j: int|
            0 <= j < history.len() && #[trigger] history[j].id@ == x && x != current && history[j].state
                == DeployState::Live,
    decreases history.len(),
{
    if history.len() > 0 {
        let init = history.drop_last();
        let last = history.len() - 1;
        lemma_one_live_after_promotion(init, current, x);
        if superseded_of(history, current).contains(x) {
            if superseded_of(init, current).contains(x) {
                let j = choose|j: int|
                    0 <= j < init.len() && #[trigger] init[j].id@ == x && x != current && init[j].state
                        == DeployState::Live;
                assert(history[j] == init[j]);
            } else {
                assert(history[last].id@ == x);
            }
        }
        if exists|j: int|
            0 <= j < history.len() && #[trigger] history[j].id@ == x && x != current && history[j].state
                == DeployState::Live {
            let j = choose|j: int|
                0 <= j < history.len() && #[trigger] history[j].id@ == x && x != current && history[j].state
                    == DeployState::Live;
            if j < last {
                assert(init[j] == history[j]);
                assert(superseded_of(init, current).contains(x));
                let k = choose|k: int| 0 <= k < superseded_of(init, current).len() && superseded_of(init, current)[k] == x;
                let h = history.last();
                if h.id@ != current && h.state == DeployState::Live {
                    assert(superseded_of(history, current)[k] == x);
                }
            } else {
                let r = superseded_of(init, current);
                assert(superseded_of(history, current) == r.push(x));
                assert(superseded_of(history, current)[r.len() as int] == x);
            }
        }
    }
}


/// What looking up and running one pre-deploy check gave.
pub enum CheckRun {
    /// The job no longer exists.
    Missing,
    /// The job was found and run: its name and its exit code (`Err` when it
    /// could not run at all).
    Ran { name: String, run: Result<i32, String> },
}

/// The exit code of a run, `None` when the job could not run.
pub open spec fn exit_of(run: Result<i32, String>) -> Option<int> {
    match run {
        Ok(c) => Some(c as int),
        Err(_) => None,
    }
}

/// The error with which check `k` of the queue `ids` stops it, if it does:
/// a missing job, or a run that did not exit with 0.
pub open spec fn check_failure_of(ids: Seq<Seq<char>>, runs: Seq<CheckRun>, k: int) -> Option<
    Seq<char>,
> {
    match runs[k] {
        CheckRun::Missing => Some("job de pré-deploy check não encontrado: "@ + ids[k]),
        CheckRun::Ran { name, run } => match check_verdict_of(
            k as nat,
            ids.len(),
            name@,
            exit_of(run),
        ) {
            Ok(_) => None,
            Err(e) => Some(e),
        },
    }
}

/// Where the queue of pre-deploy checks stands.
pub enum CheckQueue {
    /// Every check passed: the deployment goes on.
    Passed,
    /// The checks so far passed: check `next` runs now.
    Next(usize),
    /// Check `at` stopped the queue with `error`; no later check runs.
    Failed { at: usize, error: String },
}

/// The state of the pre-deploy queue `ids` after the checks whose outcome
/// is in `runs`, in order: the first missing or failing check ends the
/// whole queue with its error, and until then the next check is due.
pub fn check_queue(ids: &Vec<String>, runs: &Vec<CheckRun>) -> (q: CheckQueue)
    requires
        runs@.len() <= ids@.len(),
    ensures
        match q {
            CheckQueue::Passed => runs@.len() == ids@.len() && forall|j: int|
                0 <= j < runs@.len() ==> check_failure_of(views(ids@), runs@, j) is None,
            CheckQueue::Next(n) => n == runs@.len() && runs@.len() < ids@.len() && forall|j: int|
                0 <= j < runs@.len() ==> check_failure_of(views(ids@), runs@, j) is None,
            CheckQueue::Failed { at, error } => at < runs@.len() && check_failure_of(
                views(ids@),
                runs@,
                at as int,
            ) == Some(error@) && forall|j: int|
                0 <= j < at ==> check_failure_of(views(ids@), runs@, j) is None,
        },
{
    let mut i: usize = 0;
    while i < runs.len()
        invariant
            i <= runs@.len(),
            runs@.len() <= ids@.len(),
            forall|j: int| 0 <= j < i ==> check_failure_of(views(ids@), runs@, j) is None,
        decreases runs.len() - i,
    {
        match &runs[i] {
            CheckRun::Missing => {
                let e = check_missing_msg(ids[i].as_str());
                return CheckQueue::Failed { at: i, error: e };
            },
            CheckRun::Ran { name, run } => {
                match check_verdict(i, ids.len(), name.as_str(), run) {
                    Ok(_) => {},
                    Err(e) => {
                        return CheckQueue::Failed { at: i, error: e };
                    },
                }
            },
        }
        i = i + 1;
    }
    if runs.len() == ids.len() {
        CheckQueue::Passed
    } else {
        CheckQueue::Next(runs.len())
    }
}

/// Once a check has stopped the queue, what comes after it does not
/// matter: with any further outcomes appended, the same check stops the
/// queue with the same error, and none before it does.
pub proof fn lemma_queue_stops_at_first_failure(
    ids: Seq<Seq<char>>,
    runs: Seq<CheckRun>,
    more: Seq<CheckRun>,
    k: int,
)
    requires
        0 <= k < runs.len(),
        check_failure_of(ids, runs, k) is Some,
        forall|j: int| 0 <= j < k ==> check_failure_of(ids, runs, j) is None,
    ensures
        check_failure_of(ids, runs + more, k) == check_failure_of(ids, runs, k),
        forall|j: int| 0 <= j < k ==> check_failure_of(ids, runs + more, j) is None,
{
    assert((runs + more)[k] == runs[k]);
    assert forall|j: int| 0 <= j < k implies check_failure_of(ids, runs + more, j) is None by {
        assert((runs + more)[j] == runs[j]);
        assert(check_failure_of(ids, runs, j) is None);
    }
}

/// What an image build works from: the build context, relative to the
/// checked-out tree, and the Dockerfile, relative to the context.
pub struct BuildInput {
    pub context: String,
    pub dockerfile: String,
}

/// The build context and Dockerfile of a source that is built here; only
/// Git and Archive sources are.
pub fn build_input(source: &ServiceSource) -> (r: Result<BuildInput, String>)
    ensures
        match *source {
            ServiceSource::Git(g) => r matches Ok(b) && b.context@ == g.build_context@
                && b.dockerfile@ == g.dockerfile_path@,
            ServiceSource::Archive(a) => r matches Ok(b) && b.context@ == a.build_context@
                && b.dockerfile@ == a.dockerfile_path@,
            _ => r matches Err(e) && e@ == "expected Git or Archive source"@,
        },
{
    match source {
        ServiceSource::Git(g) => {
            let mut c = String::new();
            push_str(&mut c, g.build_context.as_str());
            let mut d = String::new();
            push_str(&mut d, g.dockerfile_path.as_str());
            Ok(BuildInput { context: c, dockerfile: d })
        },
        ServiceSource::Archive(a) => {
            let mut c = String::new();
            push_str(&mut c, a.build_context.as_str());
            let mut d = String::new();
            push_str(&mut d, a.dockerfile_path.as_str());
            Ok(BuildInput { context: c, dockerfile: d })
        },
        _ => {
            let mut e = String::new();
            push_str(&mut e, "expected Git or Archive source");
            Err(e)
        },
    }
}

/// The go-ahead of a build: the tag it produces and the line logged
/// before it starts.
pub struct BuildStart {
    pub tag: String,
    pub line: String,
}

/// The decision taken once the Dockerfile has been looked for under the
/// build context: without it the step fails before any build, with the
/// explanation of [`missing_dockerfile_msg`]; with it the build of
/// `rp_<name>:<short id>` starts.
pub fn build_start(
    source: &ServiceSource,
    dockerfile: &str,
    dockerfile_present: bool,
    safe_name: &str,
    dep_short: &str,
) -> (r: Result<BuildStart, String>)
    ensures
        r is Err <==> !dockerfile_present,
        r matches Err(e) ==> e@ == missing_dockerfile_text(*source, dockerfile@),
        r matches Ok(b) ==> b.tag@ == "rp_"@ + safe_name@ + ":"@ + dep_short@ && b.line@
            == "--> Build Docker: "@ + b.tag@ + " ("@ + dockerfile@ + ")"@,
{
    if !dockerfile_present {
        return Err(missing_dockerfile_msg(source, dockerfile));
    }
    let mut tag = String::new();
    push_str(&mut tag, "rp_");
    push_str(&mut tag, safe_name);
    push_str(&mut tag, ":");
    push_str(&mut tag, dep_short);
    let mut line = String::new();
    push_str(&mut line, "--> Build Docker: ");
    push_str(&mut line, tag.as_str());
    push_str(&mut line, " (");
    push_str(&mut line, dockerfile);
    push_str(&mut line, ")");
    Ok(BuildStart { tag, line })
}

/// The error a failed healthcheck verdict ends the step with; none for a
/// verdict that goes on.
pub fn health_failure(v: HealthVerdict, max: u32) -> (r: Option<String>)
    ensures
        v == HealthVerdict::Stopped ==> (r matches Some(m) && m@
            == "container stopped during healthcheck"@),
        v == HealthVerdict::Exhausted ==> (r matches Some(m) && m@ == "healthcheck failed after "@
            + dec(max as nat) + " retries"@),
        v == HealthVerdict::Passed || v == HealthVerdict::Retry ==> r is None,
{
    match v {
        HealthVerdict::Stopped => {
            let mut m = String::new();
            push_str(&mut m, "container stopped during healthcheck");
            Some(m)
        },
        HealthVerdict::Exhausted => Some(health_exhausted_msg(max)),
        _ => None,
    }
}

/// What a rollback does: take a Compose stack down, or remove the staging
/// container of every replica of this deployment and look up the live
/// containers of the replicas to route back to; in both cases the service
/// is then marked as failed with the cause of the rollback.
pub struct RollbackPlan {
    pub compose_down: bool,
    pub staging: Vec<String>,
    pub live: Vec<String>,
    pub error_status: String,
}

/// The rollback of deployment `dep` of a service of `replicas` replicas
/// (at least one is counted).
pub fn rollback_plan(
    source: &ServiceSource,
    safe_name: &str,
    dep_short: &str,
    replicas: u32,
    dep: &Deployment,
) -> (p: RollbackPlan)
    ensures
        p.compose_down == (source is Compose),
        p.error_status@ == rollback_cause_of(dep.states_log@),
        source is Compose ==> (p.staging@.len() == 0 && p.live@.len() == 0),
        !(source is Compose) ==> {
            &&& p.staging@.len() == (if replicas == 0 { 1 } else { replicas as int })
            &&& p.live@.len() == p.staging@.len()
            &&& forall|i: int| 0 <= i < p.staging@.len() ==> p.staging@[i]@ == staging_name_of(
                safe_name@,
                dep_short@,
                i as nat,
            )
            &&& forall|i: int| 0 <= i < p.live@.len() ==> p.live@[i]@ == live_name_of(
                safe_name@,
                i as nat,
            )
        },
{
    let error_status = rollback_cause(dep);
    let mut staging: Vec<String> = Vec::new();
    let mut live: Vec<String> = Vec::new();
    if let ServiceSource::Compose(_) = source {
        return RollbackPlan { compose_down: true, staging, live, error_status };
    }
    let n: u32 = if replicas == 0 { 1 } else { replicas };
    let mut i: u32 = 0;
    while i < n
        invariant
            i <= n,
            staging@.len() == i,
            live@.len() == i,
            forall|k: int| 0 <= k < i ==> staging@[k]@ == staging_name_of(safe_name@, dep_short@, k as nat),
            forall|k: int| 0 <= k < i ==> live@[k]@ == live_name_of(safe_name@, k as nat),
        decreases n - i,
    {
        staging.push(replica_staging_name(safe_name, dep_short, i));
        live.push(replica_live_name(safe_name, i));
        i = i + 1;
    }
    RollbackPlan { compose_down: false, staging, live, error_status }
}


/// The probe decides a running container's attempt: a successful probe (or
/// no healthcheck to run) passes whatever the attempt, and a failed probe
/// never passes: it retries while attempts remain, and fails on the last.
pub proof fn lemma_probe_decides(attempt: nat, max: nat, no_check: bool, probe_ok: bool)
    ensures
        no_check || probe_ok ==> verdict_of(attempt, max, true, no_check, probe_ok)
            == HealthVerdict::Passed,
        !no_check && !probe_ok && attempt + 1 < max ==> verdict_of(attempt, max, true, no_check, probe_ok)
            == HealthVerdict::Retry,
        !no_check && !probe_ok && attempt + 1 >= max ==> verdict_of(attempt, max, true, no_check, probe_ok)
            == HealthVerdict::Exhausted,
{
}


/// A check stops the queue exactly when its job is missing or did not exit
/// with 0 (a job that could not run counts as failed); the error of a
/// missing job names it.
pub proof fn lemma_check_failure(ids: Seq<Seq<char>>, runs: Seq<CheckRun>, k: int)
    requires
        0 <= k < runs.len(),
        k < ids.len(),
    ensures
        runs[k] is Missing ==> check_failure_of(ids, runs, k) == Some(
            "job de pré-deploy check não encontrado: "@ + ids[k],
        ),
        runs[k] matches CheckRun::Ran { name, run } ==> (check_failure_of(ids, runs, k) is None
            <==> run == Ok::<i32, String>(0i32)),
{
}

} // verus!
