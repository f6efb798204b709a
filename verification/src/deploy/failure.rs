//! What a failed deployment tells its user: the lines written to the build
//! log, the one-line cause shown on the service, and the message for a
//! missing Dockerfile.

use vstd::prelude::*;
use crate::deploy::state::{terminal, DeployState};
use crate::service::ServiceSource;
use crate::text::{
    chars_of, dec, is_blank, is_blank_at, line_bounds, lines, pieces, push_char, push_decimal,
    push_range, push_str, ranges_within, starts_with, starts_with_at, str_eq, string_of,
    string_of_range, trim, trim_at, trim_end, trim_end_at,
};

verus! {

/// One entry of a deployment's state history.
pub struct StateTransition {
    pub from: DeployState,
    pub to: DeployState,
    /// When it happened, in milliseconds since the Unix epoch.
    pub at: i64,
    pub message: Option<String>,
}

/// A deployment of a service, with its state history.
pub struct Deployment {
    pub id: String,
    pub service_id: String,
    pub image: String,
    pub state: DeployState,
    pub states_log: Vec<StateTransition>,
    /// Milliseconds since the Unix epoch.
    pub started_at: i64,
    pub finished_at: Option<i64>,
}

/// The contents of a list of strings.
pub open spec fn views(v: Seq<String>) -> Seq<Seq<char>> {
    Seq::new(v.len(), |i: int| v[i]@)
}

/// The non-blank lines of a text, each without trailing whitespace.
pub open spec fn kept_lines(ls: Seq<Seq<char>>) -> Seq<Seq<char>>
    decreases ls.len(),
{
    if ls.len() == 0 {
        Seq::empty()
    } else {
        let r = kept_lines(ls.drop_last());
        if is_blank(ls.last()) {
            r
        } else {
            r.push(trim_end(ls.last()))
        }
    }
}

/// Build-log lines for a failed step: a `==>` line naming the state and the
/// first line of the cause, then the other lines of the cause indented by
/// four spaces; a single line saying there was no message when the cause
/// has no visible text.
pub open spec fn failure_lines(label: Seq<char>, err: Seq<char>) -> Seq<Seq<char>> {
    let k = kept_lines(lines(err));
    if k.len() == 0 {
        seq!["==> Erro em ["@ + label + "]: falha sem mensagem"@]
    } else {
        Seq::new(
            k.len(),
            |i: int|
                if i == 0 {
                    "==> Erro em ["@ + label + "]: "@ + k[0]
                } else {
                    "    "@ + k[i]
                },
        )
    }
}

/// `s` cut to at most `max` characters: a longer text keeps its first
/// `max - 1` characters, loses trailing whitespace and ends in `'…'`.
pub open spec fn truncated(s: Seq<char>, max: nat) -> Seq<char> {
    if s.len() <= max {
        s
    } else {
        trim_end(s.take(if max >= 1 { max - 1 } else { 0 })).push('…')
    }
}

/// Index of the last transition into `RollingBack`, or `-1`.
pub open spec fn last_rollback(log: Seq<StateTransition>) -> int
    decreases log.len(),
{
    if log.len() == 0 {
        -1
    } else if log.last().to == DeployState::RollingBack {
        log.len() - 1
    } else {
        last_rollback(log.drop_last())
    }
}

/// Index of the first non-blank line, or `-1`.
pub open spec fn first_nonblank(ls: Seq<Seq<char>>) -> int
    decreases ls.len(),
{
    if ls.len() == 0 {
        -1
    } else if !is_blank(ls[0]) {
        0
    } else {
        let r = first_nonblank(ls.drop_first());
        if r < 0 {
            -1
        } else {
            r + 1
        }
    }
}

/// The cause shown on a service whose deployment rolled back: the first
/// non-blank line of the message of the last transition into `RollingBack`,
/// trimmed and cut to 160 characters; `"deploy failed"` when there is none.
pub open spec fn rollback_cause_of(log: Seq<StateTransition>) -> Seq<char> {
    let k = last_rollback(log);
    if k < 0 {
        "deploy failed"@
    } else {
        match log[k].message {
            None => "deploy failed"@,
            Some(m) => {
                let ls = lines(m@);
                let j = first_nonblank(ls);
                if j < 0 {
                    "deploy failed"@
                } else {
                    truncated(trim(ls[j]), 160)
                }
            },
        }
    }
}

/// ` (build context: <ctx>)`, or nothing when the context is the root.
pub open spec fn context_note(ctx: Seq<char>) -> Seq<char> {
    if ctx == "."@ || ctx.len() == 0 {
        Seq::empty()
    } else {
        " (build context: "@ + ctx + ")"@
    }
}

/// The message for a Dockerfile that is not where the service says.
pub open spec fn missing_dockerfile_text(source: ServiceSource, path: Seq<char>) -> Seq<char> {
    match source {
        ServiceSource::Git(g) => "Dockerfile não encontrado no repositório: "@ + path
            + context_note(g.build_context@) + " — branch "@ + g.branch@
            + ". Confira se ele foi commitado e enviado, e se o caminho configurado no serviço está certo."@,
        ServiceSource::Archive(a) => "Dockerfile não encontrado no zip: "@ + path + context_note(
            a.build_context@,
        ),
        _ => "Dockerfile não encontrado: "@ + path,
    }
}

/// An image served by the daemon's own registry: on loopback with the
/// registry's port, or under the registry's public domain (without port).
pub open spec fn embedded_image(image: Seq<char>, port: nat, domain: Option<Seq<char>>) -> bool {
    starts_with(image, "127.0.0.1:"@ + dec(port) + "/"@) || starts_with(
        image,
        "localhost:"@ + dec(port) + "/"@,
    ) || (domain matches Some(d) && starts_with(image, d + "/"@))
}

/// The text of an optional string.
pub open spec fn opt_view(o: Option<&str>) -> Option<Seq<char>> {
    match o {
        Some(d) => Some(d@),
        None => None,
    }
}

proof fn lemma_kept_step(ls: Seq<Seq<char>>, k: int)
    requires
        0 <= k < ls.len(),
    ensures
        kept_lines(ls.take(k + 1)) == if is_blank(ls[k]) {
            kept_lines(ls.take(k))
        } else {
            kept_lines(ls.take(k)).push(trim_end(ls[k]))
        },
{
    assert(ls.take(k + 1).drop_last() =~= ls.take(k));
}

proof fn lemma_first_nonblank_is(ls: Seq<Seq<char>>, i: int)
    requires
        0 <= i <= ls.len(),
        forall|j: int| 0 <= j < i ==> is_blank(#[trigger] ls[j]),
        i < ls.len() ==> !is_blank(ls[i]),
    ensures
        first_nonblank(ls) == if i < ls.len() {
            i
        } else {
            -1
        },
    decreases ls.len(),
{
    if ls.len() > 0 && i > 0 {
        let t = ls.drop_first();
        assert forall|j: int| 0 <= j < i - 1 implies is_blank(#[trigger] t[j]) by {
            assert(t[j] == ls[j + 1]);
        }
        assert(is_blank(ls[0]));
        lemma_first_nonblank_is(t, i - 1);
    }
}

proof fn lemma_last_rollback_prefix(log: Seq<StateTransition>, i: int)
    requires
        0 <= i <= log.len(),
        forall|j: int| i <= j < log.len() ==> (#[trigger] log[j]).to != DeployState::RollingBack,
    ensures
        last_rollback(log) == last_rollback(log.take(i)),
    decreases log.len() - i,
{
    if i < log.len() {
        assert(log.drop_last().take(i) =~= log.take(i));
        assert(log.last() == log[log.len() - 1]);
        lemma_last_rollback_prefix(log.drop_last(), i);
    } else {
        assert(log.take(i) =~= log);
    }
}

proof fn lemma_last_rollback_range(log: Seq<StateTransition>)
    ensures
        -1 <= last_rollback(log) < log.len(),
        last_rollback(log) >= 0 ==> log[last_rollback(log)].to == DeployState::RollingBack,
    decreases log.len(),
{
    if log.len() > 0 && log.last().to != DeployState::RollingBack {
        lemma_last_rollback_range(log.drop_last());
    }
}

/// Build-log lines for the failure of the step run in state `state_label`.
pub fn failure_log_lines(state_label: &str, err: &str) -> (out: Vec<String>)
    ensures
        views(out@) == failure_lines(state_label@, err@),
{
    let v = chars_of(err);
    let r = line_bounds(v.as_slice());
    let ghost ls = lines(err@);
    let mut kept: Vec<String> = Vec::new();
    let mut k: usize = 0;
    while k < r.len()
        invariant
            v@ == err@,
            ranges_within(v@, r@),
            pieces(v@, r@) == ls,
            ls == lines(err@),
            k <= r@.len(),
            views(kept@) == kept_lines(ls.take(k as int)),
        decreases r.len() - k,
    {
        let (a, b) = r[k];
        assert(ls[k as int] == v@.subrange(a as int, b as int));
        proof {
            lemma_kept_step(ls, k as int);
        }
        if !is_blank_at(v.as_slice(), a, b) {
            let e = trim_end_at(v.as_slice(), a, b);
            let line = string_of_range(v.as_slice(), a, e);
            let ghost before = kept@;
            kept.push(line);
            assert(views(kept@) =~= views(before).push(line@));
        }
        k = k + 1;
    }
    assert(ls.take(r@.len() as int) =~= ls);
    let ghost kl = kept_lines(ls);
    let mut out: Vec<String> = Vec::new();
    if kept.len() == 0 {
        let mut s = String::new();
        push_str(&mut s, "==> Erro em [");
        push_str(&mut s, state_label);
        push_str(&mut s, "]: falha sem mensagem");
        out.push(s);
        assert(views(out@) =~= failure_lines(state_label@, err@));
        return out;
    }
    let mut i: usize = 0;
    while i < kept.len()
        invariant
            views(kept@) == kl,
            kl == kept_lines(lines(err@)),
            kl.len() > 0,
            i <= kept@.len(),
            out@.len() == i,
            forall|j: int| 0 <= j < i ==> (#[trigger] out@[j])@ == failure_lines(state_label@, err@)[j],
        decreases kept.len() - i,
    {
        let mut s = String::new();
        if i == 0 {
            push_str(&mut s, "==> Erro em [");
            push_str(&mut s, state_label);
            push_str(&mut s, "]: ");
        } else {
            push_str(&mut s, "    ");
        }
        push_str(&mut s, kept[i].as_str());
        assert(kept@[i as int]@ == kl[i as int]);
        out.push(s);
        i = i + 1;
    }
    assert(views(out@) =~= failure_lines(state_label@, err@));
    out
}

/// `v[lo..hi]` cut to at most `max` characters (see [`truncated`]).
fn truncate_range(v: &[char], lo: usize, hi: usize, max: usize) -> (r: String)
    requires
        lo <= hi <= v@.len(),
    ensures
        r@ == truncated(v@.subrange(lo as int, hi as int), max as nat),
{
    let ghost s = v@.subrange(lo as int, hi as int);
    if hi - lo <= max {
        return string_of_range(v, lo, hi);
    }
    let keep = if max >= 1 {
        max - 1
    } else {
        0
    };
    let e = trim_end_at(v, lo, lo + keep);
    assert(v@.subrange(lo as int, lo + keep) =~= s.take(keep as int));
    let mut out = string_of_range(v, lo, e);
    push_char(&mut out, '…');
    out
}

/// Cuts a text to at most `max` characters, counting characters, not bytes.
pub fn truncate_chars(s: &str, max: usize) -> (r: String)
    ensures
        r@ == truncated(s@, max as nat),
{
    let v = chars_of(s);
    assert(v@.subrange(0, v@.len() as int) =~= v@);
    truncate_range(v.as_slice(), 0, v.len(), max)
}

/// The cause shown on a service whose deployment rolled back.
pub fn rollback_cause(dep: &Deployment) -> (r: String)
    ensures
        r@ == rollback_cause_of(dep.states_log@),
{
    let log = &dep.states_log;
    let mut i = log.len();
    while i > 0 && log[i - 1].to != DeployState::RollingBack
        invariant
            i <= log@.len(),
            forall|j: int| i <= j < log@.len() ==> (#[trigger] log@[j]).to
                != DeployState::RollingBack,
        decreases i,
    {
        i = i - 1;
    }
    proof {
        lemma_last_rollback_prefix(log@, i as int);
        lemma_last_rollback_range(log@);
        if i > 0 {
            assert(log@.take(i as int).last() == log@[i - 1]);
        }
    }
    if i == 0 {
        return string_of(chars_of("deploy failed").as_slice());
    }
    let t = &log[i - 1];
    match &t.message {
        None => string_of(chars_of("deploy failed").as_slice()),
        Some(m) => {
            let v = chars_of(m.as_str());
            let r = line_bounds(v.as_slice());
            let ghost ls = lines(m@);
            let mut k: usize = 0;
            while k < r.len()
                invariant
                    v@ == m@,
                    ls == lines(m@),
                    1 <= i <= dep.states_log@.len(),
                    last_rollback(dep.states_log@) == i - 1,
                    dep.states_log@[i - 1].message == Some(*m),
                    ranges_within(v@, r@),
                    pieces(v@, r@) == ls,
                    k <= r@.len(),
                    forall|j: int| 0 <= j < k ==> is_blank(#[trigger] ls[j]),
                decreases r.len() - k,
            {
                let (a, b) = r[k];
                assert(ls[k as int] == v@.subrange(a as int, b as int));
                if !is_blank_at(v.as_slice(), a, b) {
                    proof {
                        lemma_first_nonblank_is(ls, k as int);
                    }
                    let (x, y) = trim_at(v.as_slice(), a, b);
                    return truncate_range(v.as_slice(), x, y, 160);
                }
                k = k + 1;
            }
            proof {
                lemma_first_nonblank_is(ls, ls.len() as int);
            }
            string_of(chars_of("deploy failed").as_slice())
        },
    }
}

fn push_context_note(out: &mut String, ctx: &str)
    ensures
        final(out)@ == old(out)@ + context_note(ctx@),
{
    proof {
        reveal_strlit("");
    }
    if str_eq(ctx, ".") || str_eq(ctx, "") {
        assert(old(out)@ + context_note(ctx@) =~= old(out)@);
    } else {
        assert(ctx@.len() != 0) by {
            if ctx@.len() == 0 {
                assert(ctx@ =~= ""@);
            }
        }
        push_str(out, " (build context: ");
        push_str(out, ctx);
        push_str(out, ")");
        assert(out@ =~= old(out)@ + context_note(ctx@));
    }
}

/// The message for a Dockerfile missing from the build context; for a Git
/// source it names the branch that was cloned.
pub fn missing_dockerfile_msg(source: &ServiceSource, dockerfile_path: &str) -> (r: String)
    ensures
        r@ == missing_dockerfile_text(*source, dockerfile_path@),
{
    let mut s = String::new();
    match source {
        ServiceSource::Git(git) => {
            push_str(&mut s, "Dockerfile não encontrado no repositório: ");
            push_str(&mut s, dockerfile_path);
            push_context_note(&mut s, git.build_context.as_str());
            push_str(&mut s, " — branch ");
            push_str(&mut s, git.branch.as_str());
            push_str(
                &mut s,
                ". Confira se ele foi commitado e enviado, e se o caminho configurado no serviço está certo.",
            );
        },
        ServiceSource::Archive(archive) => {
            push_str(&mut s, "Dockerfile não encontrado no zip: ");
            push_str(&mut s, dockerfile_path);
            push_context_note(&mut s, archive.build_context.as_str());
        },
        _ => {
            push_str(&mut s, "Dockerfile não encontrado: ");
            push_str(&mut s, dockerfile_path);
        },
    }
    assert(s@ =~= missing_dockerfile_text(*source, dockerfile_path@));
    s
}

fn image_has_prefix(img: &[char], p: &String) -> (b: bool)
    ensures
        b == starts_with(img@, p@),
{
    let pv = chars_of(p.as_str());
    assert(img@.subrange(0, img@.len() as int) =~= img@);
    starts_with_at(img, 0, img.len(), pv.as_slice())
}

/// Whether `image` is pulled from the daemon's own registry (see
/// [`embedded_image`]).
pub fn is_embedded_registry_image(image: &str, port: u16, domain: Option<&str>) -> (b: bool)
    ensures
        b == embedded_image(image@, port as nat, opt_view(domain)),
{
    let img = chars_of(image);
    let mut p1 = String::new();
    push_str(&mut p1, "127.0.0.1:");
    push_decimal(&mut p1, port as u64);
    push_str(&mut p1, "/");
    if image_has_prefix(img.as_slice(), &p1) {
        return true;
    }
    let mut p2 = String::new();
    push_str(&mut p2, "localhost:");
    push_decimal(&mut p2, port as u64);
    push_str(&mut p2, "/");
    if image_has_prefix(img.as_slice(), &p2) {
        return true;
    }
    match domain {
        Some(d) => {
            let mut p3 = String::new();
            push_str(&mut p3, d);
            push_str(&mut p3, "/");
            image_has_prefix(img.as_slice(), &p3)
        },
        None => false,
    }
}

impl Deployment {
    /// Records a move to `to` at time `at`: the new state, the transition
    /// appended to the history (from the state it was in), and the finish
    /// time set when the new state is terminal (cleared otherwise).
    pub fn record_transition(&mut self, to: DeployState, at: i64, message: Option<String>)
        ensures
            final(self).state == to,
            final(self).states_log@ == old(self).states_log@.push(
                StateTransition { from: old(self).state, to, at, message },
            ),
            final(self).finished_at == if terminal(to) {
                Some(at)
            } else {
                None::<i64>
            },
            final(self).id == old(self).id,
            final(self).service_id == old(self).service_id,
            final(self).image == old(self).image,
            final(self).started_at == old(self).started_at,
    {
        let from = self.state;
        self.states_log.push(StateTransition { from, to, at, message });
        self.state = to;
        self.finished_at = if to.is_terminal() {
            Some(at)
        } else {
            None
        };
    }
}

/// The history agrees with the state: each recorded transition starts in
/// the state the one before it ended in, and the last one ends in the
/// current state.
pub open spec fn history_consistent(d: Deployment) -> bool {
    let log = d.states_log@;
    &&& forall|i: int| 0 < i < log.len() ==> #[trigger] follows(log, i)
    &&& log.len() > 0 ==> log.last().to == d.state
}

/// Transition `i` starts where transition `i - 1` ended.
pub open spec fn follows(log: Seq<StateTransition>, i: int) -> bool {
    log[i].from == log[i - 1].to
}

/// Recording a transition keeps the history consistent with the state.
pub proof fn lemma_transition_keeps_history(before: Deployment, after: Deployment, to: DeployState, at: i64, message: Option<String>)
    requires
        history_consistent(before),
        after.state == to,
        after.states_log@ == before.states_log@.push(StateTransition { from: before.state, to, at, message }),
    ensures
        history_consistent(after),
{
    let log = after.states_log@;
    let bl = before.states_log@;
    let n = bl.len() as int;
    assert(log[n].from == before.state);
    assert(log[n].to == to);
    assert forall|i: int| 0 < i < log.len() implies #[trigger] follows(log, i) by {
        if i == n {
            assert(log[i - 1] == bl[n - 1]);
        } else {
            assert(log[i] == bl[i]);
            assert(log[i - 1] == bl[i - 1]);
            assert(follows(bl, i));
        }
    }
}

} // verus!
