//! The privileged firewall helper's decisions: which requests it honours,
//! the `ufw` command it runs for them, and what it answers.
//!
//! Only two operations exist (open or close a TCP port), and only for ports
//! in the managed range, so that even a compromised daemon can neither open
//! port 22 nor close port 443.

use vstd::prelude::*;
use crate::deploy::failure::views;
use crate::text::{
    chars_of, contains, dec, is_blank, lines, pieces, push_decimal, push_str, ranges_within,
    str_contains, str_eq, string_of_range, trim, trim_at,
};

verus! {

/// One request: `{"op":"allow"|"deny","port":N}`.
pub struct Request {
    pub op: String,
    pub port: u16,
}

/// One answer: success with the backend that applied it, or an error.
pub struct Response {
    pub ok: bool,
    pub backend: String,
    pub error: String,
}

/// The managed range of external ports.
pub struct PortRange {
    pub range_start: u16,
    pub range_end: u16,
}

fn text(t: &str) -> (r: String)
    ensures
        r@ == t@,
{
    let mut s = String::new();
    push_str(&mut s, t);
    s
}

impl Response {
    /// Success, applied by `backend` (`none` when no firewall is active).
    pub fn ok(backend: &str) -> (r: Self)
        ensures
            r.ok,
            r.backend@ == backend@,
            r.error@.len() == 0,
    {
        Response { ok: true, backend: text(backend), error: String::new() }
    }

    /// Failure, with its message.
    pub fn err(msg: String) -> (r: Self)
        ensures
            !r.ok,
            r.backend@.len() == 0,
            r.error@ == msg@,
    {
        Response { ok: false, backend: String::new(), error: msg }
    }
}

/// The first port of the default range.
pub fn default_range_start() -> (p: u16)
    ensures
        p == 20000,
{
    20000
}

/// The last port of the default range.
pub fn default_range_end() -> (p: u16)
    ensures
        p == 20999,
{
    20999
}

impl Default for PortRange {
    fn default() -> (r: Self)
        ensures
            r.range_start == 20000,
            r.range_end == 20999,
    {
        PortRange { range_start: default_range_start(), range_end: default_range_end() }
    }
}

/// What the helper does with a request.
pub enum Handling {
    /// Answer at once.
    Reply(Response),
    /// Ask `ufw status` whether the firewall is active, then open
    /// (`allow`) or close the port.
    CheckUfw { port: u16, allow: bool },
}

/// The `ufw` rule a request leads to: `Some(allow)` for `allow` and `deny`
/// on a port of the managed range, `None` (the request is refused) otherwise.
pub open spec fn ufw_request(op: Seq<char>, port: u16, start: u16, end: u16) -> Option<bool> {
    if port < start || port > end {
        None
    } else if op == "allow"@ {
        Some(true)
    } else if op == "deny"@ {
        Some(false)
    } else {
        None
    }
}

/// Whether a request is honoured, and how: a port outside the range, or an
/// operation other than `allow`/`deny`, is refused with its reason.
pub fn handle_request(req: &Request, range: &PortRange) -> (h: Handling)
    ensures
        match ufw_request(req.op@, req.port, range.range_start, range.range_end) {
            Some(allow) => h == (Handling::CheckUfw { port: req.port, allow }),
            None => h matches Handling::Reply(r) && !r.ok && r.backend@.len() == 0,
        },
        (req.port < range.range_start || req.port > range.range_end) ==> (h matches Handling::Reply(r)
            && !r.ok && r.error@ == "porta "@ + dec(req.port as nat) + " fora da faixa gerenciada ("@
            + dec(range.range_start as nat) + "-"@ + dec(range.range_end as nat) + ")"@),
        range.range_start <= req.port <= range.range_end ==> (if req.op@ == "allow"@ {
            h matches Handling::CheckUfw { port, allow } && port == req.port && allow
        } else if req.op@ == "deny"@ {
            h matches Handling::CheckUfw { port, allow } && port == req.port && !allow
        } else {
            h matches Handling::Reply(r) && !r.ok && r.error@ == "operação desconhecida: "@ + req.op@
        }),
{
    if req.port < range.range_start || req.port > range.range_end {
        let mut m = text("porta ");
        push_decimal(&mut m, req.port as u64);
        push_str(&mut m, " fora da faixa gerenciada (");
        push_decimal(&mut m, range.range_start as u64);
        push_str(&mut m, "-");
        push_decimal(&mut m, range.range_end as u64);
        push_str(&mut m, ")");
        return Handling::Reply(Response::err(m));
    }
    if str_eq(req.op.as_str(), "allow") {
        Handling::CheckUfw { port: req.port, allow: true }
    } else if str_eq(req.op.as_str(), "deny") {
        Handling::CheckUfw { port: req.port, allow: false }
    } else {
        let mut m = text("operação desconhecida: ");
        push_str(&mut m, req.op.as_str());
        Handling::Reply(Response::err(m))
    }
}

/// `ufw status` reports an active firewall: one of its lines, trimmed, is
/// `Status: active`.
pub open spec fn ufw_active_in(out: Seq<char>) -> bool {
    exists|i: int| 0 <= i < lines(out).len() && trim(#[trigger] lines(out)[i]) == "Status: active"@
}

/// Whether the output of `ufw status` says the firewall is active.
pub fn ufw_status_active(stdout: &str) -> (b: bool)
    ensures
        b == ufw_active_in(stdout@),
{
    let v = chars_of(stdout);
    let r = crate::text::line_bounds(v.as_slice());
    let ghost ls = lines(stdout@);
    let mut k: usize = 0;
    while k < r.len()
        invariant
            v@ == stdout@,
            ls == lines(stdout@),
            ranges_within(v@, r@),
            pieces(v@, r@) == ls,
            k <= r@.len(),
            forall|j: int| 0 <= j < k ==> trim(#[trigger] ls[j]) != "Status: active"@,
        decreases r.len() - k,
    {
        let (a, b) = r[k];
        assert(ls[k as int] == v@.subrange(a as int, b as int));
        let (x, y) = trim_at(v.as_slice(), a, b);
        let t = string_of_range(v.as_slice(), x, y);
        if str_eq(t.as_str(), "Status: active") {
            return true;
        }
        k = k + 1;
    }
    false
}

/// The `ufw` rule of a port: `<port>/tcp`.
pub open spec fn rule_of(port: u16) -> Seq<char> {
    dec(port as nat) + "/tcp"@
}

/// Arguments of `ufw` that open the port (with a comment marking the
/// daemon's rules) or delete its rule.
pub fn ufw_args(port: u16, allow: bool) -> (r: Vec<String>)
    ensures
        allow ==> views(r@) == seq!["allow"@, rule_of(port), "comment"@, "rustploy"@],
        !allow ==> views(r@) == seq!["--force"@, "delete"@, "allow"@, rule_of(port)],
{
    let mut rule = String::new();
    push_decimal(&mut rule, port as u64);
    push_str(&mut rule, "/tcp");
    let mut r: Vec<String> = Vec::new();
    if allow {
        r.push(text("allow"));
        r.push(rule);
        r.push(text("comment"));
        r.push(text("rustploy"));
        assert(views(r@) =~= seq!["allow"@, rule_of(port), "comment"@, "rustploy"@]);
    } else {
        r.push(text("--force"));
        r.push(text("delete"));
        r.push(text("allow"));
        r.push(rule);
        assert(views(r@) =~= seq!["--force"@, "delete"@, "allow"@, rule_of(port)]);
    }
    r
}

/// The answer after `ufw status`: nothing to do when no firewall is active
/// (or `ufw` is not installed).
pub fn after_status(active: Option<bool>) -> (r: Option<Response>)
    ensures
        active == Some(true) <==> r is None,
        r matches Some(x) ==> x.ok && x.backend@ == "none"@,
{
    match active {
        Some(true) => None,
        _ => Some(Response::ok("none")),
    }
}

/// The answer after running `ufw` to apply a rule: success when it
/// succeeded, or when deleting a rule that did not exist; otherwise its
/// output, trimmed.
pub fn after_ufw(allow: bool, success: bool, stdout: &str, stderr: &str) -> (r: Response)
    ensures
        success ==> r.ok && r.backend@ == "ufw"@,
        !success && !allow && contains(stdout@ + stderr@, "Could not delete non-existent rule"@)
            ==> r.ok && r.backend@ == "ufw"@,
        !success && (allow || !contains(stdout@ + stderr@, "Could not delete non-existent rule"@))
            ==> !r.ok && r.error@ == "ufw falhou: "@ + trim(stdout@ + stderr@),
{
    if success {
        return Response::ok("ufw");
    }
    let mut combined = String::new();
    push_str(&mut combined, stdout);
    push_str(&mut combined, stderr);
    assert(combined@ =~= stdout@ + stderr@);
    if !allow && str_contains(combined.as_str(), "Could not delete non-existent rule") {
        return Response::ok("ufw");
    }
    let v = chars_of(combined.as_str());
    let (x, y) = trim_at(v.as_slice(), 0, v.len());
    assert(v@.subrange(0, v@.len() as int) =~= v@);
    let mut m = text("ufw falhou: ");
    crate::text::push_range(&mut m, v.as_slice(), x, y);
    Response::err(m)
}

/// The answer when `ufw` could not be run.
pub fn ufw_spawn_failed(reason: &str) -> (r: Response)
    ensures
        !r.ok && r.error@ == "falha ao executar ufw: "@ + reason@,
{
    let mut m = text("falha ao executar ufw: ");
    push_str(&mut m, reason);
    Response::err(m)
}

/// The answer to a line that is not a request.
pub fn invalid_request(reason: &str) -> (r: Response)
    ensures
        !r.ok && r.error@ == "requisição inválida: "@ + reason@,
{
    let mut m = text("requisição inválida: ");
    push_str(&mut m, reason);
    Response::err(m)
}

/// The helper never touches a port outside its range: whatever the
/// operation, a request for one leads to no `ufw` rule, so it is answered at
/// once and no `ufw` command follows it.
pub proof fn lemma_outside_range_refused(op: Seq<char>, port: u16, start: u16, end: u16)
    requires
        port < start || port > end,
    ensures
        ufw_request(op, port, start, end) is None,
{
}

} // verus!
