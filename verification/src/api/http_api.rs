//! The API listener's routing and Bearer-token check.

use vstd::prelude::*;
use crate::text::{chars_of, ends_with, push_str, starts_with, starts_with_at, str_eq, string_of_range};

verus! {

/// Compares two byte strings without stopping at the first difference (a
/// length mismatch returns at once).
pub fn constant_time_eq(a: &[u8], b: &[u8]) -> (res: bool)
    ensures
        res == (a@ == b@),
{
    if a.len() != b.len() {
        return false;
    }
    let mut diff: u8 = 0;
    let mut i: usize = 0;
    while i < a.len()
        invariant
            a.len() == b.len(),
            i <= a.len(),
            (diff == 0) == (forall|j: int| 0 <= j < i ==> a@[j] == b@[j]),
        decreases a.len() - i,
    {
        let x = a[i];
        let y = b[i];
        let d = x ^ y;
        assert((d == 0) == (x == y)) by (bit_vector)
            requires
                d == x ^ y,
        ;
        assert(((diff | d) == 0) == (diff == 0 && d == 0)) by (bit_vector);
        diff = diff | d;
        i = i + 1;
    }
    assert((diff == 0) ==> a@ =~= b@);
    diff == 0
}

/// Two texts are equal exactly when their UTF-8 bytes are.
pub proof fn lemma_bytes_eq(a: Seq<char>, b: Seq<char>)
    ensures
        (vstd::utf8::encode_utf8(a) == vstd::utf8::encode_utf8(b)) == (a == b),
{
    vstd::utf8::encode_utf8_decode_utf8(a);
    vstd::utf8::encode_utf8_decode_utf8(b);
}

/// The token a request presents: the `Authorization` header without its
/// `Bearer ` prefix (the header as it is when it has none).
pub open spec fn presented(header: Seq<char>) -> Seq<char> {
    if starts_with(header, "Bearer "@) {
        header.skip(7)
    } else {
        header
    }
}

/// Whether the `Authorization` header (empty when absent or unreadable)
/// carries the expected token.
pub fn authorized(header: &str, expected: &str) -> (b: bool)
    ensures
        b == (presented(header@) == expected@),
{
    let v = chars_of(header);
    let p = chars_of("Bearer ");
    let n = v.len();
    assert(v@.subrange(0, n as int) =~= v@);
    proof {
        reveal_strlit("Bearer ");
    }
    let got = if starts_with_at(v.as_slice(), 0, n, p.as_slice()) {
        assert(v@.subrange(7, n as int) =~= v@.skip(7));
        string_of_range(v.as_slice(), 7, n)
    } else {
        string_of_range(v.as_slice(), 0, n)
    };
    proof {
        lemma_bytes_eq(got@, expected@);
    }
    constant_time_eq(got.as_str().as_bytes(), expected.as_bytes())
}

/// Where a request to the API listener goes.
#[derive(Clone, Copy, Debug, PartialEq, Eq, Structural)]
pub enum RouteKind {
    /// `/webhook/…`, any method: the webhook answers for itself.
    Webhook,
    /// `GET /oauth/gitea/callback`.
    OAuthCallback,
    /// `POST /api/rpc`.
    Rpc,
    /// `GET /api/events`.
    Events,
    /// `GET /api/health`.
    Health,
    /// `GET /api/services/<id>/logs`.
    ServiceLogs,
    /// `GET /api/deployments/<id>/build-logs`.
    BuildLogs,
    /// `GET /api/jobs/runs/<id>/logs`.
    JobRunLogs,
    NotFound,
}

/// A route and the id its path carries, if any.
pub struct Route {
    pub kind: RouteKind,
    pub id: String,
}

/// The routes that need no Bearer token.
pub open spec fn public_route(k: RouteKind) -> bool {
    k == RouteKind::Webhook || k == RouteKind::OAuthCallback
}

/// The id between `prefix` and `suffix`, when the path has both and the id
/// is not empty.
pub open spec fn id_between(p: Seq<char>, prefix: Seq<char>, suffix: Seq<char>) -> Option<Seq<char>> {
    if starts_with(p, prefix) && ends_with(p, suffix) && prefix.len() + suffix.len() <= p.len()
        && p.len() - prefix.len() - suffix.len() > 0 {
        Some(p.subrange(prefix.len() as int, p.len() - suffix.len()))
    } else {
        None
    }
}

/// The route of a request.
pub open spec fn route_of(is_get: bool, is_post: bool, p: Seq<char>) -> (RouteKind, Seq<char>) {
    if starts_with(p, "/webhook/"@) {
        (RouteKind::Webhook, Seq::empty())
    } else if is_get && p == "/oauth/gitea/callback"@ {
        (RouteKind::OAuthCallback, Seq::empty())
    } else if is_post && p == "/api/rpc"@ {
        (RouteKind::Rpc, Seq::empty())
    } else if is_get && p == "/api/events"@ {
        (RouteKind::Events, Seq::empty())
    } else if is_get && p == "/api/health"@ {
        (RouteKind::Health, Seq::empty())
    } else if is_get && starts_with(p, "/api/services/"@) && ends_with(p, "/logs"@) {
        match id_between(p, "/api/services/"@, "/logs"@) {
            Some(id) => (RouteKind::ServiceLogs, id),
            None => (RouteKind::NotFound, Seq::empty()),
        }
    } else if is_get && starts_with(p, "/api/deployments/"@) && ends_with(p, "/build-logs"@) {
        match id_between(p, "/api/deployments/"@, "/build-logs"@) {
            Some(id) => (RouteKind::BuildLogs, id),
            None => (RouteKind::NotFound, Seq::empty()),
        }
    } else if is_get && starts_with(p, "/api/jobs/runs/"@) && ends_with(p, "/logs"@) {
        match id_between(p, "/api/jobs/runs/"@, "/logs"@) {
            Some(id) => (RouteKind::JobRunLogs, id),
            None => (RouteKind::NotFound, Seq::empty()),
        }
    } else {
        (RouteKind::NotFound, Seq::empty())
    }
}

fn has_prefix(v: &[char], p: &str) -> (b: bool)
    ensures
        b == starts_with(v@, p@),
{
    let w = chars_of(p);
    assert(v@.subrange(0, v@.len() as int) =~= v@);
    starts_with_at(v, 0, v.len(), w.as_slice())
}

fn has_suffix(v: &[char], s: &str) -> (b: bool)
    ensures
        b == ends_with(v@, s@),
{
    let w = chars_of(s);
    if w.len() > v.len() {
        return false;
    }
    let start = v.len() - w.len();
    assert(v@.subrange(start as int, v@.len() as int) =~= v@.skip(start as int));
    let t = string_of_range(v, start, v.len());
    let ws = crate::text::string_of(w.as_slice());
    str_eq(t.as_str(), ws.as_str())
}

fn between(v: &[char], prefix: &str, suffix: &str) -> (r: Option<String>)
    requires
        starts_with(v@, prefix@),
        ends_with(v@, suffix@),
    ensures
        match r {
            Some(s) => id_between(v@, prefix@, suffix@) == Some(s@),
            None => id_between(v@, prefix@, suffix@) is None,
        },
{
    let pl = chars_of(prefix).len();
    let sl = chars_of(suffix).len();
    let n = v.len();
    if pl < n && sl < n - pl {
        Some(string_of_range(v, pl, n - sl))
    } else {
        None
    }
}

fn plain(kind: RouteKind) -> (r: Route)
    ensures
        r.kind == kind,
        r.id@.len() == 0,
{
    Route { kind, id: String::new() }
}

/// The route of a request by method and path (see [`route_of`]); the
/// public routes come before the token check.
pub fn route(is_get: bool, is_post: bool, path: &str) -> (r: Route)
    ensures
        (r.kind, r.id@) == route_of(is_get, is_post, path@),
{
    let v = chars_of(path);
    let s = v.as_slice();
    if has_prefix(s, "/webhook/") {
        return plain(RouteKind::Webhook);
    }
    if is_get && str_eq(path, "/oauth/gitea/callback") {
        return plain(RouteKind::OAuthCallback);
    }
    if is_post && str_eq(path, "/api/rpc") {
        return plain(RouteKind::Rpc);
    }
    if is_get && str_eq(path, "/api/events") {
        return plain(RouteKind::Events);
    }
    if is_get && str_eq(path, "/api/health") {
        return plain(RouteKind::Health);
    }
    if is_get && has_prefix(s, "/api/services/") && has_suffix(s, "/logs") {
        return match between(s, "/api/services/", "/logs") {
            Some(id) => Route { kind: RouteKind::ServiceLogs, id },
            None => plain(RouteKind::NotFound),
        };
    }
    if is_get && has_prefix(s, "/api/deployments/") && has_suffix(s, "/build-logs") {
        return match between(s, "/api/deployments/", "/build-logs") {
            Some(id) => Route { kind: RouteKind::BuildLogs, id },
            None => plain(RouteKind::NotFound),
        };
    }
    if is_get && has_prefix(s, "/api/jobs/runs/") && has_suffix(s, "/logs") {
        return match between(s, "/api/jobs/runs/", "/logs") {
            Some(id) => Route { kind: RouteKind::JobRunLogs, id },
            None => plain(RouteKind::NotFound),
        };
    }
    plain(RouteKind::NotFound)
}

/// Whether a request may go on: public routes always, others only with the
/// token, when one is configured.
pub open spec fn admits(kind: RouteKind, token: Option<Seq<char>>, header: Seq<char>) -> bool {
    public_route(kind) || match token {
        None => true,
        Some(t) => presented(header) == t,
    }
}

/// Whether a request may go on (see [`admits`]).
pub fn admitted(kind: RouteKind, token: Option<&str>, header: &str) -> (b: bool)
    ensures
        b == admits(
            kind,
            match token {
                Some(t) => Some(t@),
                None => None,
            },
            header@,
        ),
{
    if kind == RouteKind::Webhook || kind == RouteKind::OAuthCallback {
        return true;
    }
    match token {
        None => true,
        Some(t) => authorized(header, t),
    }
}

/// A configured token counts only when it is not empty.
pub open spec fn token_of(t: Option<Seq<char>>) -> Option<Seq<char>> {
    match t {
        Some(s) => if s.len() > 0 {
            Some(s)
        } else {
            None
        },
        None => None,
    }
}

/// Whether the API listener starts, and with which token: a bind address
/// other than loopback without a token is refused (`None`); otherwise the
/// listener checks the configured token, if it is not empty.
pub open spec fn listener_token(public_bind: bool, token: Option<Seq<char>>) -> Option<Option<Seq<char>>> {
    if public_bind && token_of(token) is None {
        None
    } else {
        Some(token_of(token))
    }
}

/// Whether the API listener starts, and the token it checks (see
/// [`listener_token`]).
pub fn api_listener_token(public_bind: bool, token: Option<&str>) -> (r: Option<Option<String>>)
    ensures
        ({
            let spec_token = match token {
                Some(t) => Some(t@),
                None => None,
            };
            match r {
                None => listener_token(public_bind, spec_token) is None,
                Some(t) => listener_token(public_bind, spec_token) == Some(
                    match t {
                        Some(x) => Some(x@),
                        None => None::<Seq<char>>,
                    },
                ),
            }
        }),
{
    let effective: Option<String> = match token {
        Some(t) => {
            let v = chars_of(t);
            if v.len() > 0 {
                let mut s = String::new();
                push_str(&mut s, t);
                Some(s)
            } else {
                None
            }
        },
        None => None,
    };
    if public_bind && effective.is_none() {
        None
    } else {
        Some(effective)
    }
}

/// One server-sent event: `event: <event>`, `data: <data>`, blank line.
pub fn sse_frame(event: &str, data: &str) -> (r: String)
    ensures
        r@ == "event: "@ + event@ + "\ndata: "@ + data@ + "\n\n"@,
{
    let mut s = String::new();
    push_str(&mut s, "event: ");
    push_str(&mut s, event);
    push_str(&mut s, "\ndata: ");
    push_str(&mut s, data);
    push_str(&mut s, "\n\n");
    s
}

/// On an address other than loopback, a private route is reached only
/// with the configured token, which is not empty: the listener does not
/// start otherwise.
pub proof fn lemma_private_needs_token(
    public_bind: bool,
    token: Option<Seq<char>>,
    is_get: bool,
    is_post: bool,
    p: Seq<char>,
    header: Seq<char>,
)
    requires
        public_bind,
        listener_token(public_bind, token) is Some,
        !public_route(route_of(is_get, is_post, p).0),
        admits(route_of(is_get, is_post, p).0, listener_token(public_bind, token)->Some_0, header),
    ensures
        token matches Some(t) && t.len() > 0 && presented(header) == t,
{
}

} // verus!
