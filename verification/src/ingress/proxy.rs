//! The reverse proxy's decisions: which backend a request goes to, the ACME
//! challenge answers, and the redirect to HTTPS.

use vstd::prelude::*;
use crate::deploy::failure::views;
use crate::ingress::router::RouteTable;
use crate::ingress::tls::{table_map, ChallengeTable};
use crate::text::{chars_of, find_from, first_index, push_str, starts_with, starts_with_at, string_of_range};

verus! {

/// The host of a `Host` header: what precedes the first `:` (no header
/// gives the empty host).
pub open spec fn host_of(header: Option<Seq<char>>) -> Seq<char> {
    match header {
        None => Seq::empty(),
        Some(h) => {
            let i = first_index(h, ':');
            if i < 0 {
                h
            } else {
                h.take(i)
            }
        },
    }
}

/// The host a request is routed by.
pub fn request_host(header: Option<&str>) -> (r: String)
    ensures
        r@ == host_of(
            match header {
                Some(h) => Some(h@),
                None => None,
            },
        ),
{
    match header {
        None => String::new(),
        Some(h) => {
            let v = chars_of(h);
            let n = v.len();
            let i = find_from(v.as_slice(), 0, n, ':');
            assert(v@.subrange(0, n as int) =~= v@);
            assert(v@.subrange(0, i as int) =~= (if i < n { v@.take(i as int) } else { v@ }));
            string_of_range(v.as_slice(), 0, i)
        },
    }
}

/// What the plain-HTTP listener does with a request.
pub enum HttpAction {
    /// Answer an ACME HTTP-01 challenge for this token (404 when unknown).
    Challenge(String),
    /// Redirect permanently to this HTTPS location.
    Redirect(String),
    /// Proxy the request by its host.
    Proxy,
}

/// The prefix of ACME HTTP-01 challenge paths.
pub open spec fn acme_prefix() -> Seq<char> {
    "/.well-known/acme-challenge/"@
}

/// What the plain-HTTP listener does: challenge paths are always answered
/// there; with TLS on, everything else is redirected to
/// `https://<host><path and query>` (host `localhost` and path `/` when
/// missing); without TLS, requests are proxied.
pub fn http_action(path: &str, redirect_https: bool, host: Option<&str>, path_and_query: Option<&str>) -> (a: HttpAction)
    ensures
        starts_with(path@, acme_prefix()) ==> (a matches HttpAction::Challenge(t) && t@ == path@.skip(
            acme_prefix().len() as int,
        )),
        !starts_with(path@, acme_prefix()) && redirect_https ==> (a matches HttpAction::Redirect(l) && l@
            == "https://"@ + match host {
            Some(h) => h@,
            None => "localhost"@,
        } + match path_and_query {
            Some(p) => p@,
            None => "/"@,
        }),
        !starts_with(path@, acme_prefix()) && !redirect_https ==> a is Proxy,
{
    let v = chars_of(path);
    let p = chars_of("/.well-known/acme-challenge/");
    let n = v.len();
    assert(v@.subrange(0, n as int) =~= v@);
    if starts_with_at(v.as_slice(), 0, n, p.as_slice()) {
        let k = p.len();
        assert(v@.subrange(k as int, n as int) =~= v@.skip(k as int));
        return HttpAction::Challenge(string_of_range(v.as_slice(), k, n));
    }
    if redirect_https {
        let mut l = String::new();
        push_str(&mut l, "https://");
        match host {
            Some(h) => push_str(&mut l, h),
            None => push_str(&mut l, "localhost"),
        }
        match path_and_query {
            Some(q) => push_str(&mut l, q),
            None => push_str(&mut l, "/"),
        }
        return HttpAction::Redirect(l);
    }
    HttpAction::Proxy
}

/// The backend a request is proxied to, by its `Host` header: `None` (the
/// proxy answers 404) when the host has no route or the route has no
/// backend; otherwise one of the route's backends, taken in turn.
pub fn backend_for(table: &RouteTable, host_header: Option<&str>) -> (r: Option<String>)
    requires
        table.wf(),
    ensures
        ({
            let host = host_of(
                match host_header {
                    Some(h) => Some(h@),
                    None => None,
                },
            );
            &&& r is None <==> !table.map().contains_key(host) || table.map()[host].len() == 0
            &&& r matches Some(b) ==> table.map()[host].contains(b@)
        }),
{
    let host = request_host(host_header);
    match table.get(host.as_str()) {
        Some(e) => {
            assert(views(e.backends@).len() == e.backends@.len());
            e.next_backend()
        },
        None => None,
    }
}

/// The answer to an ACME HTTP-01 challenge request: 200 with the key
/// authorization stored for the token, 404 when there is none (or no
/// challenge store at all).
pub fn challenge_answer(store: Option<&ChallengeTable>, token: &str) -> (r: (u16, String))
    ensures
        match store {
            Some(t) if table_map(t.entries@).contains_key(token@) => r.0 == 200 && r.1@
                == table_map(t.entries@)[token@],
            _ => r.0 == 404 && r.1@.len() == 0,
        },
{
    match store {
        Some(t) => match t.get(token) {
            Some(k) => (200, k),
            None => (404, String::new()),
        },
        None => (404, String::new()),
    }
}

} // verus!
