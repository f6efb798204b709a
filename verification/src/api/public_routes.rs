//! The public routes: the deploy webhook and the OAuth callback, each with
//! its own authentication (a token in the URL, a CSRF `state`).

use vstd::prelude::*;
use vstd::utf8::{decode_utf8, encode_utf8, valid_utf8};
use crate::api::http_api::{constant_time_eq, lemma_bytes_eq};
use crate::git_providers::no_trailing_slash;
use crate::ingress::tls::{table_map, ChallengeTable};
use crate::text::{chars_of, find_from, first_index, push_str, str_eq, string_of_range};

verus! {

/// What `String::from_utf8_lossy` makes of some bytes.
pub uninterp spec fn lossy_decode(b: Seq<u8>) -> Seq<char>;

/// `String::from_utf8_lossy`: decodes UTF-8, putting U+FFFD in place of
/// invalid sequences; valid input is decoded as it is.
#[verifier::external_body]
pub(crate) fn string_from_utf8_lossy(b: &[u8]) -> (r: String)
    ensures
        r@ == lossy_decode(b@),
        valid_utf8(b@) ==> r@ == decode_utf8(b@),
{
    String::from_utf8_lossy(b).into_owned()
}

/// The value of a hexadecimal digit byte.
pub open spec fn hex_val(b: u8) -> Option<nat> {
    if 48 <= b <= 57 {
        Some((b - 48) as nat)
    } else if 97 <= b <= 102 {
        Some((b - 87) as nat)
    } else if 65 <= b <= 70 {
        Some((b - 55) as nat)
    } else {
        None
    }
}

/// Form decoding of bytes: `%XY` (two hex digits) gives that byte, `+` a
/// space, anything else itself.
pub open spec fn pct_decoded(b: Seq<u8>) -> Seq<u8>
    decreases b.len(),
{
    if b.len() == 0 {
        Seq::empty()
    } else if b[0] == 37 && b.len() >= 3 && hex_val(b[1]) is Some && hex_val(b[2]) is Some {
        seq![(hex_val(b[1]).unwrap() * 16 + hex_val(b[2]).unwrap()) as u8] + pct_decoded(b.skip(3))
    } else if b[0] == 43 {
        seq![32u8] + pct_decoded(b.skip(1))
    } else {
        seq![b[0]] + pct_decoded(b.skip(1))
    }
}

/// A decoded query component.
pub open spec fn decoded(s: Seq<char>) -> Seq<char> {
    lossy_decode(pct_decoded(encode_utf8(s)))
}

/// The value part of `key=value` (empty without `=`).
pub open spec fn value_part(p: Seq<char>) -> Seq<char> {
    let i = first_index(p, '=');
    if i < 0 {
        Seq::empty()
    } else {
        p.skip(i + 1)
    }
}

/// The key part of `key=value` (all of it without `=`).
pub open spec fn key_part(p: Seq<char>) -> Seq<char> {
    let i = first_index(p, '=');
    if i < 0 {
        p
    } else {
        p.take(i)
    }
}

/// The decoded `(key, value)` pairs of a query string, skipping empty
/// pieces between `&`s.
pub open spec fn query_pairs(q: Seq<char>) -> Seq<(Seq<char>, Seq<char>)>
    decreases q.len(),
{
    let i = first_index(q, '&');
    let piece = if i < 0 {
        q
    } else {
        q.take(i)
    };
    let head = if piece.len() == 0 {
        Seq::empty()
    } else {
        seq![(decoded(key_part(piece)), decoded(value_part(piece)))]
    };
    if i < 0 {
        head
    } else {
        proof {
            crate::text::lemma_first_index(q, '&');
        }
        head + query_pairs(q.skip(i + 1))
    }
}

/// The `(key, value)` pieces of a query string as they are written, before
/// decoding, skipping empty pieces between `&`s.
pub open spec fn raw_pairs(q: Seq<char>) -> Seq<(Seq<char>, Seq<char>)>
    decreases q.len(),
{
    let i = first_index(q, '&');
    let piece = if i < 0 {
        q
    } else {
        q.take(i)
    };
    let head = if piece.len() == 0 {
        Seq::empty()
    } else {
        seq![(key_part(piece), value_part(piece))]
    };
    if i < 0 {
        head
    } else {
        proof {
            crate::text::lemma_first_index(q, '&');
        }
        head + raw_pairs(q.skip(i + 1))
    }
}

/// Form decoding of a query component, as UTF-8 text when it is valid.
pub open spec fn utf8_decoded(s: Seq<char>) -> bool {
    valid_utf8(pct_decoded(encode_utf8(s)))
}

fn hex_digit(b: u8) -> (r: Option<u8>)
    ensures
        match r {
            Some(d) => hex_val(b) == Some(d as nat),
            None => hex_val(b) is None,
        },
{
    if 48 <= b && b <= 57 {
        Some(b - 48)
    } else if 97 <= b && b <= 102 {
        Some(b - 87)
    } else if 65 <= b && b <= 70 {
        Some(b - 55)
    } else {
        None
    }
}

/// Form decoding of bytes (see [`pct_decoded`]).
pub fn percent_decode_bytes(bytes: &[u8]) -> (out: Vec<u8>)
    ensures
        out@ == pct_decoded(bytes@),
{
    let n = bytes.len();
    let mut out: Vec<u8> = Vec::new();
    let mut i: usize = 0;
    assert(bytes@.skip(0) =~= bytes@);
    while i < n
        invariant
            n == bytes@.len(),
            i <= n,
            pct_decoded(bytes@) == out@ + pct_decoded(bytes@.skip(i as int)),
        decreases n - i,
    {
        let ghost rest = bytes@.skip(i as int);
        let c = bytes[i];
        assert(rest[0] == c);
        if c == 37 && n - i >= 3 {
            let hi = hex_digit(bytes[i + 1]);
            let lo = hex_digit(bytes[i + 2]);
            assert(rest[1] == bytes@[i + 1] && rest[2] == bytes@[i + 2]);
            if let (Some(h), Some(l)) = (hi, lo) {
                let v: u8 = h * 16 + l;
                let ghost before = out@;
                out.push(v);
                assert(rest.skip(3) =~= bytes@.skip(i + 3));
                assert(out@ =~= before + seq![v]);
                i = i + 3;
                continue;
            }
        }
        let ghost before = out@;
        if c == 43 {
            out.push(32);
            assert(out@ =~= before + seq![32u8]);
        } else {
            out.push(c);
            assert(out@ =~= before + seq![c]);
        }
        assert(rest.skip(1) =~= bytes@.skip(i + 1));
        i = i + 1;
    }
    assert(bytes@.skip(n as int) =~= Seq::<u8>::empty());
    assert(out@ =~= out@ + Seq::<u8>::empty());
    out
}

/// Form decoding of a query component.
pub fn percent_decode(s: &str) -> (r: String)
    ensures
        r@ == decoded(s@),
        valid_utf8(pct_decoded(encode_utf8(s@))) ==> r@ == decode_utf8(pct_decoded(encode_utf8(s@))),
{
    let bytes = percent_decode_bytes(s.as_bytes());
    string_from_utf8_lossy(bytes.as_slice())
}

/// The decoded `(key, value)` pairs of a query string.
pub fn url_decode_pairs(query: &str) -> (r: Vec<(String, String)>)
    ensures
        r@.len() == query_pairs(query@).len(),
        forall|i: int| 0 <= i < r@.len() ==> ((#[trigger] r@[i]).0@, r@[i].1@) == query_pairs(query@)[i],
        r@.len() == raw_pairs(query@).len(),
        forall|i: int|
            0 <= i < r@.len() && utf8_decoded(raw_pairs(query@)[i].0) ==> (#[trigger] r@[i]).0@
                == decode_utf8(pct_decoded(encode_utf8(raw_pairs(query@)[i].0))),
        forall|i: int|
            0 <= i < r@.len() && utf8_decoded(raw_pairs(query@)[i].1) ==> (#[trigger] r@[i]).1@
                == decode_utf8(pct_decoded(encode_utf8(raw_pairs(query@)[i].1))),
{
    let v = chars_of(query);
    let n = v.len();
    let mut out: Vec<(String, String)> = Vec::new();
    let mut pos: usize = 0;
    assert(v@.skip(0) =~= v@);
    let ghost all = query_pairs(query@);
    let ghost raw = raw_pairs(query@);
    loop
        invariant_except_break
            out@.len() + query_pairs(v@.skip(pos as int)).len() == all.len(),
            forall|i: int| 0 <= i < query_pairs(v@.skip(pos as int)).len() ==> #[trigger] query_pairs(v@.skip(pos as int))[i] == all[out@.len() + i],
            out@.len() + raw_pairs(v@.skip(pos as int)).len() == raw.len(),
            forall|i: int| 0 <= i < raw_pairs(v@.skip(pos as int)).len() ==> #[trigger] raw_pairs(v@.skip(pos as int))[i] == raw[out@.len() + i],
        invariant
            v@ == query@,
            n == v@.len(),
            pos <= n,
            all == query_pairs(query@),
            raw == raw_pairs(query@),
            forall|i: int| 0 <= i < out@.len() ==> ((#[trigger] out@[i]).0@, out@[i].1@) == all[i],
            forall|i: int|
                0 <= i < out@.len() && utf8_decoded(raw[i].0) ==> (#[trigger] out@[i]).0@
                    == decode_utf8(pct_decoded(encode_utf8(raw[i].0))),
            forall|i: int|
                0 <= i < out@.len() && utf8_decoded(raw[i].1) ==> (#[trigger] out@[i]).1@
                    == decode_utf8(pct_decoded(encode_utf8(raw[i].1))),
        ensures
            out@.len() == all.len(),
            out@.len() == raw.len(),
            forall|i: int| 0 <= i < out@.len() ==> ((#[trigger] out@[i]).0@, out@[i].1@) == all[i],
        decreases n - pos,
    {
        let ghost rest = v@.skip(pos as int);
        let amp = find_from(v.as_slice(), pos, n, '&');
        assert(v@.subrange(pos as int, n as int) =~= rest);
        let ghost piece = v@.subrange(pos as int, amp as int);
        assert(piece =~= (if amp < n { rest.take(amp - pos) } else { rest }));
        let ghost head = if piece.len() == 0 {
            Seq::<(Seq<char>, Seq<char>)>::empty()
        } else {
            seq![(decoded(key_part(piece)), decoded(value_part(piece)))]
        };
        let ghost rhead = if piece.len() == 0 {
            Seq::<(Seq<char>, Seq<char>)>::empty()
        } else {
            seq![(key_part(piece), value_part(piece))]
        };
        if amp > pos {
            let eq = find_from(v.as_slice(), pos, amp, '=');
            let k = string_of_range(v.as_slice(), pos, eq);
            let val = if eq < amp {
                string_of_range(v.as_slice(), eq + 1, amp)
            } else {
                String::new()
            };
            assert(k@ == key_part(piece)) by {
                if eq < amp {
                    assert(v@.subrange(pos as int, eq as int) =~= piece.take(eq - pos));
                }
            }
            assert(val@ == value_part(piece)) by {
                if eq < amp {
                    assert(v@.subrange(eq + 1, amp as int) =~= piece.skip(eq + 1 - pos));
                }
            }
            let dk = percent_decode(k.as_str());
            let dv = percent_decode(val.as_str());
            out.push((dk, dv));
        }
        if amp == n {
            assert(query_pairs(rest) == head);
            assert(raw_pairs(rest) == rhead);
            assert forall|i: int| 0 <= i < out@.len() implies ((#[trigger] out@[i]).0@, out@[i].1@) == all[i] by {
                if i >= out@.len() - head.len() {
                    assert(query_pairs(rest)[i - (out@.len() - head.len())] == all[i]);
                }
            }
            assert forall|i: int| 0 <= i < out@.len() && out@.len() - rhead.len() <= i implies raw[i] == rhead[i - (out@.len() - rhead.len())] by {
                assert(raw_pairs(rest)[i - (out@.len() - rhead.len())] == raw[i]);
            }
            break;
        }
        assert(rest.skip(amp - pos + 1) =~= v@.skip(amp + 1));
        assert(query_pairs(rest) == head + query_pairs(v@.skip(amp + 1)));
        assert(raw_pairs(rest) == rhead + raw_pairs(v@.skip(amp + 1)));
        assert forall|i: int| 0 <= i < out@.len() implies ((#[trigger] out@[i]).0@, out@[i].1@) == all[i] by {
            if i >= out@.len() - head.len() {
                assert(query_pairs(rest)[i - (out@.len() - head.len())] == all[i]);
            }
        }
        assert forall|i: int| 0 <= i < out@.len() && out@.len() - rhead.len() <= i implies raw[i] == rhead[i - (out@.len() - rhead.len())] by {
            assert(raw_pairs(rest)[i - (out@.len() - rhead.len())] == raw[i]);
        }
        assert forall|i: int| 0 <= i < query_pairs(v@.skip(amp + 1)).len() implies #[trigger] query_pairs(v@.skip(amp + 1))[i] == all[out@.len() + i] by {
            assert(query_pairs(rest)[head.len() + i] == all[out@.len() - head.len() + head.len() + i]);
        }
        assert forall|i: int| 0 <= i < raw_pairs(v@.skip(amp + 1)).len() implies #[trigger] raw_pairs(v@.skip(amp + 1))[i] == raw[out@.len() + i] by {
            assert(raw_pairs(rest)[rhead.len() + i] == raw[out@.len() - rhead.len() + rhead.len() + i]);
        }
        pos = amp + 1;
    }
    out
}

/// How the webhook route answers before the token check.
pub enum WebhookRoute {
    /// Only POST triggers a deploy: 405.
    MethodNotAllowed,
    /// Not `/webhook/<service>/<token>`: 404.
    NotFound,
    /// Check the token of the service.
    Check { service_id: String, token: String },
}

/// The path without its leading slashes.
pub open spec fn no_leading_slash(s: Seq<char>) -> Seq<char>
    decreases s.len(),
{
    if s.len() > 0 && s[0] == '/' {
        no_leading_slash(s.drop_first())
    } else {
        s
    }
}

/// The service and token of a webhook path: `webhook/<service>/<token>`
/// after the leading slashes, the token being all that follows the second
/// slash.
pub open spec fn webhook_parts(path: Seq<char>) -> Option<(Seq<char>, Seq<char>)> {
    let p = no_leading_slash(path);
    let i = first_index(p, '/');
    if i < 0 {
        None
    } else {
        let rest = p.skip(i + 1);
        let j = first_index(rest, '/');
        if j < 0 || p.take(i) != "webhook"@ {
            None
        } else {
            Some((rest.take(j), rest.skip(j + 1)))
        }
    }
}

/// How a request to `/webhook/…` is routed.
pub fn webhook_route(is_post: bool, path: &str) -> (r: WebhookRoute)
    ensures
        !is_post ==> r is MethodNotAllowed,
        is_post ==> match webhook_parts(path@) {
            None => r is NotFound,
            Some((s, t)) => r matches WebhookRoute::Check { service_id, token } && service_id@ == s
                && token@ == t,
        },
{
    if !is_post {
        return WebhookRoute::MethodNotAllowed;
    }
    let v = chars_of(path);
    let n = v.len();
    let mut a: usize = 0;
    assert(v@.skip(0) =~= v@);
    while a < n && v[a] == '/'
        invariant
            a <= n,
            n == v@.len(),
            no_leading_slash(v@.skip(a as int)) == no_leading_slash(path@),
            v@ == path@,
        decreases n - a,
    {
        assert(v@.skip(a as int).drop_first() =~= v@.skip(a + 1));
        a = a + 1;
    }
    proof {
        if a == 0 {
            assert(v@.skip(0) =~= v@);
        }
    }
    let ghost p = v@.skip(a as int);
    assert(v@.subrange(a as int, n as int) =~= p);
    let i = find_from(v.as_slice(), a, n, '/');
    if i == n {
        return WebhookRoute::NotFound;
    }
    let ghost rest = p.skip(i - a + 1);
    assert(v@.subrange(i + 1, n as int) =~= rest);
    let j = find_from(v.as_slice(), i + 1, n, '/');
    let first = string_of_range(v.as_slice(), a, i);
    assert(first@ =~= p.take(i - a));
    if j == n || !str_eq(first.as_str(), "webhook") {
        return WebhookRoute::NotFound;
    }
    let service_id = string_of_range(v.as_slice(), i + 1, j);
    let token = string_of_range(v.as_slice(), j + 1, n);
    assert(service_id@ =~= rest.take(j - i - 1));
    assert(token@ =~= rest.skip(j - i));
    WebhookRoute::Check { service_id, token }
}

/// The webhook's answer: status, body, and whether a deploy starts.
pub struct WebhookAnswer {
    pub status: u16,
    pub body: String,
    pub deploy: bool,
}

/// The webhook's answer once the stored token of the service is known
/// (`Err` when it could not be read): a deploy starts exactly when the
/// service has a token and the presented one is equal to it.
pub fn webhook_verdict(stored: &Result<Option<String>, String>, provided: &str) -> (a: WebhookAnswer)
    ensures
        a.deploy <==> (stored matches Ok(Some(t)) && t@ == provided@),
        a.deploy ==> a.status == 200 && a.body@ == "deploy triggered"@,
        stored is Err ==> a.status == 500 && a.body@ == "internal error"@,
        stored is Ok && !a.deploy ==> a.status == 401 && a.body@ == "invalid token"@,
{
    let mut body = String::new();
    match stored {
        Err(_) => {
            push_str(&mut body, "internal error");
            WebhookAnswer { status: 500, body, deploy: false }
        },
        Ok(None) => {
            push_str(&mut body, "invalid token");
            WebhookAnswer { status: 401, body, deploy: false }
        },
        Ok(Some(t)) => {
            proof {
                lemma_bytes_eq(t@, provided@);
            }
            if !constant_time_eq(t.as_str().as_bytes(), provided.as_bytes()) {
                push_str(&mut body, "invalid token");
                WebhookAnswer { status: 401, body, deploy: false }
            } else {
                push_str(&mut body, "deploy triggered");
                WebhookAnswer { status: 200, body, deploy: true }
            }
        },
    }
}

/// The webhook's answer when the request is not a token check: 405
/// `method not allowed` for a method other than POST, 404 `not found` for a
/// path that is not `/webhook/<service>/<token>`; no deploy starts. A token
/// check is answered by [`webhook_verdict`] (`None` here).
pub fn webhook_early_answer(route: &WebhookRoute) -> (a: Option<WebhookAnswer>)
    ensures
        route is MethodNotAllowed ==> (a matches Some(x) && x.status == 405 && x.body@
            == "method not allowed"@ && !x.deploy),
        route is NotFound ==> (a matches Some(x) && x.status == 404 && x.body@ == "not found"@
            && !x.deploy),
        route is Check ==> a is None,
{
    match route {
        WebhookRoute::MethodNotAllowed => {
            let mut body = String::new();
            push_str(&mut body, "method not allowed");
            Some(WebhookAnswer { status: 405, body, deploy: false })
        },
        WebhookRoute::NotFound => {
            let mut body = String::new();
            push_str(&mut body, "not found");
            Some(WebhookAnswer { status: 404, body, deploy: false })
        },
        WebhookRoute::Check { .. } => None,
    }
}

/// The page shown in the browser at the end of an OAuth flow: `title` as
/// its title and heading, `body` as its text.
pub open spec fn page_of(title: Seq<char>, body: Seq<char>) -> Seq<char> {
    "<!doctype html><html><head><meta charset=\"utf-8\"><title>"@ + title + "</title><style>body{font-family:system-ui,sans-serif;background:#1b1d22;color:#e6eaf0;display:flex;align-items:center;justify-content:center;height:100vh;margin:0}.card{text-align:center;padding:32px 48px;border-radius:12px;background:#23262d}h1{color:#4ccfe6;font-size:20px}p{color:#9aa0a8}</style></head><body><div class=\"card\"><h1>"@
        + title + "</h1><p>"@ + body + "</p></div></body></html>"@
}

/// The page shown in the browser at the end of an OAuth flow (see
/// [`page_of`]).
pub fn html_page(title: &str, body: &str) -> (r: String)
    ensures
        r@ == page_of(title@, body@),
{
    let mut s = String::new();
    push_str(&mut s, "<!doctype html><html><head><meta charset=\"utf-8\"><title>");
    push_str(&mut s, title);
    push_str(
        &mut s,
        "</title><style>body{font-family:system-ui,sans-serif;background:#1b1d22;color:#e6eaf0;display:flex;align-items:center;justify-content:center;height:100vh;margin:0}.card{text-align:center;padding:32px 48px;border-radius:12px;background:#23262d}h1{color:#4ccfe6;font-size:20px}p{color:#9aa0a8}</style></head><body><div class=\"card\"><h1>",
    );
    push_str(&mut s, title);
    push_str(&mut s, "</h1><p>");
    push_str(&mut s, body);
    push_str(&mut s, "</p></div></body></html>");
    s
}

/// The `code` and `state` of an OAuth callback (the last of each wins);
/// `None` unless both are present.
pub open spec fn callback_params(pairs: Seq<(Seq<char>, Seq<char>)>) -> (Option<Seq<char>>, Option<Seq<char>>)
    decreases pairs.len(),
{
    if pairs.len() == 0 {
        (None, None)
    } else {
        let (c, s) = callback_params(pairs.drop_last());
        let (k, v) = pairs.last();
        if k == "code"@ {
            (Some(v), s)
        } else if k == "state"@ {
            (c, Some(v))
        } else {
            (c, s)
        }
    }
}

/// The `code` and `state` of an OAuth callback's query.
pub fn oauth_params(query: &str) -> (r: Option<(String, String)>)
    ensures
        match callback_params(query_pairs(query@)) {
            (Some(c), Some(s)) => r matches Some((a, b)) && a@ == c && b@ == s,
            _ => r is None,
        },
{
    let pairs = url_decode_pairs(query);
    let ghost qp = query_pairs(query@);
    let mut code: Option<String> = None;
    let mut csrf: Option<String> = None;
    let mut i: usize = 0;
    assert(qp.take(0) =~= Seq::<(Seq<char>, Seq<char>)>::empty());
    while i < pairs.len()
        invariant
            i <= pairs@.len(),
            qp == query_pairs(query@),
            pairs@.len() == qp.len(),
            forall|j: int| 0 <= j < pairs@.len() ==> ((#[trigger] pairs@[j]).0@, pairs@[j].1@) == qp[j],
            (match code { Some(c) => Some(c@), None => None }, match csrf { Some(c) => Some(c@), None => None })
                == callback_params(qp.take(i as int)),
        decreases pairs.len() - i,
    {
        assert(qp.take(i + 1).drop_last() =~= qp.take(i as int));
        assert(qp.take(i + 1).last() == qp[i as int]);
        assert((pairs@[i as int].0@, pairs@[i as int].1@) == qp[i as int]);
        let (k, v) = &pairs[i];
        let mut copy = String::new();
        push_str(&mut copy, v.as_str());
        if str_eq(k.as_str(), "code") {
            code = Some(copy);
        } else if str_eq(k.as_str(), "state") {
            csrf = Some(copy);
        }
        i = i + 1;
    }
    assert(qp.take(pairs@.len() as int) =~= qp);
    match (code, csrf) {
        (Some(c), Some(s)) => Some((c, s)),
        _ => None,
    }
}

/// Where an OAuth callback went wrong.
#[derive(Clone, Copy, Debug, PartialEq, Eq, Structural)]
pub enum OAuthFailure {
    MissingParams,
    BadState,
    ProviderNotFound,
    SecretUnreadable,
    NoSecret,
    NoPublicUrl,
    ExchangeFailed,
    AccountFailed,
    SaveFailed,
}

/// The status and message of the page for each failure.
pub open spec fn failure_page_of(f: OAuthFailure) -> (u16, Seq<char>) {
    match f {
        OAuthFailure::MissingParams => (400, "Parâmetros OAuth ausentes."@),
        OAuthFailure::BadState => (400, "State OAuth inválido ou expirado."@),
        OAuthFailure::ProviderNotFound => (404, "Provider não encontrado."@),
        OAuthFailure::SecretUnreadable => (500, "Falha ao ler client secret."@),
        OAuthFailure::NoSecret => (400, "Provider sem client secret."@),
        OAuthFailure::NoPublicUrl => (400, "Não foi possível determinar a URL pública do daemon (configure [api] domain)."@),
        OAuthFailure::ExchangeFailed => (502, "Falha ao trocar o código por token."@),
        OAuthFailure::AccountFailed => (502, "Token obtido, mas falha ao ler a conta."@),
        OAuthFailure::SaveFailed => (500, "Falha ao salvar a conexão."@),
    }
}

/// The page for a failed OAuth callback: its status and HTML (titled
/// `Erro`).
pub fn oauth_failure_page(f: OAuthFailure) -> (r: (u16, String))
    ensures
        r.0 == failure_page_of(f).0,
        r.1@ == page_of("Erro"@, failure_page_of(f).1),
{
    let (status, msg): (u16, &str) = match f {
        OAuthFailure::MissingParams => (400, "Parâmetros OAuth ausentes."),
        OAuthFailure::BadState => (400, "State OAuth inválido ou expirado."),
        OAuthFailure::ProviderNotFound => (404, "Provider não encontrado."),
        OAuthFailure::SecretUnreadable => (500, "Falha ao ler client secret."),
        OAuthFailure::NoSecret => (400, "Provider sem client secret."),
        OAuthFailure::NoPublicUrl => (400, "Não foi possível determinar a URL pública do daemon (configure [api] domain)."),
        OAuthFailure::ExchangeFailed => (502, "Falha ao trocar o código por token."),
        OAuthFailure::AccountFailed => (502, "Token obtido, mas falha ao ler a conta."),
        OAuthFailure::SaveFailed => (500, "Falha ao salvar a conexão."),
    };
    (status, html_page("Erro", msg))
}

/// The page for a connected account.
pub fn oauth_success_page(login: &str) -> (r: String)
    ensures
        r@ == page_of("Conta conectada"@, "Gitea @"@ + login@ + " conectado. Você já pode fechar esta aba."@),
{
    let mut body = String::new();
    push_str(&mut body, "Gitea @");
    push_str(&mut body, login);
    push_str(&mut body, " conectado. Você já pode fechar esta aba.");
    html_page("Conta conectada", body.as_str())
}

/// The redirect URI of the Gitea OAuth flow under the daemon's public base.
pub fn callback_redirect_uri(public_base_url: &str) -> (r: Option<String>)
    ensures
        r matches Some(u) && u@ == public_base_url@ + "/oauth/gitea/callback"@,
{
    let mut s = String::new();
    push_str(&mut s, public_base_url);
    push_str(&mut s, "/oauth/gitea/callback");
    Some(s)
}

/// The OAuth flows under way: the provider each CSRF `state` was issued
/// for.
pub struct OAuthStates {
    pub pending: ChallengeTable,
}

impl OAuthStates {
    /// No flow under way.
    pub fn new() -> (t: Self)
        ensures
            table_map(t.pending.entries@) == Map::<Seq<char>, Seq<char>>::empty(),
    {
        OAuthStates { pending: ChallengeTable::new() }
    }

    /// Records that `state` was issued for `provider_id`.
    pub fn issue(&mut self, state: String, provider_id: String)
        ensures
            table_map(final(self).pending.entries@) == table_map(old(self).pending.entries@).insert(
                state@,
                provider_id@,
            ),
    {
        self.pending.insert(state, provider_id);
    }

    /// The provider a callback's `state` was issued for, which is used up:
    /// a `state` is accepted once.
    pub fn consume(&mut self, state: &str) -> (r: Option<String>)
        ensures
            match r {
                Some(p) => table_map(old(self).pending.entries@).contains_key(state@) && table_map(
                    old(self).pending.entries@,
                )[state@] == p@,
                None => !table_map(old(self).pending.entries@).contains_key(state@),
            },
            table_map(final(self).pending.entries@) == table_map(old(self).pending.entries@).remove(state@),
    {
        let r = self.pending.get(state);
        self.pending.remove(state);
        r
    }
}

/// The first checks of an OAuth callback, in order: the query must carry
/// both `code` and `state` (else `MissingParams`, and no flow is touched);
/// then the `state` must be one issued and not yet used (else `BadState`).
/// A known `state` is used up here, whatever happens to the flow later.
/// Gives the `code` and the provider the flow is for.
pub fn oauth_callback_start(query: &str, states: &mut OAuthStates) -> (r: Result<(String, String), OAuthFailure>)
    ensures
        match callback_params(query_pairs(query@)) {
            (Some(code), Some(state)) => {
                &&& table_map(final(states).pending.entries@) == table_map(old(states).pending.entries@).remove(state)
                &&& table_map(old(states).pending.entries@).contains_key(state) ==> (r matches Ok((c, p))
                    && c@ == code && p@ == table_map(old(states).pending.entries@)[state])
                &&& !table_map(old(states).pending.entries@).contains_key(state) ==> r == Err::<
                    (String, String),
                    OAuthFailure,
                >(OAuthFailure::BadState)
            },
            _ => r == Err::<(String, String), OAuthFailure>(OAuthFailure::MissingParams)
                && final(states).pending.entries@ == old(states).pending.entries@,
        },
{
    match oauth_params(query) {
        None => Err(OAuthFailure::MissingParams),
        Some((code, state)) => match states.consume(state.as_str()) {
            Some(provider_id) => Ok((code, provider_id)),
            None => Err(OAuthFailure::BadState),
        },
    }
}

/// A CSRF `state` is accepted once: after a callback consumes it, the same
/// `state` is refused, and other flows under way are kept.
pub proof fn lemma_state_single_use(m: Map<Seq<char>, Seq<char>>, state: Seq<char>, other: Seq<char>)
    requires
        other != state,
    ensures
        !m.remove(state).contains_key(state),
        m.remove(state).contains_key(other) == m.contains_key(other),
        m.contains_key(other) ==> m.remove(state)[other] == m[other],
{
}

} // verus!
