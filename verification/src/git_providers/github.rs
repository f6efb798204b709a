//! GitHub: the web host holds the OAuth endpoints, the API host the REST
//! ones (`api.github.com`, or `{base}/api/v3` on Enterprise Server).

use vstd::prelude::*;
use crate::git_providers::{no_trailing_slash, strip_trailing_slashes};
use crate::text::{dec, push_decimal, push_str, str_eq};

verus! {

/// `base` points at github.com rather than an Enterprise Server.
pub open spec fn dotcom(base: Seq<char>) -> bool {
    let b = no_trailing_slash(base);
    b.len() == 0 || b == "https://github.com"@ || b == "http://github.com"@
}

/// The web host.
pub open spec fn web_base_of(base: Seq<char>) -> Seq<char> {
    if dotcom(base) {
        "https://github.com"@
    } else {
        no_trailing_slash(base)
    }
}

/// The REST API host.
pub open spec fn api_base_of(base: Seq<char>) -> Seq<char> {
    if dotcom(base) {
        "https://api.github.com"@
    } else {
        no_trailing_slash(base) + "/api/v3"@
    }
}

/// Tokens issued by the OAuth token endpoint.
pub struct OAuthTokens {
    pub access_token: String,
    pub refresh_token: Option<String>,
}

/// The token endpoint's reply, which reports errors with status 200.
pub struct TokenResponse {
    pub access_token: Option<String>,
    pub refresh_token: Option<String>,
    pub error: Option<String>,
    pub error_description: Option<String>,
}

/// `base` without trailing slashes.
pub fn trim(base_url: &str) -> (r: String)
    ensures
        r@ == no_trailing_slash(base_url@),
{
    strip_trailing_slashes(base_url)
}

/// Whether `base_url` is github.com.
pub fn is_dotcom(base_url: &str) -> (b: bool)
    ensures
        b == dotcom(base_url@),
{
    let t = trim(base_url);
    let e = str_eq(t.as_str(), "");
    proof {
        reveal_strlit("");
        if t@.len() == 0 {
            assert(t@ =~= ""@);
        }
    }
    e || str_eq(t.as_str(), "https://github.com") || str_eq(t.as_str(), "http://github.com")
}

/// The web host, where the OAuth endpoints live.
pub fn web_base(base_url: &str) -> (r: String)
    ensures
        r@ == web_base_of(base_url@),
{
    if is_dotcom(base_url) {
        let mut s = String::new();
        push_str(&mut s, "https://github.com");
        s
    } else {
        trim(base_url)
    }
}

/// The REST API host.
pub fn api_base(base_url: &str) -> (r: String)
    ensures
        r@ == api_base_of(base_url@),
{
    if is_dotcom(base_url) {
        let mut s = String::new();
        push_str(&mut s, "https://api.github.com");
        s
    } else {
        let mut s = trim(base_url);
        push_str(&mut s, "/api/v3");
        s
    }
}

/// The authorization URL opened in the browser, asking for the `repo`
/// scope; the parameters arrive percent-encoded.
pub fn authorize_url(base_url: &str, client_id_enc: &str, redirect_uri_enc: &str, state_enc: &str) -> (r: String)
    ensures
        r@ == web_base_of(base_url@) + "/login/oauth/authorize?client_id="@ + client_id_enc@
            + "&redirect_uri="@ + redirect_uri_enc@ + "&scope=repo&state="@ + state_enc@,
{
    let mut s = web_base(base_url);
    push_str(&mut s, "/login/oauth/authorize?client_id=");
    push_str(&mut s, client_id_enc);
    push_str(&mut s, "&redirect_uri=");
    push_str(&mut s, redirect_uri_enc);
    push_str(&mut s, "&scope=repo&state=");
    push_str(&mut s, state_enc);
    s
}

/// The token endpoint.
pub fn token_url(base_url: &str) -> (r: String)
    ensures
        r@ == web_base_of(base_url@) + "/login/oauth/access_token"@,
{
    let mut s = web_base(base_url);
    push_str(&mut s, "/login/oauth/access_token");
    s
}

/// The endpoint of the authenticated user.
pub fn user_url(base_url: &str) -> (r: String)
    ensures
        r@ == api_base_of(base_url@) + "/user"@,
{
    let mut s = api_base(base_url);
    push_str(&mut s, "/user");
    s
}

/// One page of the repositories the token can reach.
pub fn repos_page_url(base_url: &str, page: u32) -> (r: String)
    ensures
        r@ == api_base_of(base_url@) + "/user/repos?per_page=100&page="@ + dec(page as nat)
            + "&affiliation=owner,collaborator,organization_member"@,
{
    let mut s = api_base(base_url);
    push_str(&mut s, "/user/repos?per_page=100&page=");
    push_decimal(&mut s, page as u64);
    push_str(&mut s, "&affiliation=owner,collaborator,organization_member");
    s
}

/// The branches of `owner/repo`.
pub fn branches_url(base_url: &str, repo_full_name: &str) -> (r: String)
    ensures
        r@ == api_base_of(base_url@) + "/repos/"@ + repo_full_name@ + "/branches?per_page=100"@,
{
    let mut s = api_base(base_url);
    push_str(&mut s, "/repos/");
    push_str(&mut s, repo_full_name);
    push_str(&mut s, "/branches?per_page=100");
    s
}

/// The tokens of a reply: an `error` in it fails with its description; a
/// reply without access token fails too.
pub fn tokens_or_error(t: TokenResponse) -> (r: Result<OAuthTokens, String>)
    ensures
        t.error matches Some(e) ==> (r matches Err(m) && m@ == "GitHub OAuth error "@ + e@ + ": "@
            + match t.error_description {
            Some(d) => d@,
            None => Seq::empty(),
        }),
        t.error is None && t.access_token is None ==> (r matches Err(m) && m@
            == "token response sem access_token"@),
        t.error is None && t.access_token is Some ==> (r matches Ok(k) && k.access_token
            == t.access_token.unwrap() && k.refresh_token == t.refresh_token),
{
    if let Some(err) = t.error {
        let mut m = String::new();
        push_str(&mut m, "GitHub OAuth error ");
        push_str(&mut m, err.as_str());
        push_str(&mut m, ": ");
        if let Some(d) = t.error_description {
            push_str(&mut m, d.as_str());
        }
        return Err(m);
    }
    match t.access_token {
        Some(access_token) => Ok(OAuthTokens { access_token, refresh_token: t.refresh_token }),
        None => {
            let mut m = String::new();
            push_str(&mut m, "token response sem access_token");
            Err(m)
        },
    }
}

/// A refresh reply keeps the previous refresh token when it brings none.
pub fn keep_refresh_token(t: TokenResponse, previous: &str) -> (r: TokenResponse)
    ensures
        r.access_token == t.access_token,
        r.error == t.error,
        r.error_description == t.error_description,
        t.refresh_token is Some ==> r.refresh_token == t.refresh_token,
        t.refresh_token is None ==> (r.refresh_token matches Some(p) && p@ == previous@),
{
    match t.refresh_token {
        Some(_) => t,
        None => {
            let mut p = String::new();
            push_str(&mut p, previous);
            TokenResponse {
                access_token: t.access_token,
                refresh_token: Some(p),
                error: t.error,
                error_description: t.error_description,
            }
        },
    }
}

} // verus!
