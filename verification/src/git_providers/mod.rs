//! Hosted Git providers (Gitea and GitHub): the URLs of their OAuth and REST
//! endpoints and what their replies mean. The HTTP calls are made around
//! these functions.

use vstd::prelude::*;
use crate::text::{push_str, str_eq};

pub mod gitea;
pub mod github;

verus! {

/// The kinds of provider.
#[derive(Clone, Copy, Debug, PartialEq, Eq, Structural)]
pub enum GitProviderKind {
    Gitea,
    Github,
}

/// OAuth tokens, the same for every provider.
pub struct OAuthTokens {
    pub access_token: String,
    pub refresh_token: Option<String>,
}

impl OAuthTokens {
    /// The tokens a Gitea server issued.
    pub fn from_gitea(t: gitea::OAuthTokens) -> (r: Self)
        ensures
            r.access_token == t.access_token,
            r.refresh_token == t.refresh_token,
    {
        OAuthTokens { access_token: t.access_token, refresh_token: t.refresh_token }
    }

    /// The tokens GitHub issued.
    pub fn from_github(t: github::OAuthTokens) -> (r: Self)
        ensures
            r.access_token == t.access_token,
            r.refresh_token == t.refresh_token,
    {
        OAuthTokens { access_token: t.access_token, refresh_token: t.refresh_token }
    }
}

/// The stored name of a kind.
pub open spec fn kind_name(k: GitProviderKind) -> Seq<char> {
    match k {
        GitProviderKind::Gitea => "gitea"@,
        GitProviderKind::Github => "github"@,
    }
}

/// `base` without its trailing slashes.
pub open spec fn no_trailing_slash(s: Seq<char>) -> Seq<char>
    decreases s.len(),
{
    if s.len() > 0 && s.last() == '/' {
        no_trailing_slash(s.drop_last())
    } else {
        s
    }
}

/// `base` without its trailing slashes (`str::trim_end_matches('/')`).
pub fn strip_trailing_slashes(base: &str) -> (r: String)
    ensures
        r@ == no_trailing_slash(base@),
{
    let v = crate::text::chars_of(base);
    let mut k = v.len();
    assert(v@.subrange(0, k as int) =~= v@);
    while k > 0 && v[k - 1] == '/'
        invariant
            k <= v@.len(),
            no_trailing_slash(v@.subrange(0, k as int)) == no_trailing_slash(base@),
            v@ == base@,
        decreases k,
    {
        assert(v@.subrange(0, k as int).drop_last() =~= v@.subrange(0, k - 1));
        k = k - 1;
    }
    crate::text::string_of_range(v.as_slice(), 0, k)
}

impl GitProviderKind {
    /// The stored name of the kind.
    pub fn as_str(&self) -> (r: &'static str)
        ensures
            r@ == kind_name(*self),
    {
        match self {
            GitProviderKind::Gitea => "gitea",
            GitProviderKind::Github => "github",
        }
    }

    /// The kind with that stored name.
    pub fn from_name(s: &str) -> (r: Option<GitProviderKind>)
        ensures
            r matches Some(k) ==> kind_name(k) == s@,
            r is None ==> s@ != "gitea"@ && s@ != "github"@,
    {
        if str_eq(s, "gitea") {
            Some(GitProviderKind::Gitea)
        } else if str_eq(s, "github") {
            Some(GitProviderKind::Github)
        } else {
            None
        }
    }
}

/// The kind of a stored provider; rows written before kinds existed are
/// Gitea.
pub fn kind_of(stored: &str) -> (k: GitProviderKind)
    ensures
        stored@ == "github"@ ==> k == GitProviderKind::Github,
        stored@ != "github"@ ==> k == GitProviderKind::Gitea,
{
    match GitProviderKind::from_name(stored) {
        Some(k) => {
            proof {
                reveal_strlit("gitea");
                reveal_strlit("github");
                assert("gitea"@.len() != "github"@.len());
            }
            k
        },
        None => GitProviderKind::Gitea,
    }
}

/// The browser authorization URL of a provider; the client id, redirect
/// URI and state arrive percent-encoded.
pub fn authorize_url(
    kind: GitProviderKind,
    base_url: &str,
    client_id_enc: &str,
    redirect_uri_enc: &str,
    state_enc: &str,
) -> (r: String)
    ensures
        kind == GitProviderKind::Gitea ==> r@ == no_trailing_slash(base_url@)
            + "/login/oauth/authorize?client_id="@ + client_id_enc@ + "&redirect_uri="@
            + redirect_uri_enc@ + "&response_type=code&state="@ + state_enc@,
        kind == GitProviderKind::Github ==> r@ == github::web_base_of(base_url@)
            + "/login/oauth/authorize?client_id="@ + client_id_enc@ + "&redirect_uri="@
            + redirect_uri_enc@ + "&scope=repo&state="@ + state_enc@,
{
    match kind {
        GitProviderKind::Gitea => {
            let mut s = strip_trailing_slashes(base_url);
            push_str(&mut s, "/login/oauth/authorize?client_id=");
            push_str(&mut s, client_id_enc);
            push_str(&mut s, "&redirect_uri=");
            push_str(&mut s, redirect_uri_enc);
            push_str(&mut s, "&response_type=code&state=");
            push_str(&mut s, state_enc);
            s
        },
        GitProviderKind::Github => github::authorize_url(
            base_url,
            client_id_enc,
            redirect_uri_enc,
            state_enc,
        ),
    }
}

/// The path segment of a provider's OAuth callback (`gitea` or `github`).
pub fn callback_path_segment(kind: GitProviderKind) -> (r: &'static str)
    ensures
        r@ == kind_name(kind),
{
    kind.as_str()
}

/// More repositories may follow: the page was full and the page limit is
/// not reached (the provider's page size and the daemon's 20 pages).
pub fn more_pages(page: u32, count: usize, page_size: usize) -> (b: bool)
    ensures
        b == (count >= page_size && page < 20),
{
    count >= page_size && page < 20
}

} // verus!
