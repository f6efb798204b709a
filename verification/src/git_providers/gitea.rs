//! Gitea: every endpoint lives under the configured base URL.

use vstd::prelude::*;
use crate::deploy::failure::views;
use crate::git_providers::{no_trailing_slash, strip_trailing_slashes};
use crate::text::{dec, push_decimal, push_signed_decimal, push_str, str_eq};

verus! {

/// Tokens issued by the OAuth token endpoint.
pub struct OAuthTokens {
    pub access_token: String,
    pub refresh_token: Option<String>,
}

/// `base` without trailing slashes.
pub fn base(base_url: &str) -> (r: String)
    ensures
        r@ == no_trailing_slash(base_url@),
{
    strip_trailing_slashes(base_url)
}

/// `<base><path>`.
fn at_base(base_url: &str, path: &str) -> (r: String)
    ensures
        r@ == no_trailing_slash(base_url@) + path@,
{
    let mut s = base(base_url);
    push_str(&mut s, path);
    s
}

/// The token endpoint.
pub fn token_url(base_url: &str) -> (r: String)
    ensures
        r@ == no_trailing_slash(base_url@) + "/login/oauth/access_token"@,
{
    at_base(base_url, "/login/oauth/access_token")
}

/// The endpoint of the authenticated user.
pub fn user_url(base_url: &str) -> (r: String)
    ensures
        r@ == no_trailing_slash(base_url@) + "/api/v1/user"@,
{
    at_base(base_url, "/api/v1/user")
}

/// One page of the repositories the token can reach.
pub fn repos_page_url(base_url: &str, page: u32) -> (r: String)
    ensures
        r@ == no_trailing_slash(base_url@) + "/api/v1/user/repos?limit=50&page="@ + dec(page as nat),
{
    let mut s = at_base(base_url, "/api/v1/user/repos?limit=50&page=");
    push_decimal(&mut s, page as u64);
    s
}

/// The branches of `owner/repo`.
pub fn branches_url(base_url: &str, repo_full_name: &str) -> (r: String)
    ensures
        r@ == no_trailing_slash(base_url@) + "/api/v1/repos/"@ + repo_full_name@
            + "/branches?limit=100"@,
{
    let mut s = at_base(base_url, "/api/v1/repos/");
    push_str(&mut s, repo_full_name);
    push_str(&mut s, "/branches?limit=100");
    s
}

/// The user's OAuth2 applications.
pub fn apps_url(base_url: &str) -> (r: String)
    ensures
        r@ == no_trailing_slash(base_url@) + "/api/v1/user/applications/oauth2"@,
{
    at_base(base_url, "/api/v1/user/applications/oauth2")
}

/// One OAuth2 application of the user.
pub struct OAuthAppItem {
    pub id: i64,
    pub name: String,
    pub redirect_uris: Vec<String>,
    pub client_id: String,
}

/// What keeping a redirect URI registered takes.
pub enum RedirectUpdate {
    /// The application already lists it.
    Registered,
    /// Update application `id` (keeping its name) with these URIs: the
    /// previous ones and the new one last.
    Patch { id: i64, name: String, redirect_uris: Vec<String> },
}

/// Index of the first application with `client_id`, or -1.
pub open spec fn app_pos(apps: Seq<OAuthAppItem>, client_id: Seq<char>) -> int
    decreases apps.len(),
{
    if apps.len() == 0 {
        -1
    } else if apps[0].client_id@ == client_id {
        0
    } else {
        let r = app_pos(apps.drop_first(), client_id);
        if r < 0 {
            -1
        } else {
            r + 1
        }
    }
}

proof fn lemma_app_pos_is(apps: Seq<OAuthAppItem>, client_id: Seq<char>, i: int)
    requires
        0 <= i <= apps.len(),
        forall|j: int| 0 <= j < i ==> (#[trigger] apps[j]).client_id@ != client_id,
        i < apps.len() ==> apps[i].client_id@ == client_id,
    ensures
        app_pos(apps, client_id) == if i < apps.len() {
            i
        } else {
            -1
        },
    decreases apps.len(),
{
    if apps.len() > 0 && i > 0 {
        let t = apps.drop_first();
        assert forall|j: int| 0 <= j < i - 1 implies (#[trigger] t[j]).client_id@ != client_id by {
            assert(t[j] == apps[j + 1]);
        }
        assert(apps[0].client_id@ != client_id);
        lemma_app_pos_is(t, client_id, i - 1);
    }
}

/// The update of the PATCH request for application `id`.
pub fn app_url(base_url: &str, id: i64) -> (r: String)
    ensures
        r@ == no_trailing_slash(base_url@) + "/api/v1/user/applications/oauth2/"@ + crate::text::sdec(id as int),
{
    let mut s = at_base(base_url, "/api/v1/user/applications/oauth2/");
    if id < 0 {
        crate::text::push_char(&mut s, '-');
        let m: i128 = -(id as i128);
        assert(m <= u64::MAX);
        push_decimal(&mut s, m as u64);
        assert(s@ =~= no_trailing_slash(base_url@) + "/api/v1/user/applications/oauth2/"@ + crate::text::sdec(id as int));
    } else {
        push_decimal(&mut s, id as u64);
    }
    s
}

/// How to keep `redirect_uri` registered on the application of `client_id`:
/// nothing when it is listed; otherwise the application with the URI added
/// (none is removed); an error when no application has that client id.
pub fn redirect_update(apps: Vec<OAuthAppItem>, client_id: &str, redirect_uri: &str) -> (r: Result<RedirectUpdate, String>)
    ensures
        app_pos(apps@, client_id@) < 0 <==> r is Err,
        r matches Err(m) ==> m@ == "app OAuth2 não encontrado para client_id="@ + client_id@,
        app_pos(apps@, client_id@) >= 0 ==> ({
            let a = apps@[app_pos(apps@, client_id@)];
            &&& (views(a.redirect_uris@).contains(redirect_uri@) <==> r matches Ok(RedirectUpdate::Registered))
            &&& (r matches Ok(RedirectUpdate::Patch { id, name, redirect_uris }) ==> id == a.id && name@
                == a.name@ && views(redirect_uris@) == views(a.redirect_uris@).push(redirect_uri@))
        }),
{
    let ghost orig = apps@;
    let mut i: usize = 0;
    while i < apps.len() && !str_eq(apps[i].client_id.as_str(), client_id)
        invariant
            i <= apps@.len(),
            orig == apps@,
            forall|j: int| 0 <= j < i ==> (#[trigger] apps@[j]).client_id@ != client_id@,
        decreases apps.len() - i,
    {
        i = i + 1;
    }
    proof {
        if i < apps@.len() {
            assert(apps@[i as int].client_id@ == client_id@);
        }
        lemma_app_pos_is(orig, client_id@, i as int);
    }
    if i == apps.len() {
        let mut m = String::new();
        push_str(&mut m, "app OAuth2 não encontrado para client_id=");
        push_str(&mut m, client_id);
        return Err(m);
    }
    let mut apps = apps;
    let app = apps.remove(i);
    assert(app == orig[i as int]);
    let ghost uris = views(app.redirect_uris@);
    let mut k: usize = 0;
    while k < app.redirect_uris.len() && !str_eq(app.redirect_uris[k].as_str(), redirect_uri)
        invariant
            k <= app.redirect_uris@.len(),
            uris == views(app.redirect_uris@),
            forall|j: int| 0 <= j < k ==> (#[trigger] uris[j]) != redirect_uri@,
        decreases app.redirect_uris.len() - k,
    {
        assert(uris[k as int] == app.redirect_uris@[k as int]@);
        k = k + 1;
    }
    if k < app.redirect_uris.len() {
        assert(uris[k as int] == redirect_uri@);
        assert(uris.contains(redirect_uri@));
        return Ok(RedirectUpdate::Registered);
    }
    assert(!uris.contains(redirect_uri@)) by {
        if uris.contains(redirect_uri@) {
            let j = choose|j: int| 0 <= j < uris.len() && uris[j] == redirect_uri@;
            assert(uris[j] != redirect_uri@);
        }
    }
    let OAuthAppItem { id, name, redirect_uris, client_id: _ } = app;
    let mut new_uris = redirect_uris;
    let mut u = String::new();
    push_str(&mut u, redirect_uri);
    new_uris.push(u);
    assert(views(new_uris@) =~= uris.push(redirect_uri@));
    Ok(RedirectUpdate::Patch { id, name, redirect_uris: new_uris })
}

} // verus!
