use rustployd::git_providers::gitea::{self, OAuthAppItem, RedirectUpdate};
use rustployd::git_providers::github::{self, TokenResponse};
use rustployd::git_providers::{
    authorize_url, callback_path_segment, kind_of, more_pages, strip_trailing_slashes,
    GitProviderKind, OAuthTokens,
};

#[test]
fn provider_kinds_and_names() {
    assert_eq!(GitProviderKind::Gitea.as_str(), "gitea");
    assert_eq!(GitProviderKind::from_name("github"), Some(GitProviderKind::Github));
    assert_eq!(GitProviderKind::from_name("gitlab"), None);
    assert_eq!(kind_of("github"), GitProviderKind::Github);
    assert_eq!(kind_of("anything"), GitProviderKind::Gitea);
    assert_eq!(callback_path_segment(GitProviderKind::Github), "github");
    assert_eq!(strip_trailing_slashes("https://git.x.com///"), "https://git.x.com");
    assert!(more_pages(1, 50, 50));
    assert!(!more_pages(1, 49, 50));
    assert!(!more_pages(20, 50, 50));
}

#[test]
fn github_hosts_for_dotcom_and_enterprise() {
    assert!(github::is_dotcom(""));
    assert!(github::is_dotcom("https://github.com/"));
    assert!(!github::is_dotcom("https://ghe.corp"));
    assert_eq!(github::api_base("https://github.com"), "https://api.github.com");
    assert_eq!(github::api_base("https://ghe.corp/"), "https://ghe.corp/api/v3");
    assert_eq!(github::web_base(""), "https://github.com");
    assert_eq!(github::trim("https://ghe.corp//"), "https://ghe.corp");
    assert_eq!(github::token_url(""), "https://github.com/login/oauth/access_token");
    assert_eq!(github::user_url("https://ghe.corp"), "https://ghe.corp/api/v3/user");
    assert_eq!(
        github::repos_page_url("", 2),
        "https://api.github.com/user/repos?per_page=100&page=2&affiliation=owner,collaborator,organization_member"
    );
    assert_eq!(
        github::branches_url("", "o/r"),
        "https://api.github.com/repos/o/r/branches?per_page=100"
    );
    assert_eq!(
        authorize_url(GitProviderKind::Github, "", "cid", "https%3A%2F%2Fx", "st"),
        "https://github.com/login/oauth/authorize?client_id=cid&redirect_uri=https%3A%2F%2Fx&scope=repo&state=st"
    );
}

#[test]
fn gitea_urls() {
    assert_eq!(gitea::base("https://git.x.com/"), "https://git.x.com");
    assert_eq!(gitea::token_url("https://git.x.com/"), "https://git.x.com/login/oauth/access_token");
    assert_eq!(gitea::user_url("https://git.x.com"), "https://git.x.com/api/v1/user");
    assert_eq!(gitea::repos_page_url("https://git.x.com", 3), "https://git.x.com/api/v1/user/repos?limit=50&page=3");
    assert_eq!(gitea::branches_url("https://git.x.com", "o/r"), "https://git.x.com/api/v1/repos/o/r/branches?limit=100");
    assert_eq!(gitea::apps_url("https://git.x.com"), "https://git.x.com/api/v1/user/applications/oauth2");
    assert_eq!(gitea::app_url("https://git.x.com", 7), "https://git.x.com/api/v1/user/applications/oauth2/7");
    assert_eq!(gitea::app_url("https://git.x.com", -7), "https://git.x.com/api/v1/user/applications/oauth2/-7");
    assert_eq!(
        authorize_url(GitProviderKind::Gitea, "https://git.x.com/", "cid", "r", "st"),
        "https://git.x.com/login/oauth/authorize?client_id=cid&redirect_uri=r&response_type=code&state=st"
    );
}

fn app(id: i64, client_id: &str, uris: &[&str]) -> OAuthAppItem {
    OAuthAppItem {
        id,
        name: format!("app{id}"),
        redirect_uris: uris.iter().map(|s| s.to_string()).collect(),
        client_id: client_id.to_string(),
    }
}

#[test]
fn gitea_redirect_uri_is_added_once() {
    let apps = vec![app(1, "a", &["https://x/cb"]), app(2, "b", &["https://y/cb"])];
    match gitea::redirect_update(apps, "b", "https://z/cb") {
        Ok(RedirectUpdate::Patch { id, name, redirect_uris }) => {
            assert_eq!(id, 2);
            assert_eq!(name, "app2");
            assert_eq!(redirect_uris, vec!["https://y/cb".to_string(), "https://z/cb".to_string()]);
        }
        _ => panic!("deveria atualizar o app 2"),
    }
    let apps = vec![app(1, "a", &["https://x/cb"])];
    assert!(matches!(gitea::redirect_update(apps, "a", "https://x/cb"), Ok(RedirectUpdate::Registered)));
    match gitea::redirect_update(vec![], "c", "u") {
        Err(m) => assert_eq!(m, "app OAuth2 não encontrado para client_id=c"),
        Ok(_) => panic!("sem app"),
    }
}

fn reply(access: Option<&str>, refresh: Option<&str>, error: Option<&str>, desc: Option<&str>) -> TokenResponse {
    TokenResponse {
        access_token: access.map(String::from),
        refresh_token: refresh.map(String::from),
        error: error.map(String::from),
        error_description: desc.map(String::from),
    }
}

#[test]
fn github_token_replies() {
    match github::tokens_or_error(reply(None, None, Some("bad_code"), Some("expired"))) {
        Err(m) => assert_eq!(m, "GitHub OAuth error bad_code: expired"),
        Ok(_) => panic!("erro"),
    }
    match github::tokens_or_error(reply(None, None, None, None)) {
        Err(m) => assert_eq!(m, "token response sem access_token"),
        Ok(_) => panic!("sem token"),
    }
    let t = github::tokens_or_error(reply(Some("at"), Some("rt"), None, None)).ok().unwrap();
    assert_eq!(t.access_token, "at");
    assert_eq!(t.refresh_token, Some("rt".to_string()));
    let k = github::keep_refresh_token(reply(Some("at2"), None, None, None), "rt");
    assert_eq!(k.refresh_token, Some("rt".to_string()));
    let k = github::keep_refresh_token(reply(Some("at2"), Some("rt2"), None, None), "rt");
    assert_eq!(k.refresh_token, Some("rt2".to_string()));
    let generic = OAuthTokens::from_github(t);
    assert_eq!(generic.access_token, "at");
    let g = OAuthTokens::from_gitea(gitea::OAuthTokens { access_token: "ga".into(), refresh_token: None });
    assert_eq!(g.refresh_token, None);
}
