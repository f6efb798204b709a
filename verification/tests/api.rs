use rustployd::api::http_api::{admitted, api_listener_token, authorized, constant_time_eq, route, sse_frame, RouteKind};
use rustployd::api::public_routes::{
    callback_redirect_uri, html_page, oauth_failure_page, oauth_params, oauth_success_page,
    percent_decode, percent_decode_bytes, url_decode_pairs, webhook_route, webhook_verdict,
    oauth_callback_start, webhook_early_answer, OAuthFailure, OAuthStates, WebhookRoute,
};
use rustployd::api::cache::TtlSlot;
use rustployd::api::server::{frame_header, frame_length, MAX_FRAME};

#[test]
fn tokens_compare_whole_and_exact() {
    assert!(constant_time_eq(b"abc", b"abc"));
    assert!(!constant_time_eq(b"abc", b"abd"));
    assert!(!constant_time_eq(b"abc", b"ab"));
    assert!(authorized("Bearer s3cr3t", "s3cr3t"));
    assert!(!authorized("Bearer s3cr3", "s3cr3t"));
    assert!(authorized("s3cr3t", "s3cr3t"));
    assert!(!authorized("", "s3cr3t"));
}

#[test]
fn routes_by_method_and_path() {
    let r = route(true, false, "/api/services/svc_1/logs");
    assert_eq!((r.kind, r.id.as_str()), (RouteKind::ServiceLogs, "svc_1"));
    let r = route(true, false, "/api/deployments/dep_9/build-logs");
    assert_eq!((r.kind, r.id.as_str()), (RouteKind::BuildLogs, "dep_9"));
    let r = route(true, false, "/api/jobs/runs/run_3/logs");
    assert_eq!((r.kind, r.id.as_str()), (RouteKind::JobRunLogs, "run_3"));
    assert_eq!(route(true, false, "/api/services//logs").kind, RouteKind::NotFound);
    assert_eq!(route(false, true, "/api/rpc").kind, RouteKind::Rpc);
    assert_eq!(route(true, false, "/api/rpc").kind, RouteKind::NotFound);
    assert_eq!(route(false, false, "/webhook/x/y").kind, RouteKind::Webhook);
    assert_eq!(route(true, false, "/oauth/gitea/callback").kind, RouteKind::OAuthCallback);
    assert_eq!(route(true, false, "/api/events").kind, RouteKind::Events);
    assert_eq!(route(true, false, "/api/health").kind, RouteKind::Health);
}

#[test]
fn private_routes_need_the_token() {
    assert!(admitted(RouteKind::Webhook, Some("t"), ""));
    assert!(admitted(RouteKind::OAuthCallback, Some("t"), ""));
    assert!(!admitted(RouteKind::Rpc, Some("t"), ""));
    assert!(admitted(RouteKind::Rpc, Some("t"), "Bearer t"));
    assert!(admitted(RouteKind::Rpc, None, ""));
    assert_eq!(sse_frame("deploy", "{}"), "event: deploy\ndata: {}\n\n");
}

#[test]
fn percent_decoding() {
    assert_eq!(percent_decode("a%20b"), "a b");
    assert_eq!(percent_decode("a+b"), "a b");
    assert_eq!(percent_decode("%zz"), "%zz");
    assert_eq!(percent_decode("caf%C3%A9"), "café");
    assert_eq!(percent_decode("%FF"), "\u{FFFD}");
    assert_eq!(percent_decode_bytes(b"%41%4a"), b"AJ".to_vec());
    assert_eq!(
        url_decode_pairs("code=abc%2F1&state=x&flag"),
        vec![
            ("code".to_string(), "abc/1".to_string()),
            ("state".to_string(), "x".to_string()),
            ("flag".to_string(), "".to_string()),
        ]
    );
    assert_eq!(oauth_params("state=s&code=c"), Some(("c".to_string(), "s".to_string())));
    assert_eq!(oauth_params("code=c"), None);
}

#[test]
fn webhook_answers() {
    assert!(matches!(webhook_route(false, "/webhook/svc/tok"), WebhookRoute::MethodNotAllowed));
    assert!(matches!(webhook_route(true, "/webhook/svc"), WebhookRoute::NotFound));
    match webhook_route(true, "/webhook/svc_1/tok") {
        WebhookRoute::Check { service_id, token } => assert_eq!((service_id.as_str(), token.as_str()), ("svc_1", "tok")),
        _ => panic!("rota do webhook"),
    }
    let ok = webhook_verdict(&Ok(Some("tok".into())), "tok");
    assert_eq!((ok.status, ok.body.as_str(), ok.deploy), (200, "deploy triggered", true));
    let bad = webhook_verdict(&Ok(Some("tok".into())), "other");
    assert_eq!((bad.status, bad.body.as_str(), bad.deploy), (401, "invalid token", false));
    let none = webhook_verdict(&Ok(None), "tok");
    assert_eq!((none.status, none.deploy), (401, false));
    let err = webhook_verdict(&Err("db".into()), "tok");
    assert_eq!((err.status, err.body.as_str(), err.deploy), (500, "internal error", false));
}

#[test]
fn oauth_pages() {
    let page = html_page("T", "B");
    assert!(page.starts_with("<!doctype html><html><head><meta charset=\"utf-8\"><title>T</title>"));
    assert!(page.ends_with("<h1>T</h1><p>B</p></div></body></html>"));
    let (status, html) = oauth_failure_page(OAuthFailure::ProviderNotFound);
    assert_eq!(status, 404);
    assert!(html.contains("<p>Provider não encontrado.</p>"));
    assert_eq!(oauth_failure_page(OAuthFailure::ExchangeFailed).0, 502);
    assert!(oauth_success_page("ana").contains("Gitea @ana conectado. Você já pode fechar esta aba."));
    assert_eq!(callback_redirect_uri("https://d.x.com"), Some("https://d.x.com/oauth/gitea/callback".to_string()));
}

#[test]
fn socket_frames() {
    let h = frame_header(300);
    assert_eq!(h, [44, 1, 0, 0]);
    assert_eq!(frame_length(h), Ok(300));
    assert_eq!(frame_length([0, 0, 0, 0]), Err("invalid frame length: 0".to_string()));
    assert_eq!(frame_length(frame_header(MAX_FRAME as u32)), Ok(MAX_FRAME));
    assert_eq!(frame_length(frame_header(MAX_FRAME as u32 + 1)), Err("invalid frame length: 4194305".to_string()));
}

#[test]
fn oauth_state_is_accepted_once() {
    let mut st = OAuthStates::new();
    st.issue("csrf1".into(), "gp_1".into());
    st.issue("csrf2".into(), "gp_2".into());
    assert_eq!(st.consume("csrf1"), Some("gp_1".to_string()));
    assert_eq!(st.consume("csrf1"), None);
    assert_eq!(st.consume("forged"), None);
    assert_eq!(st.consume("csrf2"), Some("gp_2".to_string()));
}

#[test]
fn public_bind_without_token_does_not_start() {
    assert_eq!(api_listener_token(true, None), None);
    assert_eq!(api_listener_token(true, Some("")), None);
    assert_eq!(api_listener_token(true, Some("t")), Some(Some("t".to_string())));
    assert_eq!(api_listener_token(false, Some("")), Some(None));
    assert_eq!(api_listener_token(false, None), Some(None));
}

#[test]
fn webhook_answers_before_the_token_check() {
    let a = webhook_early_answer(&webhook_route(false, "/webhook/s/t")).unwrap();
    assert_eq!((a.status, a.body.as_str(), a.deploy), (405, "method not allowed", false));
    let a = webhook_early_answer(&webhook_route(true, "/hook/s/t")).unwrap();
    assert_eq!((a.status, a.body.as_str(), a.deploy), (404, "not found", false));
    assert!(webhook_early_answer(&webhook_route(true, "/webhook/s/t")).is_none());
}

#[test]
fn oauth_callback_checks_parameters_then_state() {
    let mut st = OAuthStates::new();
    st.issue("csrf1".into(), "gp_1".into());
    assert!(matches!(oauth_callback_start("state=csrf1", &mut st), Err(OAuthFailure::MissingParams)));
    assert!(matches!(oauth_callback_start("code=c&state=forged", &mut st), Err(OAuthFailure::BadState)));
    match oauth_callback_start("code=c1&state=csrf1", &mut st) {
        Ok((code, provider)) => assert_eq!((code.as_str(), provider.as_str()), ("c1", "gp_1")),
        Err(_) => panic!("state válido"),
    }
    assert!(matches!(oauth_callback_start("code=c1&state=csrf1", &mut st), Err(OAuthFailure::BadState)));
}

#[test]
fn cached_values_live_for_their_ttl() {
    let mut c: TtlSlot<u32> = TtlSlot::new(300);
    assert_eq!(c.fresh(0), None);
    c.store(1000, 7);
    assert_eq!(c.fresh(1299), Some(&7));
    assert_eq!(c.fresh(1300), None);
    c.invalidate();
    assert_eq!(c.fresh(1001), None);
}
