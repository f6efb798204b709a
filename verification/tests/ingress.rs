use rustployd::ingress::proxy::{backend_for, challenge_answer, http_action, request_host, HttpAction};
use rustployd::ingress::router::{
    backend_addrs, backend_at, restore_after_rollback, route_service, tls_domains, DomainRoute,
    PortBackends, PortRoutes, RouteTable,
};
use rustployd::ingress::tls::{
    acme_email, expires_soon, http01_challenge, needs_certificate, order_wait, ChallengeKind,
    ChallengeTable, OrderState, OrderWait,
};

fn addrs(v: &[&str]) -> Vec<String> {
    v.iter().map(|s| s.to_string()).collect()
}

#[test]
fn backends_are_taken_in_turn() {
    let b = addrs(&["10.0.0.1:80", "10.0.0.2:80", "10.0.0.3:80"]);
    assert_eq!(backend_at(&b, 0), "10.0.0.1:80");
    assert_eq!(backend_at(&b, 4), "10.0.0.2:80");
    let p = PortBackends::new(b.clone());
    let got: Vec<String> = (0..4).map(|_| p.next().unwrap()).collect();
    assert_eq!(got, addrs(&["10.0.0.1:80", "10.0.0.2:80", "10.0.0.3:80", "10.0.0.1:80"]));
    assert!(PortBackends::new(vec![]).next().is_none());
}

#[test]
fn rotation_goes_on_when_backends_change() {
    let first = PortBackends::new(addrs(&["a:1", "b:1"]));
    assert_eq!(first.next().unwrap(), "a:1");
    let second = PortBackends::continuing(addrs(&["a:1", "b:1", "c:1"]), &first);
    assert_eq!(second.next().unwrap(), "b:1");
    assert_eq!(second.next().unwrap(), "c:1");
}

#[test]
fn route_table_reads_back_what_was_written() {
    let mut t = RouteTable::default();
    t.upsert("app.example.com", addrs(&["10.0.0.1:3000"]), "svc_1");
    t.upsert("api.example.com", addrs(&["10.0.0.2:8080"]), "svc_2");
    t.upsert("app.example.com", addrs(&["10.0.0.9:3000", "10.0.0.8:3000"]), "svc_1");
    let e = t.get("app.example.com").unwrap();
    assert_eq!(e.backends, addrs(&["10.0.0.9:3000", "10.0.0.8:3000"]));
    assert_eq!(e._service_id, "svc_1");
    assert_eq!(e.next_backend().unwrap(), "10.0.0.9:3000");
    assert_eq!(e.next_backend().unwrap(), "10.0.0.8:3000");
    t.remove("app.example.com");
    assert!(t.get("app.example.com").is_none());
    assert!(t.get("api.example.com").is_some());
    assert_eq!(t.routes.len(), 1);
}

#[test]
fn domain_routes_and_addresses() {
    let r = DomainRoute { domain: "x.com".into(), port: None, tls: true };
    assert_eq!(r.container_port(3000), 3000);
    let r = DomainRoute { domain: "x.com".into(), port: Some(8000), tls: false };
    assert_eq!(r.container_port(3000), 8000);
    assert_eq!(backend_addrs(&addrs(&["172.18.0.2", "172.18.0.3"]), 8080), addrs(&["172.18.0.2:8080", "172.18.0.3:8080"]));
}

#[test]
fn plain_http_listener_decisions() {
    assert_eq!(request_host(Some("app.example.com:8080")), "app.example.com");
    assert_eq!(request_host(Some("app.example.com")), "app.example.com");
    assert_eq!(request_host(None), "");
    match http_action("/.well-known/acme-challenge/tok123", true, Some("a.com"), None) {
        HttpAction::Challenge(t) => assert_eq!(t, "tok123"),
        _ => panic!("challenge"),
    }
    match http_action("/x", true, Some("a.com"), Some("/x?y=1")) {
        HttpAction::Redirect(l) => assert_eq!(l, "https://a.com/x?y=1"),
        _ => panic!("redirect"),
    }
    match http_action("/x", true, None, None) {
        HttpAction::Redirect(l) => assert_eq!(l, "https://localhost/"),
        _ => panic!("redirect"),
    }
    assert!(matches!(http_action("/x", false, Some("a.com"), None), HttpAction::Proxy));
}

#[test]
fn certificates_and_acme_orders() {
    assert!(expires_soon(None));
    assert!(!expires_soon(Some(60 * 86400)));
    assert!(expires_soon(Some(60 * 86400 + 1)));
    assert!(!needs_certificate(false, false, None));
    assert!(needs_certificate(true, false, Some(10)));
    assert!(!needs_certificate(true, true, Some(10)));
    assert!(needs_certificate(true, true, Some(61 * 86400)));
    assert_eq!(acme_email(None), "admin@localhost");
    assert_eq!(acme_email(Some("ops@x.com")), "ops@x.com");
    assert!(matches!(order_wait("a.com", 0, OrderState::Ready), OrderWait::Proceed));
    assert!(matches!(order_wait("a.com", 0, OrderState::Pending), OrderWait::Poll));
    match order_wait("a.com", 29, OrderState::Processing) {
        OrderWait::Fail(m) => assert_eq!(m, "ACME: timeout aguardando order Ready para a.com (90s esgotados)"),
        _ => panic!("timeout"),
    }
    match order_wait("a.com", 3, OrderState::Invalid) {
        OrderWait::Fail(m) => assert_eq!(m, "ACME: order inválida para a.com (LE rejeitou o challenge HTTP-01)"),
        _ => panic!("invalid"),
    }
    assert_eq!(http01_challenge(&[ChallengeKind::Other, ChallengeKind::Http01], "a.com"), Ok(1));
    assert_eq!(
        http01_challenge(&[ChallengeKind::Other], "a.com"),
        Err("nenhum challenge HTTP-01 disponível para a.com".to_string())
    );
}

#[test]
fn challenge_table_reads_back_and_forgets() {
    let mut t = ChallengeTable::new();
    t.insert("tok".into(), "tok.key".into());
    t.insert("tok".into(), "tok.key2".into());
    assert_eq!(t.get("tok"), Some("tok.key2".to_string()));
    assert_eq!(t.get("other"), None);
    t.remove("tok");
    assert_eq!(t.get("tok"), None);
}

#[test]
fn requests_go_to_the_route_of_their_host() {
    let mut t = RouteTable::default();
    t.upsert("app.example.com", addrs(&["10.0.0.1:3000", "10.0.0.2:3000"]), "svc_1");
    t.upsert("empty.example.com", vec![], "svc_2");
    assert_eq!(backend_for(&t, Some("app.example.com:443")), Some("10.0.0.1:3000".to_string()));
    assert_eq!(backend_for(&t, Some("app.example.com")), Some("10.0.0.2:3000".to_string()));
    assert_eq!(backend_for(&t, Some("other.example.com")), None);
    assert_eq!(backend_for(&t, Some("empty.example.com")), None);
    assert_eq!(backend_for(&t, None), None);
}

#[test]
fn challenge_requests_are_answered_from_the_store() {
    let mut store = ChallengeTable::new();
    store.insert("tok".into(), "tok.thumb".into());
    assert_eq!(challenge_answer(Some(&store), "tok"), (200, "tok.thumb".to_string()));
    assert_eq!(challenge_answer(Some(&store), "nope"), (404, String::new()));
    assert_eq!(challenge_answer(None, "tok"), (404, String::new()));
}

#[test]
fn service_domains_are_registered_on_their_ports_and_removed() {
    let mut t = RouteTable::default();
    t.upsert("keep.example.com", addrs(&["10.0.0.9:80"]), "svc_9");
    let routes = vec![
        DomainRoute { domain: "app.example.com".into(), port: None, tls: true },
        DomainRoute { domain: "admin.example.com".into(), port: Some(9000), tls: false },
    ];
    t.register_domains(&routes, 3000, &addrs(&["172.18.0.2", "172.18.0.3"]), "svc_1");
    assert_eq!(t.get("app.example.com").unwrap().backends, addrs(&["172.18.0.2:3000", "172.18.0.3:3000"]));
    assert_eq!(t.get("admin.example.com").unwrap().backends, addrs(&["172.18.0.2:9000", "172.18.0.3:9000"]));
    t.remove_domains(&routes);
    assert!(t.get("app.example.com").is_none());
    assert!(t.get("admin.example.com").is_none());
    assert!(t.get("keep.example.com").is_some());
}

#[test]
fn route_update_keeps_the_rotation() {
    let mut t = RouteTable::default();
    t.upsert("a.com", addrs(&["x:1", "y:1"]), "s");
    assert_eq!(t.get("a.com").unwrap().next_backend().unwrap(), "x:1");
    t.upsert("a.com", addrs(&["x:1", "y:1", "z:1"]), "s");
    assert_eq!(t.get("a.com").unwrap().next_backend().unwrap(), "y:1");
}

#[test]
fn port_listeners_start_once_and_keep_rotating() {
    let mut p = PortRoutes::default();
    assert!(p.upsert(20001, addrs(&["a:80", "b:80"])));
    assert_eq!(p.next(20001), Some("a:80".to_string()));
    assert!(!p.upsert(20001, addrs(&["a:80", "b:80"])));
    assert_eq!(p.next(20001), Some("b:80".to_string()));
    p.remove(20001);
    assert_eq!(p.next(20001), None);
    assert!(!p.upsert(20001, addrs(&["c:80"])));
    assert_eq!(p.next(20001), Some("c:80".to_string()));
    assert_eq!(p.next(20002), None);
    p.remove(20002);
    assert_eq!(p.entries.len(), 1);
}

fn svc_routes() -> Vec<DomainRoute> {
    vec![
        DomainRoute { domain: "app.example.com".into(), port: None, tls: true },
        DomainRoute { domain: "metrics.example.com".into(), port: Some(9100), tls: false },
    ]
}

#[test]
fn a_live_service_is_routed_by_domain_and_external_port() {
    let mut t = RouteTable::default();
    let mut p = PortRoutes::default();
    assert_eq!(tls_domains(&svc_routes()), vec!["app.example.com".to_string()]);
    let started = route_service(&mut t, &mut p, &svc_routes(), 3000, Some(20001), &addrs(&["172.18.0.4"]), "svc_1");
    assert!(started);
    assert_eq!(t.get("metrics.example.com").unwrap().backends, addrs(&["172.18.0.4:9100"]));
    assert_eq!(p.next(20001), Some("172.18.0.4:3000".to_string()));
    let again = route_service(&mut t, &mut p, &svc_routes(), 3000, Some(20001), &addrs(&["172.18.0.5"]), "svc_1");
    assert!(!again);
    assert_eq!(p.next(20001), Some("172.18.0.5:3000".to_string()));
    assert!(!route_service(&mut t, &mut p, &svc_routes(), 3000, None, &addrs(&["172.18.0.6"]), "svc_1"));
}

#[test]
fn rollback_restores_previous_containers_or_closes_the_port() {
    let mut t = RouteTable::default();
    let mut p = PortRoutes::default();
    route_service(&mut t, &mut p, &svc_routes(), 3000, Some(20001), &addrs(&["172.18.0.9"]), "svc_1");
    restore_after_rollback(&mut t, &mut p, &svc_routes(), 3000, Some(20001), &addrs(&["172.18.0.2"]), "svc_1");
    assert_eq!(t.get("app.example.com").unwrap().backends, addrs(&["172.18.0.2:3000"]));
    restore_after_rollback(&mut t, &mut p, &svc_routes(), 3000, Some(20001), &[], "svc_1");
    assert_eq!(p.next(20001), None);
    assert_eq!(t.get("app.example.com").unwrap().backends, addrs(&["172.18.0.2:3000"]));
}
