use rustployd::fw_helper::PortRange;
use rustployd::ports::{
    is_used, next_candidate, port_in_use_by_other, range_exhausted_msg, resolve_host_port,
    used_ports, HostPortDecision, PortClaim, AUTO_PORT,
};

#[test]
fn allocate_pula_portas_reservadas() {
    let range = PortRange::default();
    let first = range.range_start;
    let port = next_candidate(&[first, first + 1], first, range.range_end).expect("deve alocar");
    assert!(port > first + 1);
    assert!(range.range_start <= port && port <= range.range_end);
}

fn claim(id: &str, p: Option<u16>) -> PortClaim {
    PortClaim { service_id: id.to_string(), host_port: p }
}

#[test]
fn used_ports_skip_auto_requests_and_the_excluded_service() {
    let claims = vec![
        claim("svc_a", Some(20001)),
        claim("svc_b", Some(AUTO_PORT)),
        claim("svc_c", None),
        claim("svc_d", Some(20005)),
    ];
    assert_eq!(used_ports(&[5100, 443], &claims, None), vec![5100, 443, 20001, 20005]);
    assert_eq!(used_ports(&[5100], &claims, Some("svc_d")), vec![5100, 20001]);
    assert!(is_used(&[1, 2, 3], 2));
    assert!(!is_used(&[1, 2, 3], 4));
}

#[test]
fn candidate_is_the_lowest_free_port_or_none() {
    assert_eq!(next_candidate(&[], 20000, 20999), Some(20000));
    assert_eq!(next_candidate(&[10, 11, 13], 10, 20), Some(12));
    assert_eq!(next_candidate(&[10, 11], 10, 11), None);
    assert_eq!(next_candidate(&[], 65535, 65535), Some(65535));
    assert_eq!(next_candidate(&[], 5, 4), None);
    assert_eq!(
        range_exhausted_msg(20000, 20999),
        "faixa de portas externas esgotada (20000-20999); ajuste [external_ports] na config"
    );
}

#[test]
fn requested_port_decisions() {
    assert!(matches!(resolve_host_port(None, &[80]), HostPortDecision::Keep));
    assert!(matches!(resolve_host_port(Some(0), &[80]), HostPortDecision::Allocate));
    assert!(matches!(resolve_host_port(Some(8080), &[80]), HostPortDecision::Keep));
    match resolve_host_port(Some(80), &[80]) {
        HostPortDecision::Taken(m) => assert_eq!(
            m,
            "porta externa 80 já está reservada por outro serviço ou pelo próprio rustploy"
        ),
        _ => panic!("porta ocupada deveria ser recusada"),
    }
    assert!(port_in_use_by_other(&Ok(vec![80, 81]), 81));
    assert!(!port_in_use_by_other(&Ok(vec![80]), 81));
    assert!(port_in_use_by_other(&Err("db".to_string()), 81));
}
