use rustployd::docker::containers::{
    choose_ingress_container, exposed_tcp_ports, ingress_by_declared_service, ip_from_cidr, managed_container,
    match_exposed_port, match_ingress_service, network_key, nonempty_lines, old_container_ids,
    port_from_key, sort_ports, staging_config, ContainerIndex, IndexedContainer, ListedContainer,
    ManagedContainer, staging_mounts, VolumeMount,
};

fn cands(nomes: &[&str]) -> Vec<(String, String)> {
    nomes
        .iter()
        .map(|n| (format!("id_{n}"), n.to_string()))
        .collect()
}

const STACK: &[&str] = &[
    "rp_01m11z0g_db-auth-1",
    "rp_01m11z0g_db-db-1",
    "rp_01m11z0g_db-functions-1",
    "rp_01m11z0g_db-imgproxy-1",
    "rp_01m11z0g_db-kong-1",
    "rp_01m11z0g_db-meta-1",
    "rp_01m11z0g_db-rest-1",
    "rp_01m11z0g_db-storage-1",
    "rp_01m11z0g_db-supavisor-1",
];

#[test]
fn alvo_declarado_acha_o_container_da_replica() {
    let c = cands(STACK);
    let i = match_ingress_service(&c, "rp_01m11z0g_db-", "kong").unwrap();
    assert_eq!(c[i].1, "rp_01m11z0g_db-kong-1");
}

#[test]
fn alvo_declarado_aceita_nome_sem_sufixo_de_replica() {
    let c = cands(&["rp_x-proxy", "rp_x-app-1"]);
    let i = match_ingress_service(&c, "rp_x-", "proxy").unwrap();
    assert_eq!(c[i].1, "rp_x-proxy");
}

#[test]
fn alvo_declarado_inexistente_nao_casa() {
    let c = cands(&["rp_x-kong-1", "rp_x-storage-1"]);
    assert!(match_ingress_service(&c, "rp_x-", "nginx").is_none());
}

#[test]
fn porta_do_dominio_escolhe_o_gateway_e_nao_o_primeiro() {
    let exposed = vec![
        vec![9999],
        vec![5432],
        vec![9000],
        vec![8080],
        vec![8000, 8443],
        vec![8080],
        vec![3000],
        vec![5000],
        vec![4000, 5452],
    ];
    assert_eq!(match_exposed_port(&exposed, &[8000]), Some(4));
}

#[test]
fn sem_ninguem_expondo_a_porta_nao_ha_escolha_por_porta() {
    let exposed = vec![vec![5432], vec![5000]];
    assert_eq!(match_exposed_port(&exposed, &[8000]), None);
}

#[test]
fn a_primeira_porta_pedida_decide() {
    let exposed = vec![vec![443], vec![8000]];
    assert_eq!(match_exposed_port(&exposed, &[8000, 443]), Some(1));
    assert_eq!(match_exposed_port(&exposed, &[443, 8000]), Some(0));
}

#[test]
fn service_prefix_of_another_service_does_not_match() {
    // `db` must not pick `dbx-1`.
    let c = cands(&["rp_x-dbx-1", "rp_x-db-2"]);
    assert_eq!(match_ingress_service(&c, "rp_x-", "db"), Some(1));
}

#[test]
fn declared_service_is_trimmed_and_blank_means_none() {
    let c = cands(&["rp_x-app-1", "rp_x-proxy-1"]);
    assert_eq!(ingress_by_declared_service(&c, "rp_x-", Some("  proxy ")), Some(1));
    assert_eq!(ingress_by_declared_service(&c, "rp_x-", Some("   ")), None);
    assert_eq!(ingress_by_declared_service(&c, "rp_x-", None), None);
    assert_eq!(ingress_by_declared_service(&c, "rp_x-", Some("nope")), None);
}

#[test]
fn cidr_address_loses_its_mask() {
    assert_eq!(ip_from_cidr(Some("172.18.0.2/16")), Some("172.18.0.2".to_string()));
    assert_eq!(ip_from_cidr(Some("10.0.0.7")), Some("10.0.0.7".to_string()));
    assert_eq!(ip_from_cidr(Some("")), None);
    assert_eq!(ip_from_cidr(None), None);
}

#[test]
fn network_key_finds_the_container_either_way() {
    let keys = vec!["abc123".to_string(), "def456789".to_string()];
    assert_eq!(network_key(&keys, "def456789aaaa"), Some(1));
    assert_eq!(network_key(&keys, "abc"), Some(0));
    assert_eq!(network_key(&keys, "zzz"), None);
}

#[test]
fn exposed_ports_keep_tcp_only_and_sorted() {
    assert_eq!(port_from_key("8080/tcp"), Some(8080));
    assert_eq!(port_from_key("53/udp"), None);
    assert_eq!(port_from_key("x/tcp"), None);
    let keys = vec![
        "9000/tcp".to_string(),
        "53/udp".to_string(),
        "80/tcp".to_string(),
        "443/tcp".to_string(),
    ];
    assert_eq!(exposed_tcp_ports(&keys), vec![80, 443, 9000]);
    assert_eq!(sort_ports(vec![5, 3, 3, 1]), vec![1, 3, 3, 5]);
}

#[test]
fn blank_lines_are_dropped() {
    assert_eq!(nonempty_lines("a\n\nb\n"), vec!["a".to_string(), "b".to_string()]);
    assert!(nonempty_lines("").is_empty());
}

#[test]
fn old_containers_exclude_the_current_deployment() {
    let list = vec![
        ListedContainer { id: Some("c1".into()), deployment_label: Some("dep_new".into()) },
        ListedContainer { id: Some("c2".into()), deployment_label: Some("dep_old".into()) },
        ListedContainer { id: Some("c3".into()), deployment_label: None },
        ListedContainer { id: None, deployment_label: Some("dep_old".into()) },
    ];
    assert_eq!(old_container_ids(&list, "dep_new"), vec!["c2".to_string(), "c3".to_string()]);
}

#[test]
fn staging_config_carries_env_cmd_limits_and_labels() {
    let env = vec![("A".to_string(), "1".to_string()), ("B".to_string(), "x=y".to_string())];
    let c = staging_config(&env, &Some("node".into()), &vec!["app.js".into()], 0, 512, 3000, "svc_1", "dep_1");
    assert_eq!(c.env, vec!["A=1".to_string(), "B=x=y".to_string()]);
    assert_eq!(c.cmd, Some(vec!["node".to_string(), "app.js".to_string()]));
    assert_eq!(c.memory, None);
    assert_eq!(c.cpu_shares, Some(512));
    assert_eq!(c.exposed_port, "3000/tcp");
    assert!(c.labels.iter().any(|(k, v)| k == "rustploy.service_id" && v == "svc_1"));
    assert!(c.labels.iter().any(|(k, v)| k == "rustploy.deployment_id" && v == "dep_1"));
    let none = staging_config(&[], &None, &vec![], 1024, 0, 80, "s", "d");
    assert_eq!(none.cmd, None);
    assert_eq!(none.memory, Some(1024));
}

fn indexed(id: &str, name: &str, sid: Option<&str>, proj: Option<&str>) -> IndexedContainer {
    IndexedContainer {
        container: ManagedContainer { id: id.into(), name: name.into(), state: "running".into() },
        service_label: sid.map(|s| s.to_string()),
        compose_label: proj.map(|s| s.to_string()),
    }
}

#[test]
fn index_prefers_service_label_then_compose_project() {
    let idx = ContainerIndex::new(vec![
        indexed("1", "a", Some("svc_1"), None),
        indexed("2", "b", None, Some("rp_svc_2")),
        indexed("3", "c", None, Some("rp_svc_2")),
        indexed("4", "d", Some("svc_2"), Some("rp_svc_2")),
    ]);
    let one: Vec<String> = idx.for_service("svc_1", "rp_svc_1").into_iter().map(|c| c.id).collect();
    assert_eq!(one, vec!["1".to_string()]);
    let two: Vec<String> = idx.for_service("svc_2", "rp_svc_2").into_iter().map(|c| c.id).collect();
    assert_eq!(two, vec!["4".to_string()]);
    let three: Vec<String> = idx.for_service("svc_3", "rp_svc_2").into_iter().map(|c| c.id).collect();
    assert_eq!(three, vec!["2".to_string(), "3".to_string()]);
}

#[test]
fn managed_container_drops_leading_slash() {
    let c = managed_container(Some("abc".into()), &vec!["/web-1".to_string()], None);
    assert_eq!(c.id, "abc");
    assert_eq!(c.name, "web-1");
    assert_eq!(c.state, "");
}

#[test]
fn ingress_choice_follows_declared_then_port_then_first() {
    let c = cands(STACK);
    let mut exposed = vec![vec![]; STACK.len()];
    exposed[4] = vec![8000];
    exposed[6] = vec![3000];
    assert_eq!(choose_ingress_container(&c, "rp_01m11z0g_db-", Some("rest"), &exposed, &[8000]), Some(6));
    assert_eq!(choose_ingress_container(&c, "rp_01m11z0g_db-", Some("nginx"), &exposed, &[8000]), Some(4));
    assert_eq!(choose_ingress_container(&c, "rp_01m11z0g_db-", Some("  "), &exposed, &[8000]), Some(4));
    assert_eq!(choose_ingress_container(&c, "rp_01m11z0g_db-", None, &exposed, &[9]), Some(0));
    assert_eq!(choose_ingress_container(&c, "rp_01m11z0g_db-", None, &exposed, &[]), Some(0));
    assert_eq!(choose_ingress_container(&[], "rp_x-", Some("kong"), &[], &[8000]), None);
}

#[test]
fn volumes_become_bind_mounts() {
    let v = vec![
        VolumeMount { host_path: "/srv/data".into(), container_path: "/data".into(), read_only: false },
        VolumeMount { host_path: "/etc/cfg".into(), container_path: "/cfg".into(), read_only: true },
    ];
    let m = staging_mounts(&v);
    assert_eq!(m.len(), 2);
    assert_eq!((m[0].source.as_str(), m[0].target.as_str(), m[0].read_only), ("/srv/data", "/data", false));
    assert_eq!((m[1].source.as_str(), m[1].target.as_str(), m[1].read_only), ("/etc/cfg", "/cfg", true));
}
