use rustployd::docker::compose::{
    compose_down_args, compose_run_once_args, compose_up_args, env_file_text,
    external_volume_names, inject_project_network_doc, Yaml,
};

fn s(t: &str) -> Yaml {
    Yaml::String(t.to_string())
}

fn map(entries: Vec<(&str, Yaml)>) -> Yaml {
    Yaml::Mapping(entries.into_iter().map(|(k, v)| (s(k), v)).collect())
}

fn get<'a>(y: &'a Yaml, key: &str) -> Option<&'a Yaml> {
    match y {
        Yaml::Mapping(m) => m.iter().find(|(k, _)| *k == s(key)).map(|(_, v)| v),
        _ => None,
    }
}

fn project_entry(name: &str) -> Yaml {
    map(vec![("external", Yaml::Bool(true)), ("name", s(name))])
}

#[test]
fn every_service_joins_the_project_network() {
    let doc = map(vec![(
        "services",
        map(vec![
            ("web", map(vec![("image", s("nginx"))])),
            ("db", map(vec![("image", s("postgres")), ("networks", Yaml::Sequence(vec![s("back")]))])),
            ("cache", map(vec![("networks", map(vec![("back", Yaml::Null)]))])),
            ("odd", map(vec![("networks", Yaml::Null)])),
        ]),
    )]);
    let out = inject_project_network_doc(doc, "rp_net_abc").unwrap();
    let nets = get(&out, "networks").unwrap();
    assert_eq!(get(nets, "rp_project_net"), Some(&project_entry("rp_net_abc")));
    let svcs = get(&out, "services").unwrap();
    assert_eq!(
        get(get(svcs, "web").unwrap(), "networks"),
        Some(&Yaml::Sequence(vec![s("rp_project_net")]))
    );
    assert_eq!(
        get(get(svcs, "db").unwrap(), "networks"),
        Some(&Yaml::Sequence(vec![s("back"), s("rp_project_net")]))
    );
    assert_eq!(
        get(get(svcs, "cache").unwrap(), "networks"),
        Some(&map(vec![("back", Yaml::Null), ("rp_project_net", map(vec![]))]))
    );
    assert_eq!(
        get(get(svcs, "odd").unwrap(), "networks"),
        Some(&Yaml::Sequence(vec![s("rp_project_net")]))
    );
}

#[test]
fn injecting_twice_changes_nothing_more() {
    let doc = map(vec![("services", map(vec![("web", map(vec![("image", s("nginx"))]))]))]);
    let once = inject_project_network_doc(doc, "rp_net_abc").unwrap();
    let again = inject_project_network_doc(
        inject_project_network_doc(
            map(vec![("services", map(vec![("web", map(vec![("image", s("nginx"))]))]))]),
            "rp_net_abc",
        )
        .unwrap(),
        "rp_net_abc",
    )
    .unwrap();
    assert_eq!(once, again);
}

#[test]
fn network_already_declared_by_name_is_not_added() {
    let doc = map(vec![("networks", map(vec![("mine", project_entry("rp_net_abc"))]))]);
    let out = inject_project_network_doc(doc, "rp_net_abc").unwrap();
    let nets = get(&out, "networks").unwrap();
    assert_eq!(get(nets, "rp_project_net"), None);
    assert!(get(nets, "mine").is_some());
}

#[test]
fn empty_document_gets_only_the_network() {
    let out = inject_project_network_doc(Yaml::Null, "rp_net_x").unwrap();
    assert_eq!(
        out,
        map(vec![("networks", map(vec![("rp_project_net", project_entry("rp_net_x"))]))])
    );
}

#[test]
fn malformed_documents_are_refused() {
    assert!(inject_project_network_doc(Yaml::Sequence(vec![]), "n").is_err());
    assert!(inject_project_network_doc(map(vec![("networks", s("x"))]), "n").is_err());
    assert!(inject_project_network_doc(map(vec![("services", s("x"))]), "n").is_err());
}

#[test]
fn external_volumes_use_their_name_or_key() {
    let doc = map(vec![(
        "volumes",
        map(vec![
            ("data", map(vec![("external", Yaml::Bool(true))])),
            ("logs", map(vec![("external", Yaml::Bool(true)), ("name", s("shared_logs"))])),
            ("tmp", map(vec![("driver", s("local"))])),
            ("off", map(vec![("external", Yaml::Bool(false))])),
        ]),
    )]);
    assert_eq!(external_volume_names(&doc), vec!["data".to_string(), "shared_logs".to_string()]);
    assert!(external_volume_names(&Yaml::Null).is_empty());
}

#[test]
fn env_file_and_compose_arguments() {
    let vars = vec![("A".to_string(), "1".to_string()), ("B".to_string(), "two".to_string())];
    assert_eq!(env_file_text(&vars), "A=1\nB=two\n");
    assert_eq!(env_file_text(&[]), "");
    assert_eq!(
        compose_up_args("rp_abc"),
        vec!["compose", "-p", "rp_abc", "-f", "docker-compose.yml", "--env-file", ".env", "up", "-d", "--build", "--remove-orphans"]
    );
    assert_eq!(compose_down_args("rp_abc"), vec!["compose", "-p", "rp_abc", "-f", "-", "down", "--remove-orphans"]);
    assert_eq!(
        compose_run_once_args("rp_job", "backup"),
        vec!["compose", "-p", "rp_job", "-f", "docker-compose.yml", "--env-file", ".env", "up", "--build", "--abort-on-container-exit", "--exit-code-from", "backup", "--remove-orphans"]
    );
}

#[test]
fn injecting_the_network_keeps_the_external_volumes() {
    let doc = || {
        map(vec![
            ("services", map(vec![("db", map(vec![("image", s("postgres"))]))])),
            ("volumes", map(vec![("pgdata", map(vec![("external", Yaml::Bool(true))]))])),
        ])
    };
    let before = external_volume_names(&doc());
    let after = external_volume_names(&inject_project_network_doc(doc(), "rp_net_x").unwrap());
    assert_eq!(before, vec!["pgdata".to_string()]);
    assert_eq!(after, before);
}
