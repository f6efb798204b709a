use rustployd::db::{
    run_success, str_to_stream, stream_to_str, token_from_bytes, trigger_column,
    trigger_from_column, LogStream,
};
use rustployd::deploy::env::{overlay, resolve_value, EnvVarValue};
use rustployd::env_backup::{check_snapshot_name, is_backup_name, is_expired, less_than, sort_newest_first};
use rustployd::firewall::{firewall_log_line, interpret_answer, request_line};
use rustployd::fw_helper::{
    after_status, after_ufw, default_range_end, default_range_start, handle_request,
    invalid_request, ufw_args, ufw_spawn_failed, ufw_status_active, Handling, PortRange, Request,
    Response,
};

#[test]
fn webhook_token_is_lowercase_hex_of_the_bytes() {
    let mut b = [0u8; 24];
    b[0] = 0xab;
    b[1] = 0x01;
    b[23] = 0xff;
    let t = token_from_bytes(&b);
    assert_eq!(t.len(), 48);
    assert!(t.starts_with("ab01"));
    assert!(t.ends_with("ff"));
    assert_eq!(&t[4..46], "0".repeat(42));
}

#[test]
fn job_columns_read_back() {
    assert_eq!(trigger_column(Some("svc_1")), "svc_1");
    assert_eq!(trigger_column(None), "");
    assert_eq!(trigger_from_column(String::new()), None);
    assert_eq!(trigger_from_column("svc_1".to_string()), Some("svc_1".to_string()));
    assert!(run_success(0));
    assert!(!run_success(2));
    assert_eq!(stream_to_str(&LogStream::Stderr), "Stderr");
    assert_eq!(str_to_stream(stream_to_str(&LogStream::Stdout)), LogStream::Stdout);
    assert_eq!(str_to_stream("qualquer"), LogStream::Stdout);
}

fn pair(k: &str, v: &str) -> (String, String) {
    (k.to_string(), v.to_string())
}

#[test]
fn job_env_overrides_service_which_overrides_project() {
    let mut env = vec![pair("A", "project"), pair("B", "project")];
    overlay(&mut env, &[pair("B", "service"), pair("C", "service")]);
    overlay(&mut env, &[pair("C", "job")]);
    assert_eq!(env, vec![pair("A", "project"), pair("B", "service"), pair("C", "job")]);
    assert_eq!(resolve_value(&EnvVarValue::Plain("x".into()), None), "x");
    assert_eq!(resolve_value(&EnvVarValue::Secret("S".into()), Some("s3cr3t".into())), "s3cr3t");
    assert_eq!(resolve_value(&EnvVarValue::Secret("S".into()), None), "");
}

#[test]
fn backup_names_order_and_expiry() {
    assert!(is_backup_name("env_backup_2024-01-02T03-04-05Z.json"));
    assert!(!is_backup_name("env_backup_2024.txt"));
    assert!(!is_backup_name("other.json"));
    assert!(check_snapshot_name("env_backup_x.json").is_ok());
    assert_eq!(check_snapshot_name("../etc/passwd"), Err("nome de snapshot inválido".to_string()));
    assert!(check_snapshot_name("a\\b").is_err());
    assert!(less_than("a", "b"));
    assert!(less_than("ab", "abc"));
    assert!(!less_than("b", "a"));
    assert!(!less_than("a", "a"));
    assert!(is_expired("env_backup_2024-01-01T00-00-00Z.json", "2024-02-01T00-00-00Z"));
    assert!(!is_expired("env_backup_2024-03-01T00-00-00Z.json", "2024-02-01T00-00-00Z"));
    assert!(!is_expired("notes_2020.json", "2024-02-01T00-00-00Z"));
    assert!(!is_expired("env_backup_.json", ""));
    let sorted = sort_newest_first(vec![
        "env_backup_2024-01-01T00-00-00Z.json".to_string(),
        "env_backup_2024-03-01T00-00-00Z.json".to_string(),
        "env_backup_2024-02-01T00-00-00Z.json".to_string(),
    ]);
    assert_eq!(
        sorted,
        vec![
            "env_backup_2024-03-01T00-00-00Z.json".to_string(),
            "env_backup_2024-02-01T00-00-00Z.json".to_string(),
            "env_backup_2024-01-01T00-00-00Z.json".to_string(),
        ]
    );
}

#[test]
fn daemon_side_of_the_firewall_helper() {
    assert_eq!(request_line("allow", 20001), "{\"op\":\"allow\",\"port\":20001}\n");
    assert_eq!(interpret_answer(true, "ufw".into(), String::new()), Ok("ufw".to_string()));
    assert_eq!(interpret_answer(true, String::new(), String::new()), Ok("?".to_string()));
    assert_eq!(interpret_answer(false, String::new(), "x".into()), Err("x".to_string()));
    assert_eq!(interpret_answer(false, String::new(), String::new()), Err("erro não informado".to_string()));
    assert_eq!(
        firewall_log_line(20001, &Ok("none".to_string())),
        "--> Porta externa 20001 exposta (nenhum firewall ativo no host)"
    );
    assert_eq!(
        firewall_log_line(20001, &Ok("ufw".to_string())),
        "--> Porta externa 20001 liberada no firewall (ufw)"
    );
    assert_eq!(
        firewall_log_line(20001, &Err("sem socket".to_string())),
        "--> Aviso: não foi possível liberar a porta 20001 no firewall: sem socket. Se a conexão externa falhar, libere-a manualmente."
    );
}

fn req(op: &str, port: u16) -> Request {
    Request { op: op.to_string(), port }
}

#[test]
fn helper_refuses_ports_outside_the_range() {
    let range = PortRange::default();
    assert_eq!((default_range_start(), default_range_end()), (20000, 20999));
    match handle_request(&req("allow", 22), &range) {
        Handling::Reply(r) => {
            assert!(!r.ok);
            assert_eq!(r.error, "porta 22 fora da faixa gerenciada (20000-20999)");
            assert_eq!(r.backend, "");
        }
        Handling::CheckUfw { .. } => panic!("porta 22 não pode ser aberta"),
    }
    match handle_request(&req("deny", 20999), &range) {
        Handling::CheckUfw { port, allow } => assert_eq!((port, allow), (20999, false)),
        Handling::Reply(_) => panic!("porta na faixa deveria ir ao ufw"),
    }
    match handle_request(&req("reset", 20000), &range) {
        Handling::Reply(r) => assert_eq!(r.error, "operação desconhecida: reset"),
        Handling::CheckUfw { .. } => panic!("operação desconhecida"),
    }
}

#[test]
fn helper_ufw_answers() {
    assert!(ufw_status_active("Status: active\n\nTo Action From\n"));
    assert!(!ufw_status_active("Status: inactive\n"));
    assert_eq!(ufw_args(20001, true), vec!["allow", "20001/tcp", "comment", "rustploy"]);
    assert_eq!(ufw_args(20001, false), vec!["--force", "delete", "allow", "20001/tcp"]);
    assert!(after_status(Some(true)).is_none());
    let none: Response = after_status(Some(false)).unwrap();
    assert!(none.ok);
    assert_eq!(none.backend, "none");
    assert_eq!(after_status(None).unwrap().backend, "none");
    assert!(after_ufw(true, true, "", "").ok);
    assert!(after_ufw(false, false, "", "Could not delete non-existent rule\n").ok);
    let bad = after_ufw(true, false, "  ERROR: bad  ", "\n");
    assert!(!bad.ok);
    assert_eq!(bad.error, "ufw falhou: ERROR: bad");
    assert_eq!(ufw_spawn_failed("nope").error, "falha ao executar ufw: nope");
    assert_eq!(invalid_request("eof").error, "requisição inválida: eof");
    assert_eq!(Response::ok("ufw").backend, "ufw");
    assert_eq!(Response::err("x".into()).error, "x");
}
