use rustployd::api::cache::TtlSlot;
use rustployd::api::public_routes::url_decode_pairs;
use rustployd::deploy::failure::{Deployment, StateTransition};
use rustployd::deploy::git::clone_outcome;
use rustployd::deploy::state::DeployState;
use rustployd::deploy::steps::{
    build_input, build_start, check_queue, health_failure, pre_deploy_checks, replica_promoted,
    rollback_plan,
    CheckQueue, CheckRun, HealthVerdict,
};
use rustployd::docker::compose::{external_volumes_of, inject_project_network};
use rustployd::ingress::router::RouteTable;
use rustployd::ingress::tls::{finalize_poll, OrderState};
use rustployd::service::{ArchiveSource, ComposeSource, GitSource, ServiceSource};

fn ids(v: &[&str]) -> Vec<String> {
    v.iter().map(|s| s.to_string()).collect()
}

fn git_source() -> ServiceSource {
    ServiceSource::Git(GitSource {
        url: "https://github.com/exemplo/app".into(),
        branch: "main".into(),
        dockerfile_path: "Dockerfile".into(),
        build_context: ".".into(),
        ..GitSource::default()
    })
}

#[test]
fn fila_vazia_e_no_op() {
    let checks = pre_deploy_checks(&vec![], &None);
    assert!(matches!(check_queue(&checks, &vec![]), CheckQueue::Passed));
}

#[test]
fn job_inexistente_falha_o_step() {
    let checks = ids(&["job_nao_existe"]);
    match check_queue(&checks, &vec![CheckRun::Missing]) {
        CheckQueue::Failed { at, error } => {
            assert_eq!(at, 0);
            assert!(error.contains("não encontrado"));
        }
        _ => panic!("a missing job must fail the queue"),
    }
}

#[test]
fn fila_para_no_primeiro_job_ausente_sem_chegar_no_segundo() {
    let checks = ids(&["job_ausente_1", "job_ausente_2"]);
    for runs in [vec![CheckRun::Missing], vec![CheckRun::Missing, CheckRun::Missing]] {
        match check_queue(&checks, &runs) {
            CheckQueue::Failed { at, error } => {
                assert_eq!(at, 0);
                assert!(error.contains("job_ausente_1"));
                assert!(!error.contains("job_ausente_2"));
            }
            _ => panic!("the queue must stop at the first missing job"),
        }
    }
}

#[test]
fn legado_pre_deploy_job_id_ainda_funciona_via_fallback() {
    let checks = pre_deploy_checks(&vec![], &Some("job_legado_nao_existe".into()));
    match check_queue(&checks, &vec![CheckRun::Missing]) {
        CheckQueue::Failed { error, .. } => assert!(error.contains("job_legado_nao_existe")),
        _ => panic!("the single older job must be checked"),
    }
}

#[test]
fn queue_runs_each_check_in_turn_and_stops_at_a_failure() {
    let checks = ids(&["a", "b", "c"]);
    assert!(matches!(check_queue(&checks, &vec![]), CheckQueue::Next(0)));
    let ok = || CheckRun::Ran { name: "migrar".into(), run: Ok(0) };
    assert!(matches!(check_queue(&checks, &vec![ok(), ok()]), CheckQueue::Next(2)));
    assert!(matches!(check_queue(&checks, &vec![ok(), ok(), ok()]), CheckQueue::Passed));
    let runs = vec![ok(), CheckRun::Ran { name: "seed".into(), run: Ok(2) }];
    match check_queue(&checks, &runs) {
        CheckQueue::Failed { at, error } => {
            assert_eq!(at, 1);
            assert_eq!(error, "pré-deploy check 2/3 (seed) falhou (exit code 2)");
        }
        _ => panic!("a failing check must stop the queue"),
    }
    let runs = vec![CheckRun::Ran { name: "x".into(), run: Err("docker".into()) }];
    match check_queue(&checks, &runs) {
        CheckQueue::Failed { at, error } => {
            assert_eq!(at, 0);
            assert_eq!(error, "pré-deploy check 1/3 (x) falhou (exit code -1)");
        }
        _ => panic!("a check that could not run fails"),
    }
}

#[test]
fn step_building_image_falha_com_mensagem_util_sem_dockerfile() {
    let src = git_source();
    let input = build_input(&src).unwrap();
    assert_eq!(input.context, ".");
    assert_eq!(input.dockerfile, "Dockerfile");
    let err = build_start(&src, &input.dockerfile, false, "app", "1").err().unwrap();
    assert!(err.contains("Dockerfile não encontrado no repositório"), "{err}");
    assert!(err.contains("main"), "{err}");
}

#[test]
fn build_starts_only_with_a_dockerfile_and_a_buildable_source() {
    let src = ServiceSource::Archive(ArchiveSource {
        archive_id: "arc_1".into(),
        dockerfile_path: "docker/Dockerfile".into(),
        build_context: "apps/web".into(),
    });
    let input = build_input(&src).unwrap();
    assert_eq!(input.context, "apps/web");
    assert_eq!(input.dockerfile, "docker/Dockerfile");
    let go = build_start(&src, &input.dockerfile, true, "web", "ab12cd34").ok().unwrap();
    assert_eq!(go.tag, "rp_web:ab12cd34");
    assert_eq!(go.line, "--> Build Docker: rp_web:ab12cd34 (docker/Dockerfile)");
    let reg = ServiceSource::Registry { image: "nginx".into() };
    assert_eq!(build_input(&reg).err().unwrap(), "expected Git or Archive source");
}

#[test]
fn failed_healthcheck_verdicts_carry_their_error() {
    assert_eq!(
        health_failure(HealthVerdict::Stopped, 3).unwrap(),
        "container stopped during healthcheck"
    );
    assert_eq!(
        health_failure(HealthVerdict::Exhausted, 3).unwrap(),
        "healthcheck failed after 3 retries"
    );
    assert!(health_failure(HealthVerdict::Passed, 3).is_none());
    assert!(health_failure(HealthVerdict::Retry, 3).is_none());
}

fn rolled_back() -> Deployment {
    Deployment {
        id: "dep_1".into(),
        service_id: "svc_1".into(),
        image: "rp_app:1".into(),
        state: DeployState::RollingBack,
        states_log: vec![StateTransition {
            from: DeployState::HealthcheckPolling,
            to: DeployState::RollingBack,
            at: 0,
            message: Some("container stopped during healthcheck".into()),
        }],
        started_at: 0,
        finished_at: None,
    }
}

#[test]
fn rollback_removes_every_staging_replica_and_marks_the_error() {
    let dep = rolled_back();
    let plan = rollback_plan(&git_source(), "app", "ab12cd34", 3, &dep);
    assert!(!plan.compose_down);
    assert_eq!(
        plan.staging,
        ids(&["rp_app_staging_ab12cd34", "rp_app_staging_ab12cd34_r1", "rp_app_staging_ab12cd34_r2"])
    );
    assert_eq!(plan.live, ids(&["rp_app", "rp_app_r1", "rp_app_r2"]));
    assert_eq!(plan.error_status, "container stopped during healthcheck");

    let single = rollback_plan(&git_source(), "app", "ab12cd34", 0, &dep);
    assert_eq!(single.staging, ids(&["rp_app_staging_ab12cd34"]));
    assert_eq!(single.live, ids(&["rp_app"]));

    let compose = ServiceSource::Compose(ComposeSource { content: "services: {}".into(), ingress_service: None });
    let plan = rollback_plan(&compose, "app", "ab12cd34", 2, &dep);
    assert!(plan.compose_down);
    assert!(plan.staging.is_empty() && plan.live.is_empty());
    assert_eq!(plan.error_status, "container stopped during healthcheck");
}

#[test]
fn finalized_order_fails_only_when_invalid() {
    assert_eq!(
        finalize_poll("app.example.com", OrderState::Invalid).unwrap_err(),
        "ACME: order inválida durante finalização para app.example.com"
    );
    assert!(finalize_poll("app.example.com", OrderState::Processing).is_ok());
    assert!(finalize_poll("app.example.com", OrderState::Valid).is_ok());
}

#[test]
fn clone_outcome_reports_every_line_and_the_tail_on_failure() {
    let stderr = "Cloning into '.'...\nremote: Counting objects:  50% (1/2)\rremote: Counting objects: 100% (2/2)\n\nfatal: x\n";
    let (progress, result) = clone_outcome(stderr, true, Some(0));
    assert!(result.is_ok());
    assert_eq!(progress.len(), 4);
    assert_eq!(progress[1].phase, "Counting objects");
    assert_eq!(progress[1].percent, 50);
    assert_eq!(progress[2].percent, 100);
    assert_eq!(progress[3].description, "fatal: x");

    let (_, result) = clone_outcome("a\nb\n", false, Some(128));
    assert_eq!(result.unwrap_err(), "git clone falhou (exit 128): a | b");
    let many: String = (1..=12).map(|i| format!("l{i}\n")).collect();
    let (progress, result) = clone_outcome(&many, false, None);
    assert_eq!(progress.len(), 12);
    assert_eq!(
        result.unwrap_err(),
        "git clone falhou (exit -1): l3 | l4 | l5 | l6 | l7 | l8 | l9 | l10 | l11 | l12"
    );
}

#[test]
fn failed_refresh_keeps_the_stale_value() {
    let mut c: TtlSlot<u32> = TtlSlot::new(300);
    assert_eq!(c.refreshed::<String>(1000, Ok(7)), Ok(7));
    assert_eq!(c.fresh(1100), Some(&7));
    assert_eq!(c.refreshed(2000, Err("docker down".to_string())), Err("docker down".to_string()));
    assert_eq!(c.slot, Some((1000, 7)));
    assert_eq!(c.fresh(2000), None);
    assert_eq!(c.refreshed::<String>(2000, Ok(9)), Ok(9));
    assert_eq!(c.fresh(2299), Some(&9));
}

#[test]
fn query_values_decode_as_utf8_or_lossily() {
    let pairs = url_decode_pairs("nome=Jo%C3%A3o&x=%FF");
    assert_eq!(pairs[0], ("nome".to_string(), "João".to_string()));
    assert_eq!(pairs[1], ("x".to_string(), "\u{FFFD}".to_string()));
}

#[test]
fn route_lookup_gives_the_stored_entry_and_leaves_other_domains() {
    let mut t = RouteTable::default();
    t.upsert("a.com", ids(&["x:1"]), "svc_a");
    t.upsert("b.com", ids(&["y:1", "z:1"]), "svc_b");
    assert_eq!(t.get("b.com").unwrap().next_backend().unwrap(), "y:1");
    t.upsert("a.com", ids(&["w:1"]), "svc_a2");
    let b = t.get("b.com").unwrap();
    assert_eq!(b._service_id, "svc_b");
    assert_eq!(b.next_backend().unwrap(), "z:1");
    let a = t.get("a.com").unwrap();
    assert_eq!(a._domain, "a.com");
    assert_eq!(a._service_id, "svc_a2");
    assert_eq!(a.backends, ids(&["w:1"]));
}

#[test]
fn compose_text_joins_the_project_network() {
    let out = inject_project_network("services:\n  web:\n    image: nginx\n", "rp_net_ab12cd34").unwrap();
    assert!(out.contains("rp_project_net"), "{out}");
    assert!(out.contains("rp_net_ab12cd34"), "{out}");
    assert!(out.contains("external: true"), "{out}");
    assert!(out.contains("image: nginx"), "{out}");
    let again = inject_project_network(&out, "rp_net_ab12cd34").unwrap();
    assert_eq!(again, out);
    let err = inject_project_network("a: [", "rp_net_x").unwrap_err();
    assert!(err.starts_with("compose YAML inválido: "), "{err}");
    let err = inject_project_network("- a\n- b\n", "rp_net_x").unwrap_err();
    assert_eq!(err, "compose YAML não é um mapping no nível raiz");
}

#[test]
fn compose_text_lists_its_external_volumes() {
    let text = "volumes:\n  dados:\n    external: true\n  cache: {}\n  outro:\n    external: true\n    name: vol_real\n";
    assert_eq!(external_volumes_of(text).unwrap(), ids(&["dados", "vol_real"]));
    assert!(external_volumes_of("services: {}\n").unwrap().is_empty());
    assert!(external_volumes_of("a: [").unwrap_err().starts_with("compose YAML inválido: "));
}

#[test]
fn rolling_update_routes_to_each_promoted_replica() {
    let mut ips = vec![Some("10.0.0.1".to_string()), None, Some("10.0.0.3".to_string())];
    let (active, line) = replica_promoted(&mut ips, 1, "10.0.0.9".to_string());
    assert_eq!(active, ids(&["10.0.0.1", "10.0.0.9", "10.0.0.3"]));
    assert_eq!(line, "replica 2/3 ok");
    let mut first = vec![None, None];
    let (active, line) = replica_promoted(&mut first, 0, "172.18.0.5".to_string());
    assert_eq!(active, ids(&["172.18.0.5"]));
    assert_eq!(line, "replica 1/2 ok");
    assert_eq!(first, vec![Some("172.18.0.5".to_string()), None]);
}
