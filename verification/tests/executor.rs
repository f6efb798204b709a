use rustployd::deploy::failure::{
    failure_log_lines, is_embedded_registry_image, missing_dockerfile_msg, rollback_cause,
    truncate_chars, Deployment, StateTransition,
};
use rustployd::deploy::machine::{after_step, plan_step, source_kind, SourceKind, StepInput, StepWork};
use rustployd::deploy::state::{parse_state, DeployState};
use rustployd::deploy::steps::{
    docker_health_ok, HealthStatus,
    active_ips, superseded_ids,
    announce_line, check_missing_msg, check_started_line, check_verdict, crash_log_block,
    health_addr, health_exhausted_msg, health_url, health_verdict, image_for, pre_deploy_checks,
    HealthVerdict,
};
use rustployd::health::http_target;
use rustployd::service::{ArchiveSource, ComposeSource, GitSource, ServiceSource};

#[test]
fn reconhece_loopback_com_porta_certa() {
    assert!(is_embedded_registry_image("127.0.0.1:5100/app:v1", 5100, None));
}

#[test]
fn nao_reconhece_porta_errada() {
    assert!(!is_embedded_registry_image("127.0.0.1:9999/app:v1", 5100, None));
}

#[test]
fn reconhece_localhost() {
    assert!(is_embedded_registry_image("localhost:5100/app:v1", 5100, None));
}

#[test]
fn reconhece_dominio_configurado_sem_porta() {
    assert!(is_embedded_registry_image(
        "registry.exemplo.com/app:v1",
        5100,
        Some("registry.exemplo.com")
    ));
}

#[test]
fn nao_reconhece_dominio_com_porta_5100_anexada() {
    assert!(!is_embedded_registry_image(
        "registry.exemplo.com:5100/app:v1",
        5100,
        Some("registry.exemplo.com")
    ));
}

#[test]
fn imagem_externa_nao_bate() {
    assert!(!is_embedded_registry_image("nginx:latest", 5100, None));
    assert!(!is_embedded_registry_image("ghcr.io/user/app:v1", 5100, Some("registry.exemplo.com")));
}

#[test]
fn causa_de_uma_linha_vira_um_marco_com_o_estado() {
    let linhas = failure_log_lines(
        "BuildingImage",
        "docker build error: Cannot locate specified Dockerfile: Dockerfile",
    );
    assert_eq!(linhas.len(), 1);
    assert_eq!(
        linhas[0],
        "==> Erro em [BuildingImage]: docker build error: Cannot locate specified Dockerfile: Dockerfile"
    );
}

#[test]
fn causa_multilinha_vira_varios_registros_indentados() {
    let linhas = failure_log_lines("Staging", "falhou ao subir\n  porta 8080 ocupada\n\n");
    assert_eq!(
        linhas,
        vec![
            "==> Erro em [Staging]: falhou ao subir".to_string(),
            "      porta 8080 ocupada".to_string(),
        ]
    );
}

#[test]
fn causa_vazia_ainda_produz_uma_linha() {
    let linhas = failure_log_lines("Promoting", "   \n  ");
    assert_eq!(linhas.len(), 1);
    assert!(linhas[0].contains("falha sem mensagem"));
}

#[test]
fn mensagem_do_git_cita_o_branch() {
    let msg = missing_dockerfile_msg(
        &ServiceSource::Git(GitSource {
            branch: "producao".into(),
            build_context: ".".into(),
            ..GitSource::default()
        }),
        "Dockerfile",
    );
    assert!(msg.contains("repositório"));
    assert!(msg.contains("producao"));
    assert!(!msg.contains("build context"));
}

#[test]
fn mensagem_cita_o_build_context_quando_ele_nao_e_a_raiz() {
    let msg = missing_dockerfile_msg(
        &ServiceSource::Archive(ArchiveSource {
            build_context: "apps/web".into(),
            ..Default::default()
        }),
        "Dockerfile",
    );
    assert!(msg.contains("zip"));
    assert!(msg.contains("build context: apps/web"));
}

fn deployment(log: Vec<StateTransition>) -> Deployment {
    Deployment {
        id: "dep_1".into(),
        service_id: "svc_1".into(),
        image: "nginx".into(),
        state: DeployState::RollingBack,
        states_log: log,
        started_at: 0,
        finished_at: None,
    }
}

#[test]
fn causa_do_rollback_vem_da_transicao_que_entrou_em_rollingback() {
    let dep = deployment(vec![
        StateTransition {
            from: DeployState::Pending,
            to: DeployState::BuildingImage,
            at: 0,
            message: None,
        },
        StateTransition {
            from: DeployState::BuildingImage,
            to: DeployState::RollingBack,
            at: 0,
            message: Some("docker build error: sem Dockerfile\ndetalhe ignorado".into()),
        },
    ]);
    assert_eq!(rollback_cause(&dep), "docker build error: sem Dockerfile");
}

#[test]
fn causa_do_rollback_cai_no_texto_generico_quando_nao_ha_mensagem() {
    let dep = deployment(vec![]);
    assert_eq!(rollback_cause(&dep), "deploy failed");
}

#[test]
fn causa_longa_e_truncada_por_caractere() {
    let longa = "ç".repeat(400);
    let cortada = truncate_chars(&longa, 160);
    assert_eq!(cortada.chars().count(), 160);
    assert!(cortada.ends_with('…'));
}

#[test]
fn rollback_cause_skips_blank_lines_and_trims() {
    let dep = deployment(vec![StateTransition {
        from: DeployState::Staging,
        to: DeployState::RollingBack,
        at: 0,
        message: Some("\n   \n   porta ocupada   \nmais".into()),
    }]);
    assert_eq!(rollback_cause(&dep), "porta ocupada");
}

#[test]
fn rollback_cause_uses_last_rollback_even_without_message() {
    let dep = deployment(vec![
        StateTransition {
            from: DeployState::Staging,
            to: DeployState::RollingBack,
            at: 0,
            message: Some("primeira".into()),
        },
        StateTransition {
            from: DeployState::RollingBack,
            to: DeployState::RollingBack,
            at: 0,
            message: None,
        },
    ]);
    assert_eq!(rollback_cause(&dep), "deploy failed");
}

#[test]
fn truncate_keeps_short_text_and_trims_before_ellipsis() {
    assert_eq!(truncate_chars("curto", 10), "curto");
    assert_eq!(truncate_chars("abc   defgh", 7), "abc…");
    assert_eq!(truncate_chars("abcdef", 0), "…");
}

#[test]
fn failure_lines_handle_crlf() {
    let linhas = failure_log_lines("Draining", "a \r\nb\r\n");
    assert_eq!(linhas, vec!["==> Erro em [Draining]: a".to_string(), "    b".to_string()]);
}

#[test]
fn missing_dockerfile_other_source() {
    let src = ServiceSource::Registry { image: "nginx".into() };
    assert_eq!(missing_dockerfile_msg(&src, "Dockerfile"), "Dockerfile não encontrado: Dockerfile");
    let git = ServiceSource::Git(GitSource {
        branch: "main".into(),
        build_context: "svc".into(),
        ..GitSource::default()
    });
    assert_eq!(
        missing_dockerfile_msg(&git, "Dockerfile"),
        "Dockerfile não encontrado no repositório: Dockerfile (build context: svc) — branch main. Confira se ele foi commitado e enviado, e se o caminho configurado no serviço está certo."
    );
}

#[test]
fn state_labels_read_back() {
    let all = [
        DeployState::Pending,
        DeployState::ResolvingDeps,
        DeployState::PullingImage,
        DeployState::CloningRepo,
        DeployState::BuildingImage,
        DeployState::Staging,
        DeployState::HealthcheckPolling,
        DeployState::SwappingIn,
        DeployState::Draining,
        DeployState::Promoting,
        DeployState::Live,
        DeployState::Stopped,
        DeployState::RollingBack,
        DeployState::Failed,
        DeployState::Pruning,
        DeployState::ComposingUp,
    ];
    for s in all {
        assert_eq!(parse_state(s.label()), s);
    }
    assert_eq!(parse_state(DeployState::PreDeployCheck.label()), DeployState::Failed);
    assert_eq!(parse_state("bogus"), DeployState::Failed);
    assert!(DeployState::Live.is_terminal());
    assert!(!DeployState::RollingBack.is_terminal());
}

fn input(source: SourceKind, replicas: u32, healthcheck_none: bool) -> StepInput {
    StepInput { source, replicas, healthcheck_none }
}

fn run_ok(mut s: DeployState, i: &StepInput) -> Vec<DeployState> {
    let mut path = vec![s];
    while !s.is_terminal() {
        s = match plan_step(s, i) {
            Ok(p) => p.next,
            Err(_) => DeployState::RollingBack,
        };
        path.push(s);
    }
    path
}

#[test]
fn git_deploy_goes_through_clone_build_and_swap() {
    let path = run_ok(DeployState::Pending, &input(SourceKind::Git, 1, true));
    assert_eq!(
        path,
        vec![
            DeployState::Pending,
            DeployState::PreDeployCheck,
            DeployState::ResolvingDeps,
            DeployState::CloningRepo,
            DeployState::BuildingImage,
            DeployState::Staging,
            DeployState::HealthcheckPolling,
            DeployState::SwappingIn,
            DeployState::Draining,
            DeployState::Promoting,
            DeployState::Live,
        ]
    );
}

#[test]
fn compose_deploy_goes_live_directly() {
    let path = run_ok(DeployState::Pending, &input(SourceKind::Compose, 3, true));
    assert_eq!(path.last(), Some(&DeployState::Live));
    assert_eq!(path.len(), 5);
}

#[test]
fn replicas_without_healthcheck_fail() {
    let i = input(SourceKind::Registry, 3, true);
    let e = plan_step(DeployState::Staging, &i).unwrap_err();
    assert_eq!(e, "Deploy com múltiplas réplicas requer configuração de healthcheck");
    assert_eq!(run_ok(DeployState::Pending, &i).last(), Some(&DeployState::Failed));
    let ok = plan_step(DeployState::Staging, &input(SourceKind::Registry, 3, false)).unwrap();
    assert_eq!(ok.work, StepWork::RollingUpdate);
    assert_eq!(ok.next, DeployState::Promoting);
}

#[test]
fn plan_errors_name_the_state() {
    let i = input(SourceKind::Registry, 1, true);
    assert_eq!(plan_step(DeployState::CloningRepo, &i).unwrap_err(), "expected Git source");
    assert_eq!(plan_step(DeployState::BuildingImage, &i).unwrap_err(), "expected Git or Archive source");
    assert_eq!(plan_step(DeployState::ComposingUp, &i).unwrap_err(), "expected Compose source in ComposingUp");
    assert_eq!(plan_step(DeployState::Live, &i).unwrap_err(), "unhandled state: Live");
    let rb = plan_step(DeployState::RollingBack, &input(SourceKind::Compose, 1, true)).unwrap();
    assert_eq!(rb.work, StepWork::RollBackCompose);
    assert_eq!(rb.next, DeployState::Failed);
}

#[test]
fn failed_step_goes_to_rollback_with_its_cause() {
    let t = after_step(DeployState::BuildingImage, Err("boom\n detalhe".into()));
    assert_eq!(t.to, DeployState::RollingBack);
    assert_eq!(t.message.as_deref(), Some("boom\n detalhe"));
    assert_eq!(t.log_lines, vec!["==> Erro em [BuildingImage]: boom".to_string(), "     detalhe".to_string()]);
    let ok = after_step(DeployState::Draining, Ok(DeployState::Promoting));
    assert_eq!(ok.to, DeployState::Promoting);
    assert!(ok.message.is_none());
    assert!(ok.log_lines.is_empty());
}

#[test]
fn image_and_announce_lines() {
    let reg = ServiceSource::Registry { image: "nginx:1".into() };
    assert_eq!(image_for(&reg, "web", "01ABCDEF"), "nginx:1");
    let git = ServiceSource::Git(GitSource { url: "https://h/r".into(), branch: "main".into(), ..GitSource::default() });
    assert_eq!(image_for(&git, "web", "01ABCDEF"), "rp_web:01ABCDEF");
    let comp = ServiceSource::Compose(ComposeSource { content: "x".into(), ingress_service: None });
    assert_eq!(image_for(&comp, "web", "01ABCDEF"), "compose:x");
    assert_eq!(announce_line(&git), "--> Clonando repositório: https://h/r (main)");
    assert_eq!(announce_line(&reg), "--> Pulling image: nginx:1");
    assert_eq!(source_kind(&comp), SourceKind::Compose);
}

#[test]
fn pre_deploy_queue_and_verdicts() {
    assert_eq!(pre_deploy_checks(&vec!["a".into(), "b".into()], &Some("old".into())), vec!["a", "b"]);
    assert_eq!(pre_deploy_checks(&vec![], &Some("old".into())), vec!["old"]);
    assert!(pre_deploy_checks(&vec![], &None).is_empty());
    assert_eq!(check_started_line(0, 2, "migrar"), "==> Pré-deploy check 1/2: migrar");
    assert_eq!(check_verdict(1, 2, "migrar", &Ok(0)).unwrap(), "--> Pré-deploy check 2/2 OK");
    assert_eq!(
        check_verdict(0, 2, "migrar", &Ok(3)).unwrap_err(),
        "pré-deploy check 1/2 (migrar) falhou (exit code 3)"
    );
    assert_eq!(
        check_verdict(0, 1, "x", &Err("docker".into())).unwrap_err(),
        "pré-deploy check 1/1 (x) falhou (exit code -1)"
    );
    assert_eq!(check_missing_msg("job_1"), "job de pré-deploy check não encontrado: job_1");
}

#[test]
fn healthcheck_decisions() {
    assert_eq!(health_verdict(0, 3, false, false, true), HealthVerdict::Stopped);
    assert_eq!(health_verdict(0, 3, true, true, false), HealthVerdict::Passed);
    assert_eq!(health_verdict(1, 3, true, false, false), HealthVerdict::Retry);
    assert_eq!(health_verdict(2, 3, true, false, false), HealthVerdict::Exhausted);
    assert_eq!(health_exhausted_msg(5), "healthcheck failed after 5 retries");
    assert_eq!(health_url("10.0.0.2", 8080, "/health"), "http://10.0.0.2:8080/health");
    assert_eq!(health_addr("10.0.0.2", 80), "10.0.0.2:80");
    assert_eq!(crash_log_block(&vec![]), vec!["  [sem output do container]"]);
    assert_eq!(
        crash_log_block(&vec!["x".into()]),
        vec!["--- output do container ---", "x", "--------------------------"]
    );
}

#[test]
fn http_probe_targets() {
    assert_eq!(
        http_target("http://10.0.0.2:3000/health?x=1"),
        ("10.0.0.2:3000".to_string(), "/health?x=1".to_string())
    );
    assert_eq!(http_target("10.0.0.2:3000"), ("10.0.0.2:3000".to_string(), "/".to_string()));
    assert_eq!(http_target("http://h/"), ("h".to_string(), "/".to_string()));
}

#[test]
fn transitions_are_recorded_in_order_and_finish_terminal_states() {
    let mut dep = deployment(vec![]);
    dep.state = DeployState::Pending;
    dep.record_transition(DeployState::PreDeployCheck, 10, None);
    assert_eq!(dep.state, DeployState::PreDeployCheck);
    assert_eq!(dep.finished_at, None);
    dep.record_transition(DeployState::RollingBack, 20, Some("falhou".into()));
    dep.record_transition(DeployState::Failed, 30, None);
    assert_eq!(dep.finished_at, Some(30));
    assert_eq!(dep.states_log.len(), 3);
    assert_eq!(dep.states_log[1].from, DeployState::PreDeployCheck);
    assert_eq!(dep.states_log[1].to, DeployState::RollingBack);
    assert_eq!(dep.states_log[1].message.as_deref(), Some("falhou"));
    assert_eq!(dep.states_log[2].at, 30);
    assert_eq!(rollback_cause(&dep), "falhou");
}

#[test]
fn rolling_update_routes_to_replicas_that_are_up() {
    let ips = vec![Some("10.0.0.5".to_string()), None, Some("10.0.0.7".to_string())];
    assert_eq!(active_ips(&ips), vec!["10.0.0.5".to_string(), "10.0.0.7".to_string()]);
    assert!(active_ips(&vec![None, None]).is_empty());
}

#[test]
fn promotion_supersedes_other_live_deployments() {
    let mk = |id: &str, state: DeployState| Deployment {
        id: id.into(),
        service_id: "svc_1".into(),
        image: "img".into(),
        state,
        states_log: vec![],
        started_at: 0,
        finished_at: None,
    };
    let history = vec![
        mk("dep_3", DeployState::Live),
        mk("dep_2", DeployState::Live),
        mk("dep_1", DeployState::Failed),
        mk("dep_0", DeployState::Live),
    ];
    assert_eq!(superseded_ids(&history, "dep_3"), vec!["dep_2".to_string(), "dep_0".to_string()]);
    assert!(superseded_ids(&vec![mk("dep_3", DeployState::Live)], "dep_3").is_empty());
}

#[test]
fn docker_native_health_passes_only_when_healthy() {
    assert!(docker_health_ok(None));
    assert!(docker_health_ok(Some(HealthStatus::Healthy)));
    assert!(!docker_health_ok(Some(HealthStatus::Starting)));
    assert!(!docker_health_ok(Some(HealthStatus::Unhealthy)));
}
