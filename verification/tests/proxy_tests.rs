use onlycodex::config::{AppConfig, Mapping, Protocol, Provider};
use onlycodex::proxy::{
    config_change_allowed, manual_restore_allowed, proxy_address, proxy_started_message,
    start_proxy_begin, start_proxy_next, StartStep, StepResult,
};

fn routed() -> AppConfig {
    let mut c = AppConfig::default();
    c.providers.push(Provider {
        id: "p".into(),
        name: "P".into(),
        base_url: "https://x".into(),
        api_key: String::new(),
        protocol: Protocol::Responses,
        enabled: true,
        models: vec![],
    });
    c.mappings.push(Mapping {
        id: "m".into(),
        codex_model: "alias".into(),
        provider_id: "p".into(),
        upstream_model: "u".into(),
        enabled: true,
    });
    c
}

#[test]
fn start_needs_a_routable_mapping() {
    assert_eq!(
        start_proxy_begin(&AppConfig::default(), false),
        StartStep::Fail("请至少配置并启用一条指向已启用供应商的模型映射".into())
    );
    assert_eq!(start_proxy_begin(&routed(), false), StartStep::WriteCatalog);
    assert_eq!(start_proxy_begin(&AppConfig::default(), true), StartStep::Report);
}

#[test]
fn start_refuses_a_bind_address_that_is_not_loopback() {
    let mut c = routed();
    c.settings.bind_address = "0.0.0.0".into();
    assert_eq!(
        start_proxy_begin(&c, false),
        StartStep::Fail("为保证安全，代理只能绑定 127.0.0.1 或 ::1".into())
    );
    c.settings.bind_address = "::1".into();
    assert_eq!(start_proxy_begin(&c, false), StartStep::WriteCatalog);
}

#[test]
fn a_missing_mapping_is_reported_before_the_bind_address() {
    let mut c = AppConfig::default();
    c.settings.bind_address = "0.0.0.0".into();
    assert_eq!(
        start_proxy_begin(&c, false),
        StartStep::Fail("请至少配置并启用一条指向已启用供应商的模型映射".into())
    );
}

#[test]
fn start_with_restart_runs_every_step_in_order() {
    let mut step = StartStep::WriteCatalog;
    let mut seen = vec![];
    while !matches!(step, StartStep::Report | StartStep::Fail(_)) {
        seen.push(format!("{step:?}"));
        let result = match step {
            StartStep::VerifyInjection => StepResult::Checked(true),
            _ => StepResult::Done,
        };
        step = start_proxy_next(true, step, result);
    }
    assert_eq!(
        seen,
        vec!["WriteCatalog", "PrepareWrapper", "QuitCodex", "Inject", "VerifyInjection", "SpawnSidecar", "LaunchCodex"]
    );
}

#[test]
fn a_lost_injection_stops_the_start() {
    let next = start_proxy_next(false, StartStep::VerifyInjection, StepResult::Checked(false));
    assert_eq!(
        next,
        StartStep::Fail(
            "配置注入未生效：Codex/ChatGPT 可能仍在运行并覆盖了 config.toml，请先完全退出后重试".into()
        )
    );
}

#[test]
fn a_failed_sidecar_restores_the_configuration() {
    let next = start_proxy_next(false, StartStep::SpawnSidecar, StepResult::Failed("boom".into()));
    assert_eq!(next, StartStep::RestoreAfterFailure("boom".into()));
    let next = start_proxy_next(false, next, StepResult::Done);
    assert_eq!(next, StartStep::Fail("boom".into()));
    assert_eq!(
        start_proxy_next(false, StartStep::WriteCatalog, StepResult::Done),
        StartStep::Inject
    );
}

#[test]
fn status_and_messages() {
    let c = AppConfig::default();
    assert_eq!(proxy_address(&c.settings), "127.0.0.1:8787");
    assert_eq!(proxy_started_message(&c.settings, 2), "代理已启动于 127.0.0.1:8787，模型目录包含 2 个模型");
    assert!(config_change_allowed(false).is_ok());
    assert_eq!(
        config_change_allowed(true).unwrap_err(),
        "请先停止代理再修改配置，避免运行中的路由与界面不一致"
    );
    assert_eq!(manual_restore_allowed(true).unwrap_err(), "请先停止代理再手动恢复配置");
}
