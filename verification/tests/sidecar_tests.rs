use onlycodex::config::{AppConfig, Mapping, ModelConfig, Protocol, Provider};
use onlycodex::sidecar::{
    health_url, packaged_names, port_unavailable_message, proxy_config, proxy_config_text,
    push_bounded,
    sidecar_args, sidecar_exit_message, startup_error_detail, startup_step, StartupAction,
    StartupEvent, TargetOs,
};

#[test]
fn formats_ipv6_health_url() {
    assert_eq!(health_url("::1", 8787), "http://[::1]:8787/health");
}

#[test]
fn formats_ipv4_health_url() {
    assert_eq!(health_url("127.0.0.1", 8787), "http://127.0.0.1:8787/health");
    assert_eq!(health_url("127.0.0.1", 0), "http://127.0.0.1:0/health");
}

#[test]
fn reports_an_unavailable_port_before_spawning() {
    let error = port_unavailable_message("127.0.0.1", 43210, "Address already in use");
    assert!(error.contains("43210"));
    assert!(error.contains("端口不可用"));
    assert_eq!(error, "无法启动代理：127.0.0.1:43210 端口不可用（Address already in use）");
}

#[test]
fn exports_upstream_compatible_config() {
    let value: serde_json::Value =
        serde_json::from_str(&proxy_config_text(&AppConfig::default())).unwrap();
    assert!(value["providers"].is_object());
    assert!(value["mappings"].is_object());
}

fn native_provider() -> Provider {
    Provider {
        id: "native".into(),
        name: "Native Responses".into(),
        base_url: "https://example.com/v1".into(),
        api_key: "key".into(),
        protocol: Protocol::Responses,
        enabled: true,
        models: vec![],
    }
}

#[test]
fn exports_responses_as_the_default_provider_protocol() {
    let mut config = AppConfig::default();
    config.providers.push(native_provider());
    let value: serde_json::Value = serde_json::from_str(&proxy_config_text(&config)).unwrap();
    assert_eq!(value["providers"]["native"]["protocol"], "responses");
}

#[test]
fn the_selection_holds_each_provider_with_its_key() {
    let mut config = AppConfig::default();
    config.providers.push(native_provider());
    let value = proxy_config(&config);
    assert_eq!(value.providers.len(), 1);
    assert_eq!(value.providers[0].0, "native");
    assert_eq!(value.providers[0].1.protocol, "responses");
    assert_eq!(value.providers[0].1.api_key, "key");
    assert!(value.mappings.is_empty());
}

#[test]
fn the_config_file_holds_providers_and_routes() {
    let mut config = AppConfig::default();
    let mut local = native_provider();
    local.id = "local".into();
    local.api_key = String::new();
    local.protocol = Protocol::ChatCompletions;
    local.models = vec![
        ModelConfig { id: "qwen".into(), name: "Qwen".into(), enabled: true, context_window: 1 },
        ModelConfig { id: "off".into(), name: "Off".into(), enabled: false, context_window: 1 },
    ];
    config.providers.push(local);
    config.mappings.push(Mapping {
        id: "1".into(),
        codex_model: "alias".into(),
        provider_id: "local".into(),
        upstream_model: "qwen".into(),
        enabled: true,
    });
    let value: serde_json::Value = serde_json::from_str(&proxy_config_text(&config)).unwrap();
    let local = &value["providers"]["local"];
    assert_eq!(local["baseUrl"], "https://example.com/v1");
    assert_eq!(local["apiKey"], "not-required");
    assert_eq!(local["protocol"], "chat_completions");
    assert_eq!(local["models"], serde_json::Value::from(vec!["qwen"]));
    assert_eq!(value["mappings"]["alias"], "local:qwen");
    assert_eq!(value.as_object().unwrap().len(), 2);
}

#[test]
fn proxy_config_keeps_enabled_providers_and_routable_mappings() {
    let mut config = AppConfig::default();
    let mut local = native_provider();
    local.id = "local".into();
    local.api_key = String::new();
    local.protocol = Protocol::ChatCompletions;
    local.models = vec![
        ModelConfig { id: "qwen".into(), name: "Qwen".into(), enabled: true, context_window: 1 },
        ModelConfig { id: "off".into(), name: "Off".into(), enabled: false, context_window: 1 },
        ModelConfig { id: "llama".into(), name: "Llama".into(), enabled: true, context_window: 1 },
    ];
    let mut disabled = native_provider();
    disabled.id = "disabled".into();
    disabled.enabled = false;
    config.providers.push(local);
    config.providers.push(disabled);
    for (id, alias, provider, upstream, enabled) in [
        ("1", "zeta", "local", "qwen", true),
        ("2", "alpha", "local", "llama", true),
        ("3", "zeta", "local", "llama", true),
        ("4", "ghost", "disabled", "x", true),
        ("5", "off", "local", "qwen", false),
    ] {
        config.mappings.push(Mapping {
            id: id.into(),
            codex_model: alias.into(),
            provider_id: provider.into(),
            upstream_model: upstream.into(),
            enabled,
        });
    }
    let value = proxy_config(&config);
    assert_eq!(value.providers.len(), 1);
    let (id, p) = &value.providers[0];
    assert_eq!(id, "local");
    assert_eq!(p.api_key, "not-required");
    assert_eq!(p.protocol, "chat_completions");
    assert_eq!(p.models, vec!["qwen".to_string(), "llama".to_string()]);
    let routes: Vec<(String, String)> = value.mappings;
    assert_eq!(
        routes,
        vec![
            ("alpha".to_string(), "local:llama".to_string()),
            ("zeta".to_string(), "local:llama".to_string()),
        ]
    );
}

#[test]
fn startup_detail_prefers_the_last_error_line() {
    let lines: Vec<String> = vec![
        "starting".into(),
        "  OSError: [Errno 48] address in use  ".into(),
        "shutting down".into(),
    ];
    assert_eq!(
        startup_error_detail(&lines),
        Some("OSError: [Errno 48] address in use".to_string())
    );
    let lines: Vec<String> = vec!["a".into(), "  last words ".into()];
    assert_eq!(startup_error_detail(&lines), Some("last words".to_string()));
    let lines: Vec<String> = vec!["a".into(), "   ".into()];
    assert_eq!(startup_error_detail(&lines), None);
    assert_eq!(startup_error_detail(&Vec::new()), None);
}

#[test]
fn early_exit_is_reported_with_its_detail() {
    let lines: Vec<String> = vec!["ERROR bad config".into()];
    assert_eq!(
        sidecar_exit_message("exit status: 1", Some(&lines)),
        "OnlyCodex sidecar 提前退出: exit status: 1；ERROR bad config"
    );
    assert_eq!(
        sidecar_exit_message("exit status: 1", None),
        "OnlyCodex sidecar 提前退出: exit status: 1"
    );
}

#[test]
fn startup_waits_a_bounded_number_of_rounds() {
    assert!(matches!(startup_step(0, StartupEvent::Healthy), StartupAction::Ready));
    assert!(matches!(startup_step(0, StartupEvent::NotReady), StartupAction::Wait));
    assert!(matches!(startup_step(38, StartupEvent::NotReady), StartupAction::Wait));
    match startup_step(39, StartupEvent::NotReady) {
        StartupAction::WaitThenGiveUp(e) => assert_eq!(e, "OnlyCodex sidecar 启动超时"),
        _ => panic!("expected the start-up to be given up"),
    }
    match startup_step(
        3,
        StartupEvent::Exited { status: "signal: 9".into(), stderr: Some(vec!["x".into()]) },
    ) {
        StartupAction::Fail(e) => assert_eq!(e, "OnlyCodex sidecar 提前退出: signal: 9；x"),
        _ => panic!("expected a failure"),
    }
}

#[test]
fn recent_lines_keep_only_the_newest() {
    let mut recent: Vec<u32> = Vec::new();
    for i in 0..10 {
        push_bounded(&mut recent, i, 8);
    }
    assert_eq!(recent, vec![2, 3, 4, 5, 6, 7, 8, 9]);
}

#[test]
fn sidecar_arguments_name_every_setting() {
    let config = AppConfig::default();
    assert_eq!(
        sidecar_args(&config.settings, "/data/proxy-config.json"),
        vec![
            "--bind",
            "127.0.0.1",
            "--port",
            "8787",
            "--timeout-sec",
            "120",
            "--max-body-mb",
            "20",
            "--default-protocol",
            "responses",
            "--config",
            "/data/proxy-config.json"
        ]
    );
}

#[test]
fn packaged_sidecar_names_per_platform() {
    assert_eq!(
        packaged_names(TargetOs::Linux),
        vec!["opencodex-sidecar", "opencodex-sidecar-x86_64-unknown-linux-gnu"]
    );
    assert_eq!(packaged_names(TargetOs::MacOs).len(), 3);
    assert_eq!(packaged_names(TargetOs::Windows)[0], "opencodex-sidecar.exe");
}
