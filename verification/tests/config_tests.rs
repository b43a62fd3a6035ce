use onlycodex::config::{
    config_path, default_bind, default_context_window, default_max_body, default_port,
    default_protocol, default_timeout, default_true, normalize_context_windows, validate, AppConfig,
    Mapping, ModelConfig, Protocol, Provider, Settings, DEFAULT_CONTEXT_WINDOW,
    LEGACY_DEFAULT_CONTEXT_WINDOW,
};

fn provider(id: &str, name: &str, base_url: &str, models: Vec<ModelConfig>) -> Provider {
    Provider {
        id: id.into(),
        name: name.into(),
        base_url: base_url.into(),
        api_key: String::new(),
        protocol: Protocol::Responses,
        enabled: true,
        models,
    }
}

fn model(id: &str, context_window: u64) -> ModelConfig {
    ModelConfig { id: id.into(), name: id.to_uppercase(), enabled: true, context_window }
}

#[test]
fn legacy_context_window_is_migrated_but_custom_value_is_preserved() {
    let mut config = AppConfig {
        providers: vec![Provider {
            id: "p".into(),
            name: "P".into(),
            base_url: "https://example.com".into(),
            api_key: String::new(),
            protocol: Protocol::Responses,
            enabled: true,
            models: vec![
                ModelConfig {
                    id: "legacy".into(),
                    name: "Legacy".into(),
                    enabled: true,
                    context_window: LEGACY_DEFAULT_CONTEXT_WINDOW,
                },
                ModelConfig {
                    id: "custom".into(),
                    name: "Custom".into(),
                    enabled: true,
                    context_window: 64_000,
                },
            ],
        }],
        ..AppConfig::default()
    };
    assert!(normalize_context_windows(&mut config));
    assert_eq!(config.providers[0].models[0].context_window, DEFAULT_CONTEXT_WINDOW);
    assert_eq!(config.providers[0].models[1].context_window, 64_000);
}

#[test]
fn normalizing_twice_changes_nothing_more() {
    let mut config = AppConfig::default();
    config.providers.push(provider(
        "p",
        "P",
        "https://example.com",
        vec![model("a", LEGACY_DEFAULT_CONTEXT_WINDOW), model("b", 8_192)],
    ));
    assert!(normalize_context_windows(&mut config));
    assert!(!normalize_context_windows(&mut config));
    assert_eq!(config.providers[0].models[0].context_window, 1_050_000);
    assert_eq!(config.providers[0].models[1].context_window, 8_192);
    assert_eq!(config.providers[0].models[0].id, "a");
}

#[test]
fn normalizing_without_legacy_values_reports_no_change() {
    let mut config = AppConfig::default();
    assert!(!normalize_context_windows(&mut config));
    config.providers.push(provider("p", "P", "https://x", vec![model("m", 32_000)]));
    assert!(!normalize_context_windows(&mut config));
    assert_eq!(config.providers[0].models[0].context_window, 32_000);
}

#[test]
fn defaults_match_a_fresh_installation() {
    let c = AppConfig::default();
    assert!(c.providers.is_empty());
    assert!(c.mappings.is_empty());
    assert_eq!(c.settings.bind_address, "127.0.0.1");
    assert_eq!(c.settings.port, 8787);
    assert_eq!(c.settings.request_timeout_seconds, 120);
    assert_eq!(c.settings.max_body_mb, 20);
    assert!(c.settings.restart_codex_on_change);
    assert!(!c.settings.start_on_launch);
    let s = Settings::default();
    assert_eq!(s.port, 8787);
    assert_eq!(default_context_window(), 1_050_000);
    assert_eq!(default_protocol(), Protocol::Responses);
    assert_eq!(default_bind(), "127.0.0.1");
    assert_eq!(default_port(), 8787);
    assert_eq!(default_timeout(), 120);
    assert_eq!(default_max_body(), 20);
    assert!(default_true());
}

#[test]
fn config_file_sits_in_the_data_directory() {
    assert_eq!(config_path("/data/onlycodex"), "/data/onlycodex/config.json");
    assert_eq!(config_path("/data/onlycodex/"), "/data/onlycodex/config.json");
    assert_eq!(config_path(""), "config.json");
}

#[test]
fn default_configuration_is_valid() {
    assert_eq!(validate(&AppConfig::default()), Ok(()));
}

#[test]
fn only_loopback_addresses_are_accepted() {
    let mut c = AppConfig::default();
    c.settings.bind_address = "::1".into();
    assert_eq!(validate(&c), Ok(()));
    c.settings.bind_address = "0.0.0.0".into();
    assert_eq!(validate(&c), Err("为保证安全，代理只能绑定 127.0.0.1 或 ::1".to_string()));
}

#[test]
fn port_zero_is_refused() {
    let mut c = AppConfig::default();
    c.settings.port = 0;
    assert_eq!(validate(&c), Err("端口必须在 1–65535 之间".to_string()));
}

#[test]
fn providers_need_a_name_and_an_http_url() {
    let mut c = AppConfig::default();
    c.providers.push(provider("p", "  \t", "https://x", vec![]));
    assert_eq!(validate(&c), Err("供应商名称和 Base URL 不能为空".to_string()));
    c.providers[0].name = "Local".into();
    c.providers[0].base_url = "ftp://x".into();
    assert_eq!(
        validate(&c),
        Err("Local 的 Base URL 必须以 http:// 或 https:// 开头".to_string())
    );
    c.providers[0].base_url = "http://127.0.0.1:11434/v1".into();
    assert_eq!(validate(&c), Ok(()));
}

#[test]
fn mappings_need_names_and_an_existing_provider() {
    let mut c = AppConfig::default();
    c.providers.push(provider("p", "P", "https://x", vec![]));
    c.mappings.push(Mapping {
        id: "m".into(),
        codex_model: "alias".into(),
        provider_id: "p".into(),
        upstream_model: " ".into(),
        enabled: true,
    });
    assert_eq!(validate(&c), Err("映射模型名称不能为空".to_string()));
    c.mappings[0].upstream_model = "qwen".into();
    c.mappings[0].provider_id = "missing".into();
    assert_eq!(validate(&c), Err("映射 alias 引用了不存在的供应商".to_string()));
    c.mappings[0].provider_id = "p".into();
    assert_eq!(validate(&c), Ok(()));
}
