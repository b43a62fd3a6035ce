use onlycodex::codex::{
    app_bundle_path, app_server_wrapper, backup, bundle_launch_result, choose_model,
    codex_backup_path, default_config_path, home_dir, inject, inject_document, is_injected,
    launch_args, launch_attempt_error, macos_codex_apps, model_catalog_path, quit_step, restore,
    CodexFiles, OpenOutcome, QuitStep, APP_SERVER_WRAPPER_JS, APP_SERVER_WRAPPER_SH,
};
use onlycodex::config::{AppConfig, Mapping, ModelConfig, Protocol, Provider};

const ORIGINAL: &str = "model = \"old-model\"\n\n[projects.\"/tmp\"]\ntrust_level = \"trusted\"\n\n[features]\napps = true\n";

fn text(bytes: &Option<Vec<u8>>) -> String {
    String::from_utf8(bytes.clone().unwrap()).unwrap()
}

#[test]
fn injection_and_restore_are_lossless() {
    let mut files = CodexFiles { config: Some(ORIGINAL.as_bytes().to_vec()), backup: None };
    inject(&mut files, &AppConfig::default()).unwrap();
    assert!(is_injected(&files.config));
    let injected = text(&files.config);
    assert!(injected.contains("model_catalog_json"));
    assert!(injected.contains("requires_openai_auth = true"));
    assert!(!injected.contains("experimental_bearer_token"));
    assert!(injected.contains("trust_level = \"trusted\""));
    assert!(injected.contains("apps = true"));
    assert_eq!(text(&files.backup), ORIGINAL);
    restore(&mut files).unwrap();
    assert_eq!(text(&files.config), ORIGINAL);
    assert_eq!(files.backup, None);
}

#[test]
fn injection_points_codex_at_the_proxy() {
    let mut files = CodexFiles { config: Some(ORIGINAL.as_bytes().to_vec()), backup: None };
    inject(&mut files, &AppConfig::default()).unwrap();
    let injected = text(&files.config);
    assert!(injected.contains("model_provider = \"opencodex_proxy\""));
    assert!(injected.contains("[model_providers.opencodex_proxy]"));
    assert!(injected.contains("base_url = \"http://127.0.0.1:8787/v1\""));
    assert!(injected.contains("wire_api = \"responses\""));
    assert!(injected.contains("model = \"old-model\""));
}

fn routed_config() -> AppConfig {
    let mut config = AppConfig::default();
    config.providers.push(Provider {
        id: "p1".into(),
        name: "Local".into(),
        base_url: "http://127.0.0.1:11434/v1".into(),
        api_key: String::new(),
        protocol: Protocol::ChatCompletions,
        enabled: true,
        models: vec![ModelConfig {
            id: "qwen".into(),
            name: "Qwen".into(),
            enabled: true,
            context_window: 32_000,
        }],
    });
    config
}

#[test]
fn injection_selects_the_first_routed_alias() {
    let mut config = routed_config();
    config.mappings.push(Mapping {
        id: "m1".into(),
        codex_model: "codex-alias".into(),
        provider_id: "p1".into(),
        upstream_model: "qwen".into(),
        enabled: true,
    });
    let mut files = CodexFiles { config: Some(ORIGINAL.as_bytes().to_vec()), backup: None };
    inject(&mut files, &config).unwrap();
    assert!(text(&files.config).contains("model = \"codex-alias\""));
}

#[test]
fn without_an_alias_an_unknown_model_is_replaced_by_a_listed_one() {
    let config = routed_config();
    assert_eq!(choose_model(&config, &Some("old-model".into())), Some("qwen".to_string()));
    assert_eq!(choose_model(&config, &None), Some("qwen".to_string()));
    assert_eq!(choose_model(&config, &Some("qwen".into())), None);
    assert_eq!(choose_model(&AppConfig::default(), &Some("x".into())), None);
}

#[test]
fn a_missing_configuration_is_backed_up_as_empty() {
    let mut files = CodexFiles { config: None, backup: None };
    inject(&mut files, &AppConfig::default()).unwrap();
    assert_eq!(files.backup, Some(Vec::new()));
    assert!(is_injected(&files.config));
    restore(&mut files).unwrap();
    assert_eq!(files.config, Some(Vec::new()));
}

#[test]
fn reinjection_keeps_the_first_backup() {
    let mut files = CodexFiles { config: Some(ORIGINAL.as_bytes().to_vec()), backup: None };
    inject(&mut files, &AppConfig::default()).unwrap();
    let first_backup = files.backup.clone();
    inject(&mut files, &AppConfig::default()).unwrap();
    assert_eq!(files.backup, first_backup);
    restore(&mut files).unwrap();
    assert_eq!(text(&files.config), ORIGINAL);
}

#[test]
fn unparsable_configuration_is_left_untouched() {
    let broken = b"model = [unclosed\n".to_vec();
    let mut files = CodexFiles { config: Some(broken.clone()), backup: None };
    let err = inject(&mut files, &AppConfig::default()).unwrap_err();
    assert!(err.starts_with("现有 Codex config.toml 无法解析，未做修改: "));
    assert_eq!(files.config, Some(broken.clone()));
    assert_eq!(files.backup, Some(broken));
}

#[test]
fn a_non_table_provider_list_is_refused() {
    let odd = b"model_providers = \"none\"\n".to_vec();
    let mut files = CodexFiles { config: Some(odd.clone()), backup: None };
    let err = inject(&mut files, &AppConfig::default()).unwrap_err();
    assert_eq!(err, "现有 Codex config.toml 的 model_providers 不是表，未做修改");
    assert_eq!(files.config, Some(odd));
}

#[test]
fn an_inline_provider_table_is_refused() {
    let inline = "model_providers = { other = { name = \"x\" } }\n";
    assert_eq!(
        inject_document(inline, &AppConfig::default()).unwrap_err(),
        "现有 Codex config.toml 的 model_providers 不是表，未做修改"
    );
}

#[test]
fn a_configuration_that_is_not_utf8_is_left_untouched() {
    let bytes = vec![b'm', b'=', 0xff, 0xfe, b'\n'];
    let mut files = CodexFiles { config: Some(bytes.clone()), backup: None };
    let err = inject(&mut files, &AppConfig::default()).unwrap_err();
    assert_eq!(err, "现有 Codex config.toml 不是 UTF-8 文本，未做修改");
    assert_eq!(files.config, Some(bytes));
    assert_eq!(files.backup, None);
}

#[test]
fn other_model_providers_survive_the_injection() {
    let original = "[model_providers.other]\nname = \"Other\"\nbase_url = \"https://other/v1\"\n";
    let mut files = CodexFiles { config: Some(original.as_bytes().to_vec()), backup: None };
    inject(&mut files, &AppConfig::default()).unwrap();
    let injected = text(&files.config);
    assert!(injected.contains("[model_providers.other]"));
    assert!(injected.contains("base_url = \"https://other/v1\""));
    assert!(injected.contains("[model_providers.opencodex_proxy]"));
    assert!(injected.contains("name = \"OnlyCodex\""));
    assert!(injected.contains("requires_openai_auth = true"));
}

#[test]
fn injecting_twice_writes_the_same_file() {
    let mut files = CodexFiles { config: Some(ORIGINAL.as_bytes().to_vec()), backup: None };
    inject(&mut files, &routed_config()).unwrap();
    let once = files.config.clone();
    inject(&mut files, &routed_config()).unwrap();
    assert_eq!(files.config, once);
    assert_eq!(text(&files.backup), ORIGINAL);
}

#[test]
fn restore_without_backup_refuses_an_injected_configuration() {
    let mut files = CodexFiles { config: Some(ORIGINAL.as_bytes().to_vec()), backup: None };
    inject(&mut files, &AppConfig::default()).unwrap();
    files.backup = None;
    let before = files.config.clone();
    let err = restore(&mut files).unwrap_err();
    assert_eq!(err, "找不到安全备份，拒绝覆盖当前 Codex 配置");
    assert_eq!(files.config, before);
    let mut plain = CodexFiles { config: Some(ORIGINAL.as_bytes().to_vec()), backup: None };
    assert_eq!(restore(&mut plain), Ok(()));
    assert_eq!(text(&plain.config), ORIGINAL);
}

#[test]
fn backup_never_overwrites_an_existing_backup() {
    let mut files = CodexFiles { config: Some(b"a = 1\n".to_vec()), backup: Some(b"old".to_vec()) };
    backup(&mut files);
    assert_eq!(files.backup, Some(b"old".to_vec()));
    let mut fresh = CodexFiles { config: Some(b"a = 1\n".to_vec()), backup: None };
    backup(&mut fresh);
    assert_eq!(fresh.backup, Some(b"a = 1\n".to_vec()));
}

#[test]
fn is_injected_needs_a_parsable_proxy_provider() {
    assert!(!is_injected(&None));
    assert!(!is_injected(&Some(vec![0xff, 0xfe])));
    assert!(!is_injected(&Some(b"[model_providers.other]\nname = \"x\"\n".to_vec())));
    assert!(is_injected(&Some(b"[model_providers.opencodex_proxy]\nname = \"x\"\n".to_vec())));
    assert!(is_injected(&Some(b"model_providers = { opencodex_proxy = {} }\n".to_vec())));
}

#[test]
fn codex_paths_follow_the_home_directory() {
    assert_eq!(home_dir(Some("/home/u"), Some("C:/Users/u")), Ok("/home/u".to_string()));
    assert_eq!(home_dir(None, Some("C:/Users/u")), Ok("C:/Users/u".to_string()));
    assert_eq!(home_dir(None, None), Err("无法确定用户主目录".to_string()));
    assert_eq!(
        default_config_path(Some("/home/u"), None),
        Ok("/home/u/.codex/config.toml".to_string())
    );
    assert_eq!(
        model_catalog_path(Some("/home/u/"), None),
        Ok("/home/u/.codex/model-catalogs/opencodex.json".to_string())
    );
    assert!(model_catalog_path(None, None).is_err());
    assert_eq!(codex_backup_path("/data"), "/data/codex-config.backup.toml");
}

#[test]
fn app_server_wrapper_preserves_all_thread_providers() {
    let wrapper = app_server_wrapper("/data");
    assert_eq!(wrapper.launcher(), "/data/codex-app-server-wrapper.sh");
    assert_eq!(wrapper.script(), "/data/codex-app-server-wrapper.cjs");
    assert!(APP_SERVER_WRAPPER_JS.contains("message.method === \"thread/list\""));
    assert!(APP_SERVER_WRAPPER_JS.contains("modelProviders: []"));
    assert!(APP_SERVER_WRAPPER_JS.contains("child.kill(\"SIGKILL\")"));
    assert!(APP_SERVER_WRAPPER_SH.starts_with("#!/bin/sh"));
}

#[test]
fn launching_with_the_wrapper_sets_its_environment() {
    let wrapper = app_server_wrapper("/data");
    assert_eq!(macos_codex_apps(), vec!["ChatGPT", "Codex"]);
    let app = app_bundle_path("ChatGPT");
    assert_eq!(app, "/Applications/ChatGPT.app");
    assert_eq!(
        launch_args(&app, "ChatGPT", Some(&wrapper)),
        vec![
            "--env",
            "CODEX_CLI_PATH=/data/codex-app-server-wrapper.sh",
            "--env",
            "OPENCODEX_WRAPPER_JS_PATH=/data/codex-app-server-wrapper.cjs",
            "--env",
            "OPENCODEX_REAL_CODEX_PATH=/Applications/ChatGPT.app/Contents/Resources/codex",
            "--env",
            "OPENCODEX_NODE_PATH=/Applications/ChatGPT.app/Contents/Resources/cua_node/bin/node",
            "-a",
            "ChatGPT"
        ]
    );
    assert_eq!(launch_args(&app, "ChatGPT", None), vec!["-a", "ChatGPT"]);
}

#[test]
fn launch_failures_are_reported() {
    assert_eq!(launch_attempt_error("Codex", &OpenOutcome::Succeeded), None);
    assert_eq!(
        launch_attempt_error("Codex", &OpenOutcome::Failed("exit status: 1".into())),
        Some("Codex: open exit status: 1".to_string())
    );
    assert_eq!(bundle_launch_result(&OpenOutcome::Succeeded, false, ""), Ok(()));
    assert_eq!(
        bundle_launch_result(&OpenOutcome::Succeeded, true, "Codex: x"),
        Err("重启 Codex 失败：无法定位应用路径以安装历史记录兼容 wrapper；Codex: x".to_string())
    );
    assert_eq!(
        bundle_launch_result(&OpenOutcome::Failed("exit status: 1".into()), false, "e"),
        Err("重启 Codex 失败: open exit status: 1; e".to_string())
    );
    assert_eq!(
        bundle_launch_result(&OpenOutcome::NotRun("no open".into()), true, "e"),
        Err("重启 Codex 失败（已尝试 ChatGPT/Codex/bundle id）: e; no open".to_string())
    );
}

#[test]
fn quitting_waits_a_bounded_time() {
    assert_eq!(quit_step(0, false), QuitStep::SettleThenDone);
    assert_eq!(quit_step(0, true), QuitStep::Wait);
    assert_eq!(
        quit_step(49, true),
        QuitStep::GiveUp("Codex 未能正常退出；为保护登录状态和历史记录，已取消强制终止，请手动退出后重试".into())
    );
}

#[test]
fn many_injections_then_restore_give_back_the_original() {
    let mut files = CodexFiles { config: Some(ORIGINAL.as_bytes().to_vec()), backup: None };
    inject(&mut files, &AppConfig::default()).unwrap();
    inject(&mut files, &routed_config()).unwrap();
    let mut moved = AppConfig::default();
    moved.settings.port = 9000;
    inject(&mut files, &moved).unwrap();
    assert!(text(&files.config).contains("base_url = \"http://127.0.0.1:9000/v1\""));
    restore(&mut files).unwrap();
    assert_eq!(text(&files.config), ORIGINAL);
    assert_eq!(files.backup, None);
}
