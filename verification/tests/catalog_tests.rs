use onlycodex::catalog::{catalog_document, catalog_entries, update_model_catalog};
use onlycodex::config::{AppConfig, Mapping, ModelConfig, Protocol, Provider};

fn catalog_config() -> AppConfig {
    let mut config = AppConfig::default();
    config.providers.push(Provider {
        id: "p1".into(),
        name: "Local".into(),
        base_url: "http://127.0.0.1:11434/v1".into(),
        api_key: String::new(),
        protocol: Protocol::ChatCompletions,
        enabled: true,
        models: vec![
            ModelConfig { id: "qwen".into(), name: "Qwen".into(), enabled: true, context_window: 32_000 },
            ModelConfig {
                id: "llama".into(),
                name: "Llama".into(),
                enabled: true,
                context_window: 64_000,
            },
        ],
    });
    config.mappings.push(Mapping {
        id: "m1".into(),
        codex_model: "codex-alias".into(),
        provider_id: "p1".into(),
        upstream_model: "qwen".into(),
        enabled: true,
    });
    config
}

const TEMPLATE: &str = r#"{
  "etag": "built-in",
  "models": [
    {
      "slug": "gpt-5",
      "display_name": "GPT-5",
      "base_instructions": "You are Codex.",
      "context_window": 272000,
      "visibility": "hide"
    },
    {
      "slug": "codex-alias",
      "base_instructions": "Alias template.",
      "context_window": 1
    }
  ]
}"#;

#[test]
fn catalog_contains_only_mapped_model_names() {
    let config = catalog_config();
    let (text, count) = catalog_document(TEMPLATE, &config, "2024-01-01T00:00:00+00:00").unwrap();
    assert_eq!(count, 1);
    let catalog: serde_json::Value = serde_json::from_str(&text).unwrap();
    let models = catalog["models"].as_array().unwrap();
    assert_eq!(models.len(), 1);
    assert_eq!(models[0]["slug"], "codex-alias");
    assert!(models[0].get("base_instructions").is_some());
    assert_eq!(models[0]["context_window"], 32_000);
}

#[test]
fn catalog_entries_are_described_as_mapped_models() {
    let config = catalog_config();
    let (text, _) = catalog_document(TEMPLATE, &config, "2024-01-01T00:00:00+00:00").unwrap();
    let catalog: serde_json::Value = serde_json::from_str(&text).unwrap();
    let entry = &catalog["models"][0];
    assert_eq!(entry["display_name"], "Local:qwen");
    assert_eq!(entry["description"], "OnlyCodex mapped model");
    assert_eq!(entry["supported_in_api"], true);
    assert_eq!(entry["visibility"], "list");
    assert_eq!(entry["max_context_window"], 32_000);
    assert_eq!(entry["base_instructions"], "Alias template.");
    assert_eq!(catalog["etag"], "built-in");
    assert_eq!(catalog["fetched_at"], "2024-01-01T00:00:00+00:00");
}

#[test]
fn the_catalog_plan_picks_the_template_with_the_alias_slug() {
    let config = catalog_config();
    let slugs = vec![Some("gpt-5".to_string()), Some("codex-alias".to_string())];
    let models = update_model_catalog(&config, &slugs).unwrap();
    assert_eq!(models.len(), 1);
    assert_eq!(models[0].slug, "codex-alias");
    assert_eq!(models[0].display_name, "Local:qwen");
    assert_eq!(models[0].context_window, 32_000);
    assert_eq!(models[0].template, 1);
}

#[test]
fn a_broken_template_is_reported() {
    let config = catalog_config();
    assert!(catalog_document("{", &config, "t").unwrap_err().starts_with("内置模型目录损坏: "));
    assert_eq!(catalog_document("{}", &config, "t").unwrap_err(), "内置模型目录缺少 models");
    assert_eq!(
        catalog_document("{\"models\": {}}", &config, "t").unwrap_err(),
        "内置模型目录缺少 models"
    );
    assert_eq!(catalog_document("{\"models\": []}", &config, "t").unwrap_err(), "内置模型目录为空");
}

#[test]
fn an_unknown_alias_starts_from_the_first_template_model() {
    let config = catalog_config();
    let slugs = vec![Some("gpt-5".to_string()), None];
    let models = update_model_catalog(&config, &slugs).unwrap();
    assert_eq!(models[0].template, 0);
}

#[test]
fn an_empty_template_is_refused() {
    assert_eq!(
        update_model_catalog(&catalog_config(), &Vec::new()).unwrap_err(),
        "内置模型目录为空"
    );
}

#[test]
fn aliases_are_sorted_and_the_last_mapping_wins() {
    let mut config = catalog_config();
    config.mappings.push(Mapping {
        id: "m2".into(),
        codex_model: "alpha".into(),
        provider_id: "p1".into(),
        upstream_model: "unknown".into(),
        enabled: true,
    });
    config.mappings.push(Mapping {
        id: "m3".into(),
        codex_model: "codex-alias".into(),
        provider_id: "p1".into(),
        upstream_model: "llama".into(),
        enabled: true,
    });
    config.mappings.push(Mapping {
        id: "m4".into(),
        codex_model: "disabled".into(),
        provider_id: "p1".into(),
        upstream_model: "llama".into(),
        enabled: false,
    });
    let entries = catalog_entries(&config);
    let slugs: Vec<&str> = entries.iter().map(|(s, _)| s.as_str()).collect();
    assert_eq!(slugs, vec!["alpha", "codex-alias"]);
    assert_eq!(entries[0].1.context_window, 1_050_000);
    assert_eq!(entries[1].1.display_name, "Local:llama");
    assert_eq!(entries[1].1.context_window, 64_000);
}

#[test]
fn aliases_of_disabled_providers_are_not_advertised() {
    let mut config = catalog_config();
    config.providers[0].enabled = false;
    assert!(catalog_entries(&config).is_empty());
}

#[test]
fn the_catalog_lists_exactly_the_routed_aliases() {
    let mut config = catalog_config();
    config.mappings.push(Mapping {
        id: "m2".into(),
        codex_model: "beta".into(),
        provider_id: "p1".into(),
        upstream_model: "llama".into(),
        enabled: true,
    });
    config.mappings.push(Mapping {
        id: "m3".into(),
        codex_model: "gamma".into(),
        provider_id: "nobody".into(),
        upstream_model: "llama".into(),
        enabled: true,
    });
    let catalog: Vec<String> = catalog_entries(&config).into_iter().map(|(s, _)| s).collect();
    let routes: Vec<String> =
        onlycodex::sidecar::proxy_config(&config).mappings.into_iter().map(|(s, _)| s).collect();
    assert_eq!(catalog, routes);
    assert_eq!(catalog, vec!["beta".to_string(), "codex-alias".to_string()]);
}
