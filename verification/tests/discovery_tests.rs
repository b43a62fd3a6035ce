use onlycodex::config::{AppConfig, Protocol, Provider};
use onlycodex::discovery::{
    discover_models, discovered_models, models_url, provider_ok_message, test_provider_request,
    JsonField, ModelEntry,
};

fn entry(text: Option<&str>, id: JsonField) -> ModelEntry {
    ModelEntry {
        text: text.map(|t| t.to_string()),
        id,
        name: JsonField::Missing,
        display_name: JsonField::Missing,
        context_length: JsonField::Missing,
        context_window: JsonField::Missing,
    }
}

#[test]
fn model_list_url_is_derived_from_the_base_url() {
    assert_eq!(models_url("https://api.example.com/v1"), "https://api.example.com/v1/models");
    assert_eq!(models_url("https://api.example.com/v1//"), "https://api.example.com/v1/models");
    assert_eq!(models_url("https://api.example.com/v1/models/"), "https://api.example.com/v1/models");
}

#[test]
fn provider_test_request_uses_its_key() {
    let mut config = AppConfig::default();
    config.providers.push(Provider {
        id: "p".into(),
        name: "P".into(),
        base_url: "https://x/v1/".into(),
        api_key: "sk".into(),
        protocol: Protocol::Responses,
        enabled: true,
        models: vec![],
    });
    let q = test_provider_request(&config, "p").unwrap();
    assert_eq!(q.url, "https://x/v1/models");
    assert_eq!(q.bearer, Some("sk".to_string()));
    assert_eq!(q.timeout_seconds, 120);
    assert_eq!(test_provider_request(&config, "zz").unwrap_err(), "供应商不存在");
    config.providers[0].api_key = String::new();
    assert_eq!(test_provider_request(&config, "p").unwrap().bearer, None);
}

#[test]
fn discovered_models_are_sorted_and_unique() {
    let mut a = entry(None, JsonField::Text("b-model".into()));
    a.display_name = JsonField::Text("B Model".into());
    a.context_length = JsonField::Count(8192);
    let mut dup = entry(None, JsonField::Text("b-model".into()));
    dup.display_name = JsonField::Text("Duplicate".into());
    let plain = entry(Some("a-model"), JsonField::Missing);
    let mut named = entry(None, JsonField::Other);
    named.name = JsonField::Text("c-model".into());
    named.context_window = JsonField::Count(4096);
    let skipped = entry(None, JsonField::Count(7));
    let models = discovered_models(&vec![a, dup, plain, named, skipped]);
    let ids: Vec<&str> = models.iter().map(|m| m.id.as_str()).collect();
    assert_eq!(ids, vec!["a-model", "b-model", "c-model"]);
    assert_eq!(models[0].name, "a-model");
    assert_eq!(models[0].context_window, 1_050_000);
    assert_eq!(models[1].name, "B Model");
    assert_eq!(models[1].context_window, 8192);
    assert_eq!(models[2].name, "c-model");
    assert_eq!(models[2].context_window, 4096);
    assert!(models.iter().all(|m| m.enabled));
}

#[test]
fn a_null_display_name_falls_back_to_the_id() {
    let mut e = entry(None, JsonField::Text("m".into()));
    e.display_name = JsonField::Other;
    e.name = JsonField::Text("ignored".into());
    let models = discovered_models(&vec![e]);
    assert_eq!(models[0].name, "m");
}

#[test]
fn the_data_array_comes_before_the_models_array() {
    let data = vec![entry(Some("x"), JsonField::Missing)];
    let other = vec![entry(Some("y"), JsonField::Missing)];
    assert_eq!(discover_models(Some(&data), Some(&other)).unwrap()[0].id, "x");
    assert_eq!(discover_models(None, Some(&other)).unwrap()[0].id, "y");
    assert_eq!(discover_models(None, None).unwrap_err(), "响应中没有 data 或 models 数组");
    assert_eq!(provider_ok_message("P", 3), "P 连接成功，发现 3 个模型");
}
