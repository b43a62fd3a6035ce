//! The application's configuration: providers, their models, the mappings
//! that route Codex model names to them, and the proxy settings.
use crate::text::{
    blank, has_prefix, is_blank, join_path, join_spec, owned, same_text, starts_with,
};
use vstd::prelude::*;
use vstd::string::*;

verus! {

/// The context window given to a model whose size nothing else states.
pub const DEFAULT_CONTEXT_WINDOW: u64 = 1050000;

/// The default that older releases wrote for every model.
pub const LEGACY_DEFAULT_CONTEXT_WINDOW: u64 = 128000;

/// The wire protocol that a provider speaks.
#[derive(PartialEq, Eq, Structural, Clone, Copy, Debug)]
pub enum Protocol {
    ChatCompletions,
    Responses,
}

#[derive(Debug)]
pub struct ModelConfig {
    pub id: String,
    pub name: String,
    pub enabled: bool,
    pub context_window: u64,
}

#[derive(Debug)]
pub struct Provider {
    pub id: String,
    pub name: String,
    pub base_url: String,
    pub api_key: String,
    pub protocol: Protocol,
    pub enabled: bool,
    pub models: Vec<ModelConfig>,
}

#[derive(Debug)]
pub struct Mapping {
    pub id: String,
    pub codex_model: String,
    pub provider_id: String,
    pub upstream_model: String,
    pub enabled: bool,
}

#[derive(Debug)]
pub struct Settings {
    pub bind_address: String,
    pub port: u16,
    pub request_timeout_seconds: u64,
    pub max_body_mb: usize,
    pub restart_codex_on_change: bool,
    pub start_on_launch: bool,
}

#[derive(Debug)]
pub struct AppConfig {
    pub providers: Vec<Provider>,
    pub mappings: Vec<Mapping>,
    pub settings: Settings,
}

impl Clone for ModelConfig {
    fn clone(&self) -> (r: Self)
        ensures
            r == *self,
    {
        ModelConfig {
            id: self.id.clone(),
            name: self.name.clone(),
            enabled: self.enabled,
            context_window: self.context_window,
        }
    }
}

/// A copy of `models`, element by element.
pub fn clone_models(models: &Vec<ModelConfig>) -> (r: Vec<ModelConfig>)
    ensures
        r@ == models@,
{
    let mut out: Vec<ModelConfig> = Vec::new();
    for i in 0..models.len()
        invariant
            out@ == models@.take(i as int),
    {
        out.push(models[i].clone());
        assert(out@ =~= models@.take(i + 1));
    }
    assert(models@.take(models.len() as int) =~= models@);
    out
}

impl Clone for Provider {
    fn clone(&self) -> (r: Self)
        ensures
            r.id == self.id,
            r.name == self.name,
            r.base_url == self.base_url,
            r.api_key == self.api_key,
            r.protocol == self.protocol,
            r.enabled == self.enabled,
            r.models@ == self.models@,
    {
        Provider {
            id: self.id.clone(),
            name: self.name.clone(),
            base_url: self.base_url.clone(),
            api_key: self.api_key.clone(),
            protocol: self.protocol,
            enabled: self.enabled,
            models: clone_models(&self.models),
        }
    }
}

impl Clone for Mapping {
    fn clone(&self) -> (r: Self)
        ensures
            r == *self,
    {
        Mapping {
            id: self.id.clone(),
            codex_model: self.codex_model.clone(),
            provider_id: self.provider_id.clone(),
            upstream_model: self.upstream_model.clone(),
            enabled: self.enabled,
        }
    }
}

impl Clone for Settings {
    fn clone(&self) -> (r: Self)
        ensures
            r == *self,
    {
        Settings {
            bind_address: self.bind_address.clone(),
            port: self.port,
            request_timeout_seconds: self.request_timeout_seconds,
            max_body_mb: self.max_body_mb,
            restart_codex_on_change: self.restart_codex_on_change,
            start_on_launch: self.start_on_launch,
        }
    }
}

pub fn default_context_window() -> (r: u64)
    ensures
        r == DEFAULT_CONTEXT_WINDOW,
{
    DEFAULT_CONTEXT_WINDOW
}

pub fn default_protocol() -> (r: Protocol)
    ensures
        r == Protocol::Responses,
{
    Protocol::Responses
}

pub fn default_bind() -> (r: String)
    ensures
        r@ == "127.0.0.1"@,
{
    owned("127.0.0.1")
}

pub fn default_port() -> (r: u16)
    ensures
        r == 8787,
{
    8787
}

pub fn default_timeout() -> (r: u64)
    ensures
        r == 120,
{
    120
}

pub fn default_max_body() -> (r: usize)
    ensures
        r == 20,
{
    20
}

pub fn default_true() -> (r: bool)
    ensures
        r,
{
    true
}

/// The settings a fresh installation starts with.
pub open spec fn is_default_settings(s: Settings) -> bool {
    &&& s.bind_address@ == "127.0.0.1"@
    &&& s.port == 8787
    &&& s.request_timeout_seconds == 120
    &&& s.max_body_mb == 20
    &&& s.restart_codex_on_change
    &&& !s.start_on_launch
}

impl Default for Settings {
    fn default() -> (r: Self)
        ensures
            is_default_settings(r),
    {
        Settings {
            bind_address: default_bind(),
            port: default_port(),
            request_timeout_seconds: default_timeout(),
            max_body_mb: default_max_body(),
            restart_codex_on_change: true,
            start_on_launch: false,
        }
    }
}

impl Default for AppConfig {
    fn default() -> (r: Self)
        ensures
            r.providers@.len() == 0,
            r.mappings@.len() == 0,
            is_default_settings(r.settings),
    {
        AppConfig { providers: Vec::new(), mappings: Vec::new(), settings: Settings::default() }
    }
}

/// `app_data.join("config.json")`.
pub fn config_path(app_data: &str) -> (r: String)
    ensures
        r@ == join_spec(app_data@, "config.json"@),
{
    join_path(app_data, "config.json")
}

// ---------------------------------------------------------------------------
// Context-window migration
pub open spec fn migrated_window(w: u64) -> u64 {
    if w == LEGACY_DEFAULT_CONTEXT_WINDOW {
        DEFAULT_CONTEXT_WINDOW
    } else {
        w
    }
}

/// `new` is `old` with its context window migrated and nothing else changed.
pub open spec fn model_migrated(new: ModelConfig, old: ModelConfig) -> bool {
    &&& new.id == old.id
    &&& new.name == old.name
    &&& new.enabled == old.enabled
    &&& new.context_window == migrated_window(old.context_window)
}

pub open spec fn provider_migrated(new: Provider, old: Provider) -> bool {
    &&& new.id == old.id
    &&& new.name == old.name
    &&& new.base_url == old.base_url
    &&& new.api_key == old.api_key
    &&& new.protocol == old.protocol
    &&& new.enabled == old.enabled
    &&& new.models@.len() == old.models@.len()
    &&& forall|j: int|
        0 <= j < old.models@.len() ==> #[trigger] model_migrated(new.models@[j], old.models@[j])
}

/// `new` is `old` with every legacy context window replaced by the new default.
pub open spec fn config_migrated(new: AppConfig, old: AppConfig) -> bool {
    &&& new.settings == old.settings
    &&& new.mappings@ == old.mappings@
    &&& new.providers@.len() == old.providers@.len()
    &&& forall|i: int|
        0 <= i < old.providers@.len() ==> #[trigger] provider_migrated(
            new.providers@[i],
            old.providers@[i],
        )
}

pub open spec fn provider_has_legacy_window(p: Provider) -> bool {
    exists|j: int|
        0 <= j < p.models@.len() && #[trigger] p.models@[j].context_window
            == LEGACY_DEFAULT_CONTEXT_WINDOW
}

/// Some model of some provider still carries the legacy default.
pub open spec fn has_legacy_window(c: AppConfig) -> bool {
    exists|i: int|
        0 <= i < c.providers@.len() && #[trigger] provider_has_legacy_window(c.providers@[i])
}

fn migrate_provider(p: &Provider) -> (r: (Provider, bool))
    ensures
        provider_migrated(r.0, *p),
        r.1 == provider_has_legacy_window(*p),
{
    let mut models: Vec<ModelConfig> = Vec::new();
    let mut changed = false;
    for j in 0..p.models.len()
        invariant
            models@.len() == j,
            forall|k: int| 0 <= k < j ==> #[trigger] model_migrated(models@[k], p.models@[k]),
            changed == exists|k: int|
                0 <= k < j && #[trigger] p.models@[k].context_window
                    == LEGACY_DEFAULT_CONTEXT_WINDOW,
    {
        let m = &p.models[j];
        let window = if m.context_window == LEGACY_DEFAULT_CONTEXT_WINDOW {
            changed = true;
            DEFAULT_CONTEXT_WINDOW
        } else {
            m.context_window
        };
        models.push(
            ModelConfig {
                id: m.id.clone(),
                name: m.name.clone(),
                enabled: m.enabled,
                context_window: window,
            },
        );
        assert(model_migrated(models@[j as int], p.models@[j as int]));
    }
    let q = Provider {
        id: p.id.clone(),
        name: p.name.clone(),
        base_url: p.base_url.clone(),
        api_key: p.api_key.clone(),
        protocol: p.protocol,
        enabled: p.enabled,
        models,
    };
    (q, changed)
}

/// Upgrade values written by older releases while preserving user-selected values.
pub fn normalize_context_windows(config: &mut AppConfig) -> (changed: bool)
    ensures
        config_migrated(*final(config), *old(config)),
        changed == has_legacy_window(*old(config)),
{
    let mut providers: Vec<Provider> = Vec::new();
    let mut changed = false;
    let n = config.providers.len();
    for i in 0..n
        invariant
            n == config.providers@.len(),
            providers@.len() == i,
            forall|k: int|
                0 <= k < i ==> #[trigger] provider_migrated(providers@[k], config.providers@[k]),
            changed == exists|k: int|
                0 <= k < i && #[trigger] provider_has_legacy_window(config.providers@[k]),
    {
        let (p, c) = migrate_provider(&config.providers[i]);
        providers.push(p);
        if c {
            changed = true;
        }
        assert(provider_migrated(providers@[i as int], config.providers@[i as int]));
    }
    config.providers = providers;
    changed
}

/// Migration leaves no legacy window behind, and migrating twice changes
/// nothing more than migrating once: a second run reports no change and
/// yields the same configuration.
pub proof fn lemma_normalize_idempotent(a: AppConfig, b: AppConfig, c: AppConfig)
    requires
        config_migrated(b, a),
        config_migrated(c, b),
    ensures
        !has_legacy_window(b),
        c.settings == b.settings,
        c.mappings@ == b.mappings@,
        c.providers@.len() == b.providers@.len(),
        forall|i: int, j: int|
            0 <= i < b.providers@.len() && 0 <= j < b.providers@[i].models@.len() ==> {
                let x = #[trigger] c.providers@[i].models@[j];
                let y = b.providers@[i].models@[j];
                x.id == y.id && x.name == y.name && x.enabled == y.enabled && x.context_window
                    == y.context_window
            },
{
    assert forall|i: int| 0 <= i < b.providers@.len() implies !provider_has_legacy_window(
        #[trigger] b.providers@[i],
    ) by {
        assert(provider_migrated(b.providers@[i], a.providers@[i]));
        assert forall|j: int| 0 <= j < b.providers@[i].models@.len() implies #[trigger] b.providers@[
            i
        ].models@[j].context_window != LEGACY_DEFAULT_CONTEXT_WINDOW by {
            assert(model_migrated(b.providers@[i].models@[j], a.providers@[i].models@[j]));
        }
    }
    assert forall|i: int, j: int|
        0 <= i < b.providers@.len() && 0 <= j < b.providers@[i].models@.len() implies {
        let x = #[trigger] c.providers@[i].models@[j];
        let y = b.providers@[i].models@[j];
        x.id == y.id && x.name == y.name && x.enabled == y.enabled && x.context_window
            == y.context_window
    } by {
        assert(provider_migrated(c.providers@[i], b.providers@[i]));
        assert(provider_migrated(b.providers@[i], a.providers@[i]));
        assert(model_migrated(c.providers@[i].models@[j], b.providers@[i].models@[j]));
        assert(model_migrated(b.providers@[i].models@[j], a.providers@[i].models@[j]));
    }
}

// ---------------------------------------------------------------------------
// Routing
/// Some provider with this id is enabled.
pub open spec fn enabled_provider_with_id(c: AppConfig, id: Seq<char>) -> bool {
    exists|k: int|
        0 <= k < c.providers@.len() && #[trigger] c.providers@[k].id@ == id
            && c.providers@[k].enabled
}

/// A mapping that the proxy serves: enabled, and pointing at an enabled provider.
pub open spec fn routable(c: AppConfig, m: Mapping) -> bool {
    m.enabled && enabled_provider_with_id(c, m.provider_id@)
}

/// Whether some provider with id `id` is enabled.
pub fn has_enabled_provider(config: &AppConfig, id: &str) -> (r: bool)
    ensures
        r == enabled_provider_with_id(*config, id@),
{
    let n = config.providers.len();
    for k in 0..n
        invariant
            n == config.providers@.len(),
            forall|q: int|
                0 <= q < k ==> !(#[trigger] config.providers@[q].id@ == id@
                    && config.providers@[q].enabled),
    {
        let p = &config.providers[k];
        if p.enabled && same_text(p.id.as_str(), id) {
            return true;
        }
    }
    false
}

/// Whether the proxy serves `m` under `config`.
pub fn is_routable(config: &AppConfig, m: &Mapping) -> (r: bool)
    ensures
        r == routable(*config, *m),
{
    m.enabled && has_enabled_provider(config, m.provider_id.as_str())
}

pub open spec fn has_routable_mapping_spec(c: AppConfig) -> bool {
    exists|i: int| 0 <= i < c.mappings@.len() && routable(c, #[trigger] c.mappings@[i])
}

/// Whether at least one mapping points at an enabled provider.
pub fn has_routable_mapping(config: &AppConfig) -> (r: bool)
    ensures
        r == has_routable_mapping_spec(*config),
{
    let n = config.mappings.len();
    for i in 0..n
        invariant
            n == config.mappings@.len(),
            forall|q: int| 0 <= q < i ==> !routable(*config, #[trigger] config.mappings@[q]),
    {
        if is_routable(config, &config.mappings[i]) {
            return true;
        }
    }
    false
}

// ---------------------------------------------------------------------------
// Validation
pub open spec fn bind_error() -> Seq<char> {
    "为保证安全，代理只能绑定 127.0.0.1 或 ::1"@
}

/// The proxy listens on a loopback address only.
pub open spec fn loopback_bind(s: Settings) -> bool {
    s.bind_address@ == "127.0.0.1"@ || s.bind_address@ == "::1"@
}

/// Whether the settings bind the proxy to a loopback address.
pub fn is_loopback_bind(settings: &Settings) -> (r: bool)
    ensures
        r == loopback_bind(*settings),
{
    let bind = settings.bind_address.as_str();
    same_text(bind, "127.0.0.1") || same_text(bind, "::1")
}

pub open spec fn port_error() -> Seq<char> {
    "端口必须在 1–65535 之间"@
}

pub open spec fn provider_blank_error() -> Seq<char> {
    "供应商名称和 Base URL 不能为空"@
}

pub open spec fn provider_scheme_error(name: Seq<char>) -> Seq<char> {
    name + " 的 Base URL 必须以 http:// 或 https:// 开头"@
}

pub open spec fn mapping_blank_error() -> Seq<char> {
    "映射模型名称不能为空"@
}

pub open spec fn mapping_provider_error(codex_model: Seq<char>) -> Seq<char> {
    "映射 "@ + codex_model + " 引用了不存在的供应商"@
}

/// The first complaint about providers from index `i` on.
pub open spec fn provider_error_from(ps: Seq<Provider>, i: int) -> Option<Seq<char>>
    decreases ps.len() - i,
{
    if i < 0 || i >= ps.len() {
        None
    } else {
        let p = ps[i];
        if is_blank(p.name@) || is_blank(p.base_url@) {
            Some(provider_blank_error())
        } else if !has_prefix(p.base_url@, "http://"@) && !has_prefix(p.base_url@, "https://"@) {
            Some(provider_scheme_error(p.name@))
        } else {
            provider_error_from(ps, i + 1)
        }
    }
}

pub open spec fn provider_with_id(c: AppConfig, id: Seq<char>) -> bool {
    exists|k: int| 0 <= k < c.providers@.len() && #[trigger] c.providers@[k].id@ == id
}

/// The first complaint about mappings from index `i` on.
pub open spec fn mapping_error_from(c: AppConfig, i: int) -> Option<Seq<char>>
    decreases c.mappings@.len() - i,
{
    if i < 0 || i >= c.mappings@.len() {
        None
    } else {
        let m = c.mappings@[i];
        if is_blank(m.codex_model@) || is_blank(m.upstream_model@) {
            Some(mapping_blank_error())
        } else if !provider_with_id(c, m.provider_id@) {
            Some(mapping_provider_error(m.codex_model@))
        } else {
            mapping_error_from(c, i + 1)
        }
    }
}

/// The message with which saving `c` is refused, if it is.
pub open spec fn validation_error(c: AppConfig) -> Option<Seq<char>> {
    if !loopback_bind(c.settings) {
        Some(bind_error())
    } else if c.settings.port == 0 {
        Some(port_error())
    } else {
        match provider_error_from(c.providers@, 0) {
            Some(e) => Some(e),
            None => mapping_error_from(c, 0),
        }
    }
}

/// Provider `p` has a name and a base URL, and the URL is http(s).
pub open spec fn provider_acceptable(p: Provider) -> bool {
    &&& !is_blank(p.name@)
    &&& !is_blank(p.base_url@)
    &&& (has_prefix(p.base_url@, "http://"@) || has_prefix(p.base_url@, "https://"@))
}

proof fn lemma_provider_errors(ps: Seq<Provider>, i: int)
    requires
        0 <= i,
    ensures
        provider_error_from(ps, i) is None <==> forall|k: int|
            i <= k < ps.len() ==> provider_acceptable(#[trigger] ps[k]),
    decreases ps.len() - i,
{
    if i < ps.len() {
        lemma_provider_errors(ps, i + 1);
        if provider_error_from(ps, i) is None {
            assert forall|k: int| i <= k < ps.len() implies provider_acceptable(#[trigger] ps[k]) by {
                if k > i {
                    assert(i + 1 <= k);
                }
            }
        } else {
            if !provider_acceptable(ps[i]) {
            } else {
                let k = choose|k: int| i + 1 <= k < ps.len() && !provider_acceptable(#[trigger] ps[k]);
            }
        }
    }
}

proof fn lemma_mapping_errors(c: AppConfig, i: int)
    requires
        0 <= i,
    ensures
        mapping_error_from(c, i) is None <==> forall|j: int|
            i <= j < c.mappings@.len() ==> {
                let m = #[trigger] c.mappings@[j];
                &&& !is_blank(m.codex_model@)
                &&& !is_blank(m.upstream_model@)
                &&& exists|k: int| 0 <= k < c.providers@.len() && c.providers@[k].id@ == m.provider_id@
            },
    decreases c.mappings@.len() - i,
{
    if i < c.mappings@.len() {
        lemma_mapping_errors(c, i + 1);
        let m = c.mappings@[i];
        assert(provider_with_id(c, m.provider_id@) <==> exists|k: int|
            0 <= k < c.providers@.len() && c.providers@[k].id@ == m.provider_id@);
        if mapping_error_from(c, i) is None {
            assert forall|j: int| i <= j < c.mappings@.len() implies {
                let m = #[trigger] c.mappings@[j];
                &&& !is_blank(m.codex_model@)
                &&& !is_blank(m.upstream_model@)
                &&& exists|k: int| 0 <= k < c.providers@.len() && c.providers@[k].id@ == m.provider_id@
            } by {
                if j > i {
                    assert(i + 1 <= j);
                } else {
                    let k = choose|k: int| 0 <= k < c.providers@.len() && #[trigger] c.providers@[k].id@ == m.provider_id@;
                    assert(0 <= k < c.providers@.len() && c.providers@[k].id@ == m.provider_id@);
                }
            }
        } else {
            let ok = !is_blank(m.codex_model@) && !is_blank(m.upstream_model@) && provider_with_id(c, m.provider_id@);
            if ok {
                let j = choose|j: int| i + 1 <= j < c.mappings@.len() && !({
                    let m = #[trigger] c.mappings@[j];
                    &&& !is_blank(m.codex_model@)
                    &&& !is_blank(m.upstream_model@)
                    &&& exists|k: int| 0 <= k < c.providers@.len() && c.providers@[k].id@ == m.provider_id@
                });
            } else if provider_with_id(c, m.provider_id@) {
            } else {
                assert(!(exists|k: int| 0 <= k < c.providers@.len() && c.providers@[k].id@ == m.provider_id@));
            }
        }
    }
}

/// Saving accepts exactly the configurations that bind the proxy to
/// `127.0.0.1` or `::1` on a nonzero port, whose providers all have a name
/// and an http(s) base URL, and whose mappings all have both model names and
/// name the id of some provider in the list. Whether that provider is
/// enabled plays no part: a disabled provider keeps its mappings valid.
pub proof fn lemma_validation_accepts_exactly_the_rules(c: AppConfig)
    ensures
        validation_error(c) is None <==> {
            &&& (c.settings.bind_address@ == "127.0.0.1"@ || c.settings.bind_address@ == "::1"@)
            &&& c.settings.port != 0
            &&& forall|k: int| 0 <= k < c.providers@.len() ==> {
                let p = #[trigger] c.providers@[k];
                &&& !is_blank(p.name@)
                &&& !is_blank(p.base_url@)
                &&& (has_prefix(p.base_url@, "http://"@) || has_prefix(p.base_url@, "https://"@))
            }
            &&& forall|j: int| 0 <= j < c.mappings@.len() ==> {
                let m = #[trigger] c.mappings@[j];
                &&& !is_blank(m.codex_model@)
                &&& !is_blank(m.upstream_model@)
                &&& exists|k: int| 0 <= k < c.providers@.len() && c.providers@[k].id@ == m.provider_id@
            }
        },
{
    lemma_provider_errors(c.providers@, 0);
    lemma_mapping_errors(c, 0);
}

fn has_provider(config: &AppConfig, id: &str) -> (r: bool)
    ensures
        r == provider_with_id(*config, id@),
{
    let n = config.providers.len();
    for k in 0..n
        invariant
            n == config.providers@.len(),
            forall|q: int| 0 <= q < k ==> #[trigger] config.providers@[q].id@ != id@,
    {
        if same_text(config.providers[k].id.as_str(), id) {
            return true;
        }
    }
    false
}

/// Checks the rules that a configuration must meet before it is saved.
pub fn validate(config: &AppConfig) -> (r: Result<(), String>)
    ensures
        r is Ok <==> validation_error(*config) is None,
        r matches Err(e) ==> validation_error(*config) == Some(e@),
{
    if !is_loopback_bind(&config.settings) {
        return Err(owned("为保证安全，代理只能绑定 127.0.0.1 或 ::1"));
    }
    if config.settings.port == 0 {
        return Err(owned("端口必须在 1–65535 之间"));
    }
    let n = config.providers.len();
    for i in 0..n
        invariant
            n == config.providers@.len(),
            validation_error(*config) == match provider_error_from(config.providers@, i as int) {
                Some(e) => Some(e),
                None => mapping_error_from(*config, 0),
            },
    {
        let p = &config.providers[i];
        if blank(p.name.as_str()) || blank(p.base_url.as_str()) {
            return Err(owned("供应商名称和 Base URL 不能为空"));
        }
        if !starts_with(p.base_url.as_str(), "http://") && !starts_with(
            p.base_url.as_str(),
            "https://",
        ) {
            let mut msg = p.name.clone();
            msg.append(" 的 Base URL 必须以 http:// 或 https:// 开头");
            return Err(msg);
        }
    }
    let m_count = config.mappings.len();
    for i in 0..m_count
        invariant
            m_count == config.mappings@.len(),
            n == config.providers@.len(),
            validation_error(*config) == mapping_error_from(*config, i as int),
    {
        let m = &config.mappings[i];
        if blank(m.codex_model.as_str()) || blank(m.upstream_model.as_str()) {
            return Err(owned("映射模型名称不能为空"));
        }
        if !has_provider(config, m.provider_id.as_str()) {
            let mut msg = owned("映射 ");
            msg.append(m.codex_model.as_str());
            msg.append(" 引用了不存在的供应商");
            return Err(msg);
        }
    }
    Ok(())
}

} // verus!
