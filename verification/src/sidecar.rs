//! The proxy sidecar: how it is started, watched and configured.
use crate::config::{is_routable, routable, AppConfig, ModelConfig, Protocol, Provider, Settings};
use crate::json::{
    json_empty_object, json_from_items, json_from_text, json_nesting_limit, json_parse_view,
    json_pretty, json_set_member, json_value_view, json_views, nests_within, no_members, JsonNode,
};
use crate::keyed::{has_key, key_at, keys_sorted, lookup, upsert};
use crate::text::lemma_text_lt_total;
use serde_json::Value;
use crate::text::{
    contains, decimal, decimal_spec, has_char, has_infix, owned, trim, trim_spec,
};
use vstd::prelude::*;
use vstd::string::*;

verus! {

// ---------------------------------------------------------------------------
// Addresses and messages
/// `http://{bind}:{port}/health`, with an IPv6 address in brackets.
pub open spec fn health_url_spec(bind: Seq<char>, port: u16) -> Seq<char> {
    if bind.contains(':') {
        "http://["@ + bind + "]:"@ + decimal_spec(port as nat) + "/health"@
    } else {
        "http://"@ + bind + ":"@ + decimal_spec(port as nat) + "/health"@
    }
}

/// The URL at which the sidecar reports that it is up.
pub fn health_url(bind_address: &str, port: u16) -> (r: String)
    ensures
        r@ == health_url_spec(bind_address@, port),
{
    let digits = decimal(port as u64);
    if has_char(bind_address, ':') {
        let mut url = owned("http://[");
        url.append(bind_address);
        url.append("]:");
        url.append(digits.as_str());
        url.append("/health");
        url
    } else {
        let mut url = owned("http://");
        url.append(bind_address);
        url.append(":");
        url.append(digits.as_str());
        url.append("/health");
        url
    }
}

/// The refusal given when the proxy's address cannot be bound.
pub open spec fn port_unavailable_spec(bind: Seq<char>, port: u16, error: Seq<char>) -> Seq<char> {
    "无法启动代理："@ + bind + ":"@ + decimal_spec(port as nat) + " 端口不可用（"@ + error + "）"@
}

/// The message for an address that is taken, given the bind error's text.
pub fn port_unavailable_message(bind_address: &str, port: u16, error: &str) -> (r: String)
    ensures
        r@ == port_unavailable_spec(bind_address@, port, error@),
{
    let digits = decimal(port as u64);
    let mut msg = owned("无法启动代理：");
    msg.append(bind_address);
    msg.append(":");
    msg.append(digits.as_str());
    msg.append(" 端口不可用（");
    msg.append(error);
    msg.append("）");
    msg
}

// ---------------------------------------------------------------------------
// Start-up diagnostics
/// A line of the sidecar's error output that reports a failure.
pub open spec fn is_error_line(line: Seq<char>) -> bool {
    has_infix(line, "Error:"@) || has_infix(line, "ERROR"@) || has_infix(line, "OSError"@)
}

/// The last line before index `n` that reports a failure.
pub open spec fn last_error_line(lines: Seq<String>, n: int) -> Option<int>
    decreases n,
{
    if n <= 0 || n > lines.len() {
        None
    } else if is_error_line(lines[n - 1]@) {
        Some(n - 1)
    } else {
        last_error_line(lines, n - 1)
    }
}

/// What the sidecar said when it died: the last line reporting a failure,
/// else the last line, trimmed; nothing when that is blank or absent.
pub open spec fn startup_detail(lines: Seq<String>) -> Option<Seq<char>> {
    let source = match last_error_line(lines, lines.len() as int) {
        Some(i) => Some(i),
        None => if lines.len() > 0 {
            Some(lines.len() - 1)
        } else {
            None
        },
    };
    match source {
        Some(i) => if trim_spec(lines[i]@).len() > 0 {
            Some(trim_spec(lines[i]@))
        } else {
            None
        },
        None => None,
    }
}

proof fn lemma_last_error_line_in_range(lines: Seq<String>, n: int)
    ensures
        last_error_line(lines, n) matches Some(i) ==> 0 <= i < n && i < lines.len(),
    decreases n,
{
    if n > 0 && n <= lines.len() && !is_error_line(lines[n - 1]@) {
        lemma_last_error_line_in_range(lines, n - 1);
    }
}

fn last_error_index(lines: &Vec<String>) -> (r: Option<usize>)
    ensures
        r matches Some(i) ==> last_error_line(lines@, lines@.len() as int) == Some(i as int),
        r is None ==> last_error_line(lines@, lines@.len() as int) is None,
{
    let n = lines.len();
    let mut k = n;
    while k > 0
        invariant
            n == lines@.len(),
            k <= n,
            last_error_line(lines@, n as int) == last_error_line(lines@, k as int),
        decreases k,
    {
        let line = lines[k - 1].as_str();
        if contains(line, "Error:") || contains(line, "ERROR") || contains(line, "OSError") {
            return Some(k - 1);
        }
        k = k - 1;
    }
    None
}

/// The most telling of the last lines that the sidecar wrote before it exited.
pub fn startup_error_detail(lines: &Vec<String>) -> (r: Option<String>)
    ensures
        r matches Some(s) ==> startup_detail(lines@) == Some(s@),
        r is None ==> startup_detail(lines@) is None,
{
    let n = lines.len();
    let found = last_error_index(lines);
    proof {
        lemma_last_error_line_in_range(lines@, n as int);
    }
    let source = match found {
        Some(i) => Some(i),
        None => if n > 0 {
            Some(n - 1)
        } else {
            None
        },
    };
    match source {
        Some(i) => {
            let t = trim(lines[i].as_str());
            if t.as_str().unicode_len() > 0 {
                Some(t)
            } else {
                None
            }
        },
        None => None,
    }
}

/// How the sidecar's early exit is reported: its exit status and, where the
/// collected error output says anything, the most telling line of it.
pub open spec fn exit_message_spec(status: Seq<char>, lines: Option<Seq<String>>) -> Seq<char> {
    let detail = match lines {
        Some(ls) => startup_detail(ls),
        None => None,
    };
    match detail {
        Some(d) => "OnlyCodex sidecar 提前退出: "@ + status + "；"@ + d,
        None => "OnlyCodex sidecar 提前退出: "@ + status,
    }
}

/// The error for a sidecar that exited during start-up, given its exit
/// status as text and the last lines of its error output, if collected.
pub fn sidecar_exit_message(status: &str, lines: Option<&Vec<String>>) -> (r: String)
    ensures
        r@ == exit_message_spec(
            status@,
            match lines {
                Some(ls) => Some(ls@),
                None => None,
            },
        ),
{
    let detail = match lines {
        Some(ls) => startup_error_detail(ls),
        None => None,
    };
    let mut msg = owned("OnlyCodex sidecar 提前退出: ");
    msg.append(status);
    match detail {
        Some(d) => {
            msg.append("；");
            msg.append(d.as_str());
        },
        None => {},
    }
    msg
}

/// The most lines of error output that are kept for the start-up report.
pub const RECENT_LINES: usize = 8;

/// Appends `item`, first dropping the oldest entry where `v` is full.
pub fn push_bounded<T>(v: &mut Vec<T>, item: T, cap: usize)
    requires
        0 < cap,
        old(v)@.len() <= cap,
    ensures
        final(v)@ == if old(v)@.len() >= cap {
            old(v)@.drop_first().push(item)
        } else {
            old(v)@.push(item)
        },
        final(v)@.len() <= cap,
{
    if v.len() >= cap {
        v.remove(0);
        assert(v@ =~= old(v)@.drop_first());
    }
    v.push(item);
}

// ---------------------------------------------------------------------------
// Launch
/// The arguments handed to the sidecar after those that locate it.
pub open spec fn sidecar_args_spec(s: Settings, config_path: Seq<char>) -> Seq<Seq<char>> {
    seq![
        "--bind"@,
        s.bind_address@,
        "--port"@,
        decimal_spec(s.port as nat),
        "--timeout-sec"@,
        decimal_spec(s.request_timeout_seconds as nat),
        "--max-body-mb"@,
        decimal_spec(s.max_body_mb as nat),
        "--default-protocol"@,
        "responses"@,
        "--config"@,
        config_path,
    ]
}

/// The command-line arguments of the sidecar. No empty value is passed
/// (the proxy's argument parser would take the next flag as its value).
pub fn sidecar_args(settings: &Settings, config_path: &str) -> (r: Vec<String>)
    ensures
        r@.len() == 12,
        forall|i: int| 0 <= i < 12 ==> #[trigger] r@[i]@ == sidecar_args_spec(*settings, config_path@)[i],
{
    let mut v: Vec<String> = Vec::new();
    v.push(owned("--bind"));
    v.push(settings.bind_address.clone());
    v.push(owned("--port"));
    v.push(decimal(settings.port as u64));
    v.push(owned("--timeout-sec"));
    v.push(decimal(settings.request_timeout_seconds));
    v.push(owned("--max-body-mb"));
    v.push(decimal(settings.max_body_mb as u64));
    v.push(owned("--default-protocol"));
    v.push(owned("responses"));
    v.push(owned("--config"));
    v.push(owned(config_path));
    v
}

/// The platforms that ship a packaged sidecar.
#[derive(PartialEq, Eq, Structural, Clone, Copy, Debug)]
pub enum TargetOs {
    Windows,
    MacOs,
    Linux,
}

/// The file names under which the packaged sidecar may sit beside the app.
pub fn packaged_names(os: TargetOs) -> (r: Vec<&'static str>)
    ensures
        os == TargetOs::Windows ==> r@.len() == 2 && r@[0]@ == "opencodex-sidecar.exe"@ && r@[1]@
            == "opencodex-sidecar-x86_64-pc-windows-msvc.exe"@,
        os == TargetOs::MacOs ==> r@.len() == 3 && r@[0]@ == "opencodex-sidecar"@ && r@[1]@
            == "opencodex-sidecar-aarch64-apple-darwin"@ && r@[2]@
            == "opencodex-sidecar-x86_64-apple-darwin"@,
        os == TargetOs::Linux ==> r@.len() == 2 && r@[0]@ == "opencodex-sidecar"@ && r@[1]@
            == "opencodex-sidecar-x86_64-unknown-linux-gnu"@,
{
    match os {
        TargetOs::Windows => vec!["opencodex-sidecar.exe", "opencodex-sidecar-x86_64-pc-windows-msvc.exe"],
        TargetOs::MacOs => vec![
            "opencodex-sidecar",
            "opencodex-sidecar-aarch64-apple-darwin",
            "opencodex-sidecar-x86_64-apple-darwin",
        ],
        TargetOs::Linux => vec!["opencodex-sidecar", "opencodex-sidecar-x86_64-unknown-linux-gnu"],
    }
}

// ---------------------------------------------------------------------------
// Waiting for the sidecar
/// How many times the health endpoint is asked before start-up is given up.
pub const HEALTH_ATTEMPTS: u32 = 40;

/// What was observed of the starting sidecar in one round.
pub enum StartupEvent {
    /// The process has exited, with this status; the last lines of its
    /// error output, where they could be collected.
    Exited { status: String, stderr: Option<Vec<String>> },
    /// The health endpoint answered with success.
    Healthy,
    /// The process runs but is not healthy yet.
    NotReady,
}

/// What to do next.
pub enum StartupAction {
    /// The sidecar is up.
    Ready,
    /// Start-up failed with this error.
    Fail(String),
    /// Pause, then look again.
    Wait,
    /// Pause, stop the sidecar and fail with this error.
    WaitThenGiveUp(String),
}

/// One round of watching the sidecar start, `attempt` counting from 0.
pub fn startup_step(attempt: u32, event: StartupEvent) -> (r: StartupAction)
    requires
        attempt < HEALTH_ATTEMPTS,
    ensures
        match event {
            StartupEvent::Exited { status, stderr } => r matches StartupAction::Fail(e) && e@
                == exit_message_spec(
                status@,
                match stderr {
                    Some(ls) => Some(ls@),
                    None => None,
                },
            ),
            StartupEvent::Healthy => r is Ready,
            StartupEvent::NotReady => if attempt + 1 < HEALTH_ATTEMPTS {
                r is Wait
            } else {
                r matches StartupAction::WaitThenGiveUp(e) && e@ == "OnlyCodex sidecar 启动超时"@
            },
        },
{
    match event {
        StartupEvent::Exited { status, stderr } => {
            let msg = match &stderr {
                Some(ls) => sidecar_exit_message(status.as_str(), Some(ls)),
                None => sidecar_exit_message(status.as_str(), None),
            };
            StartupAction::Fail(msg)
        },
        StartupEvent::Healthy => StartupAction::Ready,
        StartupEvent::NotReady => {
            if attempt + 1 < HEALTH_ATTEMPTS {
                StartupAction::Wait
            } else {
                StartupAction::WaitThenGiveUp(owned("OnlyCodex sidecar 启动超时"))
            }
        },
    }
}

// ---------------------------------------------------------------------------
// The sidecar's provider and route configuration
/// How a provider is introduced to the sidecar.
#[derive(Debug)]
pub struct ProxyProvider {
    pub base_url: String,
    pub api_key: String,
    pub protocol: String,
    pub models: Vec<String>,
}

/// The providers (by id) and routes (by Codex model) that the sidecar serves.
#[derive(Debug)]
pub struct ProxyConfig {
    pub providers: Vec<(String, ProxyProvider)>,
    pub mappings: Vec<(String, String)>,
}

/// The ids of the enabled models, in order.
pub open spec fn enabled_ids(ms: Seq<ModelConfig>) -> Seq<Seq<char>>
    decreases ms.len(),
{
    if ms.len() == 0 {
        Seq::empty()
    } else if ms.last().enabled {
        enabled_ids(ms.drop_last()).push(ms.last().id@)
    } else {
        enabled_ids(ms.drop_last())
    }
}

pub open spec fn protocol_name(p: Protocol) -> Seq<char> {
    match p {
        Protocol::Responses => "responses"@,
        Protocol::ChatCompletions => "chat_completions"@,
    }
}

/// The key handed to the sidecar: the provider's, or a placeholder where it has none.
pub open spec fn api_key_shown(key: Seq<char>) -> Seq<char> {
    if key.len() == 0 {
        "not-required"@
    } else {
        key
    }
}

/// `e` introduces provider `p`.
pub open spec fn introduces(e: ProxyProvider, p: Provider) -> bool {
    &&& e.base_url@ == p.base_url@
    &&& e.api_key@ == api_key_shown(p.api_key@)
    &&& e.protocol@ == protocol_name(p.protocol)
    &&& e.models@.map_values(|m: String| m@) == enabled_ids(p.models@)
}

/// The last enabled provider before index `n` with id `id`.
pub open spec fn last_enabled_provider(c: AppConfig, id: Seq<char>, n: int) -> Option<int>
    decreases n,
{
    if n <= 0 || n > c.providers@.len() {
        None
    } else if c.providers@[n - 1].enabled && c.providers@[n - 1].id@ == id {
        Some(n - 1)
    } else {
        last_enabled_provider(c, id, n - 1)
    }
}

/// The route of mapping `m`: `provider id:upstream model`.
pub open spec fn route_target(c: AppConfig, j: int) -> Seq<char> {
    c.mappings@[j].provider_id@ + ":"@ + c.mappings@[j].upstream_model@
}

/// The last routable mapping before index `n` for Codex model `model`.
pub open spec fn last_route(c: AppConfig, model: Seq<char>, n: int) -> Option<int>
    decreases n,
{
    if n <= 0 || n > c.mappings@.len() {
        None
    } else if routable(c, c.mappings@[n - 1]) && c.mappings@[n - 1].codex_model@ == model {
        Some(n - 1)
    } else {
        last_route(c, model, n - 1)
    }
}

pub open spec fn providers_match(c: AppConfig, s: Seq<(String, ProxyProvider)>, n: int) -> bool {
    forall|id: Seq<char>|
        match #[trigger] lookup(s, id) {
            Some(e) => match last_enabled_provider(c, id, n) {
                Some(k) => introduces(e, c.providers@[k]),
                None => false,
            },
            None => last_enabled_provider(c, id, n) is None,
        }
}

pub open spec fn routes_match(c: AppConfig, s: Seq<(String, String)>, n: int) -> bool {
    forall|model: Seq<char>|
        match #[trigger] lookup(s, model) {
            Some(t) => match last_route(c, model, n) {
                Some(j) => t@ == route_target(c, j),
                None => false,
            },
            None => last_route(c, model, n) is None,
        }
}

fn introduce(p: &Provider) -> (r: ProxyProvider)
    ensures
        introduces(r, *p),
{
    let mut models: Vec<String> = Vec::new();
    let n = p.models.len();
    for j in 0..n
        invariant
            n == p.models@.len(),
            models@.map_values(|m: String| m@) == enabled_ids(p.models@.take(j as int)),
    {
        proof {
            assert(p.models@.take(j + 1).drop_last() =~= p.models@.take(j as int));
        }
        if p.models[j].enabled {
            let ghost before = models@;
            models.push(p.models[j].id.clone());
            assert(models@.map_values(|m: String| m@) =~= before.map_values(|m: String| m@).push(
                p.models@[j as int].id@,
            ));
        }
    }
    assert(p.models@.take(n as int) =~= p.models@);
    let key = if p.api_key.as_str().unicode_len() == 0 {
        owned("not-required")
    } else {
        p.api_key.clone()
    };
    let protocol = match p.protocol {
        Protocol::Responses => owned("responses"),
        Protocol::ChatCompletions => owned("chat_completions"),
    };
    ProxyProvider { base_url: p.base_url.clone(), api_key: key, protocol, models }
}

/// The sidecar's configuration: each enabled provider under its id, and each
/// routable mapping as `provider id:upstream model` under its Codex model;
/// where ids repeat, the last one counts. Both lists ascend by key.
pub fn proxy_config(config: &AppConfig) -> (r: ProxyConfig)
    ensures
        keys_sorted(r.providers@),
        providers_match(*config, r.providers@, config.providers@.len() as int),
        keys_sorted(r.mappings@),
        routes_match(*config, r.mappings@, config.mappings@.len() as int),
{
    let mut providers: Vec<(String, ProxyProvider)> = Vec::new();
    let n = config.providers.len();
    for i in 0..n
        invariant
            n == config.providers@.len(),
            keys_sorted(providers@),
            providers_match(*config, providers@, i as int),
    {
        let p = &config.providers[i];
        let ghost before = providers@;
        if p.enabled {
            let e = introduce(p);
            upsert(&mut providers, p.id.clone(), e, true);
        }
        proof {
            assert forall|id: Seq<char>|
                match #[trigger] lookup(providers@, id) {
                    Some(e) => match last_enabled_provider(*config, id, i + 1) {
                        Some(k) => introduces(e, config.providers@[k]),
                        None => false,
                    },
                    None => last_enabled_provider(*config, id, i + 1) is None,
                } by {
                if !p.enabled || id != p.id@ {
                    assert(lookup(providers@, id) == lookup(before, id));
                }
            }
        }
    }
    let mut mappings: Vec<(String, String)> = Vec::new();
    let m_count = config.mappings.len();
    for i in 0..m_count
        invariant
            m_count == config.mappings@.len(),
            keys_sorted(mappings@),
            routes_match(*config, mappings@, i as int),
    {
        let m = &config.mappings[i];
        let ghost before = mappings@;
        let serve = is_routable(config, m);
        if serve {
            let mut target = m.provider_id.clone();
            target.append(":");
            target.append(m.upstream_model.as_str());
            upsert(&mut mappings, m.codex_model.clone(), target, true);
        }
        proof {
            assert forall|model: Seq<char>|
                match #[trigger] lookup(mappings@, model) {
                    Some(t) => match last_route(*config, model, i + 1) {
                        Some(j) => t@ == route_target(*config, j),
                        None => false,
                    },
                    None => last_route(*config, model, i + 1) is None,
                } by {
                if !serve || model != m.codex_model@ {
                    assert(lookup(mappings@, model) == lookup(before, model));
                }
            }
        }
    }
    ProxyConfig { providers, mappings }
}

proof fn lemma_last_route_facts(c: AppConfig, model: Seq<char>, n: int)
    ensures
        last_route(c, model, n) matches Some(j) ==> 0 <= j < n && j < c.mappings@.len()
            && routable(c, c.mappings@[j]) && c.mappings@[j].codex_model@ == model,
    decreases n,
{
    if n > 0 && n <= c.mappings@.len() && !(routable(c, c.mappings@[n - 1])
        && c.mappings@[n - 1].codex_model@ == model) {
        lemma_last_route_facts(c, model, n - 1);
    }
}

proof fn lemma_enabled_provider_found(c: AppConfig, k: int, n: int)
    requires
        0 <= k < n <= c.providers@.len(),
        c.providers@[k].enabled,
    ensures
        last_enabled_provider(c, c.providers@[k].id@, n) is Some,
    decreases n,
{
    if n - 1 != k && !(c.providers@[n - 1].enabled && c.providers@[n - 1].id@
        == c.providers@[k].id@) {
        lemma_enabled_provider_found(c, k, n - 1);
    }
}

/// Every route of the sidecar names a provider that the sidecar is given:
/// a mapping is only routed to an enabled provider, and every enabled
/// provider is introduced.
pub proof fn lemma_routes_name_known_providers(
    c: AppConfig,
    providers: Seq<(String, ProxyProvider)>,
    routes: Seq<(String, String)>,
    model: Seq<char>,
)
    requires
        providers_match(c, providers, c.providers@.len() as int),
        routes_match(c, routes, c.mappings@.len() as int),
        lookup(routes, model) is Some,
    ensures
        last_route(c, model, c.mappings@.len() as int) matches Some(j) && lookup(
            providers,
            c.mappings@[j].provider_id@,
        ) is Some,
{
    let n = c.mappings@.len() as int;
    assert(lookup(routes, model) is Some);
    lemma_last_route_facts(c, model, n);
    let j = last_route(c, model, n)->0;
    let id = c.mappings@[j].provider_id@;
    let k = choose|k: int|
        0 <= k < c.providers@.len() && #[trigger] c.providers@[k].id@ == id
            && c.providers@[k].enabled;
    lemma_enabled_provider_found(c, k, c.providers@.len() as int);
    assert(lookup(providers, id) is Some);
}

// ---------------------------------------------------------------------------
// The sidecar's configuration file
/// Strings as JSON strings, in order.
pub open spec fn texts_json(s: Seq<Seq<char>>) -> Seq<JsonNode> {
    s.map_values(|t: Seq<char>| JsonNode::Text(t))
}

/// Provider `p` as the sidecar's configuration file holds it: its base URL,
/// the key handed to the sidecar, its protocol and its enabled models.
pub open spec fn provider_json(p: Provider) -> JsonNode {
    JsonNode::Object(
        no_members().insert("baseUrl"@, JsonNode::Text(p.base_url@)).insert(
            "apiKey"@,
            JsonNode::Text(api_key_shown(p.api_key@)),
        ).insert("protocol"@, JsonNode::Text(protocol_name(p.protocol))).insert(
            "models"@,
            JsonNode::Array(texts_json(enabled_ids(p.models@))),
        ),
    )
}

/// Each enabled provider under its id (the last one where ids repeat).
pub open spec fn providers_json(c: AppConfig) -> Map<Seq<char>, JsonNode> {
    Map::new(
        |id: Seq<char>| last_enabled_provider(c, id, c.providers@.len() as int) is Some,
        |id: Seq<char>|
            provider_json(c.providers@[last_enabled_provider(c, id, c.providers@.len() as int)->0]),
    )
}

/// Each routable mapping's target, `provider id:upstream model`, under its
/// Codex model (the last one where models repeat).
pub open spec fn routes_json(c: AppConfig) -> Map<Seq<char>, JsonNode> {
    Map::new(
        |model: Seq<char>| last_route(c, model, c.mappings@.len() as int) is Some,
        |model: Seq<char>|
            JsonNode::Text(route_target(c, last_route(c, model, c.mappings@.len() as int)->0)),
    )
}

/// The sidecar's configuration file: `{"providers": {...}, "mappings": {...}}`.
pub open spec fn proxy_config_json(c: AppConfig) -> JsonNode {
    JsonNode::Object(
        no_members().insert("providers"@, JsonNode::Object(providers_json(c))).insert(
            "mappings"@,
            JsonNode::Object(routes_json(c)),
        ),
    )
}

/// A provider entry of `proxy_config` as JSON.
pub open spec fn proxy_provider_json(e: ProxyProvider) -> JsonNode {
    JsonNode::Object(
        no_members().insert("baseUrl"@, JsonNode::Text(e.base_url@)).insert(
            "apiKey"@,
            JsonNode::Text(e.api_key@),
        ).insert("protocol"@, JsonNode::Text(e.protocol@)).insert(
            "models"@,
            JsonNode::Array(e.models@.map_values(|m: String| JsonNode::Text(m@))),
        ),
    )
}

proof fn lemma_introduced_provider_json(e: ProxyProvider, p: Provider)
    requires
        introduces(e, p),
    ensures
        proxy_provider_json(e) == provider_json(p),
{
    let a = e.models@.map_values(|m: String| JsonNode::Text(m@));
    let b = texts_json(enabled_ids(p.models@));
    let ids = e.models@.map_values(|m: String| m@);
    assert(ids == enabled_ids(p.models@));
    assert(a.len() == b.len());
    assert forall|k: int| 0 <= k < a.len() implies a[k] == b[k] by {
        assert(ids[k] == e.models@[k]@);
    }
    assert(a =~= b);
}

fn provider_entry_json(e: &ProxyProvider) -> (r: Value)
    ensures
        json_value_view(r) == proxy_provider_json(*e),
{
    let mut models: Vec<Value> = Vec::new();
    for j in 0..e.models.len()
        invariant
            models@.len() == j,
            forall|a: int| 0 <= a < j ==> #[trigger] json_value_view(models@[a]) == JsonNode::Text(
                e.models@[a]@,
            ),
    {
        models.push(json_from_text(e.models[j].as_str()));
    }
    assert(json_views(models@) =~= e.models@.map_values(|m: String| JsonNode::Text(m@)));
    let mut obj = json_empty_object();
    json_set_member(&mut obj, "baseUrl", json_from_text(e.base_url.as_str()));
    json_set_member(&mut obj, "apiKey", json_from_text(e.api_key.as_str()));
    json_set_member(&mut obj, "protocol", json_from_text(e.protocol.as_str()));
    json_set_member(&mut obj, "models", json_from_items(models));
    obj
}

proof fn lemma_proxy_config_json_nests(c: AppConfig)
    ensures
        nests_within(proxy_config_json(c), json_nesting_limit()),
{
    let pj = providers_json(c);
    assert forall|id: Seq<char>| #[trigger] pj.dom().contains(id) implies nests_within(
        pj[id],
        125,
    ) by {
        let p = c.providers@[last_enabled_provider(c, id, c.providers@.len() as int)->0];
        let o = provider_json(p)->Object_0;
        let ms = texts_json(enabled_ids(p.models@));
        assert forall|i: int| 0 <= i < ms.len() implies nests_within(#[trigger] ms[i], 123) by {}
        assert(nests_within(JsonNode::Array(ms), 124));
        assert forall|k: Seq<char>| #[trigger] o.dom().contains(k) implies nests_within(o[k], 124) by {}
    }
    assert(nests_within(JsonNode::Object(pj), 126));
    let rj = routes_json(c);
    assert forall|m: Seq<char>| #[trigger] rj.dom().contains(m) implies nests_within(rj[m], 125) by {}
    assert(nests_within(JsonNode::Object(rj), 126));
    let root = proxy_config_json(c)->Object_0;
    assert forall|k: Seq<char>| #[trigger] root.dom().contains(k) implies nests_within(
        root[k],
        126,
    ) by {}
}

/// The sidecar's configuration file, as pretty-printed JSON: what
/// `proxy_config` chooses, under the keys the sidecar reads.
pub fn proxy_config_text(config: &AppConfig) -> (r: String)
    ensures
        json_parse_view(r@) == Some(proxy_config_json(*config)),
{
    let proxy = proxy_config(config);
    let ghost s = proxy.providers@;
    let mut providers = json_empty_object();
    for i in 0..proxy.providers.len()
        invariant
            s == proxy.providers@,
            keys_sorted(s),
            json_value_view(providers) is Object,
            forall|k: Seq<char>| #[trigger]
                json_value_view(providers)->Object_0.dom().contains(k) ==> exists|a: int|
                    0 <= a < i && key_at(s, k, a),
            forall|a: int|
                0 <= a < i ==> json_value_view(providers)->Object_0.dom().contains(
                    #[trigger] s[a].0@,
                ) && json_value_view(providers)->Object_0[s[a].0@] == proxy_provider_json(s[a].1),
    {
        let ghost before = json_value_view(providers)->Object_0;
        let entry = provider_entry_json(&proxy.providers[i].1);
        json_set_member(&mut providers, proxy.providers[i].0.as_str(), entry);
        proof {
            let m = json_value_view(providers)->Object_0;
            assert forall|a: int| 0 <= a < i + 1 implies m.dom().contains(#[trigger] s[a].0@)
                && m[s[a].0@] == proxy_provider_json(s[a].1) by {
                if a < i {
                    lemma_text_lt_total(s[i as int].0@, s[i as int].0@);
                    assert(s[a].0@ != s[i as int].0@);
                }
            }
            assert forall|k: Seq<char>| #[trigger] m.dom().contains(k) implies exists|a: int|
                0 <= a < i + 1 && key_at(s, k, a) by {
                if k == s[i as int].0@ {
                    assert(key_at(s, k, i as int));
                } else {
                    assert(before.dom().contains(k));
                }
            }
        }
    }
    let ghost r = proxy.mappings@;
    let mut mappings = json_empty_object();
    for i in 0..proxy.mappings.len()
        invariant
            r == proxy.mappings@,
            keys_sorted(r),
            json_value_view(mappings) is Object,
            forall|k: Seq<char>| #[trigger]
                json_value_view(mappings)->Object_0.dom().contains(k) ==> exists|a: int|
                    0 <= a < i && key_at(r, k, a),
            forall|a: int|
                0 <= a < i ==> json_value_view(mappings)->Object_0.dom().contains(
                    #[trigger] r[a].0@,
                ) && json_value_view(mappings)->Object_0[r[a].0@] == JsonNode::Text(r[a].1@),
    {
        let ghost before = json_value_view(mappings)->Object_0;
        json_set_member(
            &mut mappings,
            proxy.mappings[i].0.as_str(),
            json_from_text(proxy.mappings[i].1.as_str()),
        );
        proof {
            let m = json_value_view(mappings)->Object_0;
            assert forall|a: int| 0 <= a < i + 1 implies m.dom().contains(#[trigger] r[a].0@)
                && m[r[a].0@] == JsonNode::Text(r[a].1@) by {
                if a < i {
                    lemma_text_lt_total(r[i as int].0@, r[i as int].0@);
                    assert(r[a].0@ != r[i as int].0@);
                }
            }
            assert forall|k: Seq<char>| #[trigger] m.dom().contains(k) implies exists|a: int|
                0 <= a < i + 1 && key_at(r, k, a) by {
                if k == r[i as int].0@ {
                    assert(key_at(r, k, i as int));
                } else {
                    assert(before.dom().contains(k));
                }
            }
        }
    }
    proof {
        let n = config.providers@.len() as int;
        let pm = json_value_view(providers)->Object_0;
        let pj = providers_json(*config);
        assert forall|id: Seq<char>| pm.dom().contains(id) <==> pj.dom().contains(id) by {
            assert(lookup(s, id) is Some <==> last_enabled_provider(*config, id, n) is Some);
            if pm.dom().contains(id) {
                let a = choose|a: int| 0 <= a < s.len() && key_at(s, id, a);
                assert(has_key(s, id));
            }
            if has_key(s, id) {
                let c = choose|c: int| key_at(s, id, c);
                assert(pm.dom().contains(s[c].0@));
            }
        }
        assert forall|id: Seq<char>| #[trigger] pm.dom().contains(id) implies pm[id] == pj[id] by {
            assert(lookup(s, id) is Some);
            let c = choose|c: int| key_at(s, id, c);
            assert(pm.dom().contains(s[c].0@));
            let k = last_enabled_provider(*config, id, n)->0;
            lemma_introduced_provider_json(s[c].1, config.providers@[k]);
        }
        assert(pm =~= pj);
        let m = config.mappings@.len() as int;
        let rm = json_value_view(mappings)->Object_0;
        let rj = routes_json(*config);
        assert forall|model: Seq<char>| rm.dom().contains(model) <==> rj.dom().contains(model) by {
            assert(lookup(r, model) is Some <==> last_route(*config, model, m) is Some);
            if rm.dom().contains(model) {
                let a = choose|a: int| 0 <= a < r.len() && key_at(r, model, a);
                assert(has_key(r, model));
            }
            if has_key(r, model) {
                let c = choose|c: int| key_at(r, model, c);
                assert(rm.dom().contains(r[c].0@));
            }
        }
        assert forall|model: Seq<char>| #[trigger] rm.dom().contains(model) implies rm[model]
            == rj[model] by {
            assert(lookup(r, model) is Some);
            let c = choose|c: int| key_at(r, model, c);
            assert(rm.dom().contains(r[c].0@));
        }
        assert(rm =~= rj);
        lemma_proxy_config_json_nests(*config);
    }
    let mut root = json_empty_object();
    json_set_member(&mut root, "providers", providers);
    json_set_member(&mut root, "mappings", mappings);
    assert(json_value_view(root) == proxy_config_json(*config));
    json_pretty(&root)
}

} // verus!
