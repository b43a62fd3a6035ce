//! Where Codex keeps its configuration, and the verified core of routing
//! Codex through the local proxy: the TOML edit, the safety backup and the
//! restore. The files themselves are held in a `CodexFiles` value: the
//! caller reads them into it and writes back what changed.
use crate::config::{routable, is_routable, AppConfig, ModelConfig, Provider, Settings};
use crate::text::{decimal, join_path, join_spec, owned, decimal_spec};
use crate::toml::{
    document_contains, document_entry_is_table, document_has_sub_entry, document_set_empty_table,
    document_set_sub_table, document_set_text, document_text, entries_render_faithfully,
    has_sub_entry, new_table, no_entries, parse_document, parse_error_text, render_document,
    renders_faithfully, flat_entries, table_or_absent, table_set_flag, table_set_text, text_entry,
    toml_document_view, toml_parse_view, toml_renders_back, toml_table_renders_back,
    toml_table_view, with_sub_table, TomlEntry,
};
use toml_edit::{DocumentMut, Table};
use vstd::prelude::*;
use vstd::string::*;
use vstd::utf8::{decode_utf8, encode_utf8, valid_utf8};

verus! {

// ---------------------------------------------------------------------------
// Paths
/// `$HOME`, else `%USERPROFILE%`.
pub open spec fn chosen_home(home: Option<&str>, user_profile: Option<&str>) -> Option<Seq<char>> {
    match home {
        Some(h) => Some(h@),
        None => match user_profile {
            Some(u) => Some(u@),
            None => None,
        },
    }
}

pub open spec fn no_home_error() -> Seq<char> {
    "无法确定用户主目录"@
}

/// The user's home directory, from the values of `$HOME` and `%USERPROFILE%`.
pub fn home_dir(home: Option<&str>, user_profile: Option<&str>) -> (r: Result<String, String>)
    ensures
        match chosen_home(home, user_profile) {
            Some(h) => r matches Ok(p) && p@ == h,
            None => r matches Err(e) && e@ == no_home_error(),
        },
{
    match home {
        Some(h) => Ok(owned(h)),
        None => match user_profile {
            Some(u) => Ok(owned(u)),
            None => Err(owned("无法确定用户主目录")),
        },
    }
}

pub open spec fn codex_dir_spec(home: Seq<char>) -> Seq<char> {
    join_spec(home, ".codex"@)
}

/// `~/.codex/config.toml`, from the values of `$HOME` and `%USERPROFILE%`.
pub fn default_config_path(home: Option<&str>, user_profile: Option<&str>) -> (r: Result<
    String,
    String,
>)
    ensures
        match chosen_home(home, user_profile) {
            Some(h) => r matches Ok(p) && p@ == join_spec(codex_dir_spec(h), "config.toml"@),
            None => r matches Err(e) && e@ == no_home_error(),
        },
{
    let h = home_dir(home, user_profile)?;
    let dir = join_path(h.as_str(), ".codex");
    Ok(join_path(dir.as_str(), "config.toml"))
}

/// `~/.codex/model-catalogs/opencodex.json`, from the values of `$HOME` and `%USERPROFILE%`.
pub fn model_catalog_path(home: Option<&str>, user_profile: Option<&str>) -> (r: Result<
    String,
    String,
>)
    ensures
        match chosen_home(home, user_profile) {
            Some(h) => r matches Ok(p) && p@ == join_spec(
                join_spec(codex_dir_spec(h), "model-catalogs"@),
                "opencodex.json"@,
            ),
            None => r matches Err(e) && e@ == no_home_error(),
        },
{
    let h = home_dir(home, user_profile)?;
    let dir = join_path(h.as_str(), ".codex");
    let catalogs = join_path(dir.as_str(), "model-catalogs");
    Ok(join_path(catalogs.as_str(), "opencodex.json"))
}

// ---------------------------------------------------------------------------
// Bytes and text
/// `std::str::from_utf8(bytes)`, owned: the text that `bytes` encode, or
/// `None` where they are not valid UTF-8.
#[verifier::external_body]
pub(crate) fn utf8_text(bytes: &[u8]) -> (r: Option<String>)
    ensures
        r is Some <==> valid_utf8(bytes@),
        r matches Some(s) ==> s@ == decode_utf8(bytes@),
{
    std::str::from_utf8(bytes).ok().map(|s| s.to_string())
}

/// The UTF-8 bytes of `s`.
pub fn text_bytes(s: &str) -> (r: Vec<u8>)
    ensures
        r@ == encode_utf8(s@),
{
    vstd::slice::slice_to_vec(s.as_bytes())
}

// ---------------------------------------------------------------------------
// The files
/// The Codex configuration file and the safety backup; `None` where a file
/// does not exist.
#[derive(Debug)]
pub struct CodexFiles {
    pub config: Option<Vec<u8>>,
    pub backup: Option<Vec<u8>>,
}

pub open spec fn bytes_of(f: Option<Vec<u8>>) -> Option<Seq<u8>> {
    match f {
        Some(v) => Some(v@),
        None => None,
    }
}

/// `fs::read_to_string(path).ok()`: the file's text, where it exists and is UTF-8.
pub open spec fn readable_text(f: Option<Seq<u8>>) -> Option<Seq<char>> {
    match f {
        Some(b) => if valid_utf8(b) {
            Some(decode_utf8(b))
        } else {
            None
        },
        None => None,
    }
}

/// `fs::read_to_string(path).unwrap_or_default()`.
pub open spec fn text_or_empty(f: Option<Seq<u8>>) -> Seq<char> {
    match readable_text(f) {
        Some(t) => t,
        None => Seq::empty(),
    }
}

/// `fs::read(path).unwrap_or_default()`.
pub open spec fn bytes_or_empty(f: Option<Seq<u8>>) -> Seq<u8> {
    match f {
        Some(b) => b,
        None => Seq::empty(),
    }
}

/// The parsed document routes Codex through the local proxy.
pub open spec fn routes_to_proxy(m: Map<Seq<char>, TomlEntry>) -> bool {
    has_sub_entry(m, "model_providers"@, "opencodex_proxy"@)
}

/// The configuration file has been injected: it parses, and it defines the
/// `opencodex_proxy` model provider.
pub open spec fn injected(f: Option<Seq<u8>>) -> bool {
    match readable_text(f) {
        Some(t) => match toml_parse_view(t) {
            Some(m) => routes_to_proxy(m),
            None => false,
        },
        None => false,
    }
}

/// Whether the configuration file already routes Codex through the proxy.
pub fn is_injected(config: &Option<Vec<u8>>) -> (r: bool)
    ensures
        r == injected(bytes_of(*config)),
{
    match config {
        None => false,
        Some(bytes) => match utf8_text(bytes.as_slice()) {
            None => false,
            Some(text) => match parse_document(text.as_str()) {
                Ok(doc) => document_has_sub_entry(&doc, "model_providers", "opencodex_proxy"),
                Err(_) => false,
            },
        },
    }
}

/// The backup after `backup`: an existing backup is never overwritten;
/// otherwise it becomes a copy of the configuration file (empty if missing).
pub open spec fn backup_spec(config: Option<Seq<u8>>, backup: Option<Seq<u8>>) -> Option<Seq<u8>> {
    match backup {
        Some(b) => Some(b),
        None => Some(bytes_or_empty(config)),
    }
}

/// Copies the configuration file into the backup, unless a backup exists.
pub fn backup(files: &mut CodexFiles)
    ensures
        bytes_of(final(files).config) == bytes_of(old(files).config),
        bytes_of(final(files).backup) == backup_spec(
            bytes_of(old(files).config),
            bytes_of(old(files).backup),
        ),
{
    if files.backup.is_some() {
        return ;
    }
    let copy = match &files.config {
        Some(bytes) => vstd::slice::slice_to_vec(bytes.as_slice()),
        None => Vec::new(),
    };
    files.backup = Some(copy);
}

/// The outcome of `restore`: the configuration file, the backup, and whether it succeeded.
pub open spec fn restore_spec(config: Option<Seq<u8>>, backup: Option<Seq<u8>>) -> (
    Option<Seq<u8>>,
    Option<Seq<u8>>,
    bool,
) {
    match backup {
        Some(b) => (Some(b), None, true),
        None => (config, None, !injected(config)),
    }
}

/// Puts the backup back in place, byte for byte, and removes it. Without a
/// backup nothing changes, and an injected configuration is refused rather
/// than left as it is silently.
pub fn restore(files: &mut CodexFiles) -> (r: Result<(), String>)
    ensures
        (bytes_of(final(files).config), bytes_of(final(files).backup), r is Ok) == restore_spec(
            bytes_of(old(files).config),
            bytes_of(old(files).backup),
        ),
        r matches Err(e) ==> e@ == "找不到安全备份，拒绝覆盖当前 Codex 配置"@,
{
    match files.backup.take() {
        Some(saved) => {
            files.config = Some(saved);
            Ok(())
        },
        None => {
            if !is_injected(&files.config) {
                return Ok(());
            }
            Err(owned("找不到安全备份，拒绝覆盖当前 Codex 配置"))
        },
    }
}

// ---------------------------------------------------------------------------
// The model that Codex starts on
/// The first routable mapping from index `i` on.
pub open spec fn first_routable_from(c: AppConfig, i: int) -> Option<int>
    decreases c.mappings@.len() - i,
{
    if i < 0 || i >= c.mappings@.len() {
        None
    } else if routable(c, c.mappings@[i]) {
        Some(i)
    } else {
        first_routable_from(c, i + 1)
    }
}

/// The first enabled model from index `j` on.
pub open spec fn first_enabled_from(ms: Seq<ModelConfig>, j: int) -> Option<int>
    decreases ms.len() - j,
{
    if j < 0 || j >= ms.len() {
        None
    } else if ms[j].enabled {
        Some(j)
    } else {
        first_enabled_from(ms, j + 1)
    }
}

/// The id of the first enabled model of an enabled provider, from provider `i` on.
pub open spec fn first_listed_model_from(ps: Seq<Provider>, i: int) -> Option<Seq<char>>
    decreases ps.len() - i,
{
    if i < 0 || i >= ps.len() {
        None
    } else if ps[i].enabled && first_enabled_from(ps[i].models@, 0) is Some {
        Some(ps[i].models@[first_enabled_from(ps[i].models@, 0)->0].id@)
    } else {
        first_listed_model_from(ps, i + 1)
    }
}

/// Some enabled provider lists an enabled model with id `id`.
pub open spec fn listed_model(c: AppConfig, id: Seq<char>) -> bool {
    exists|i: int, j: int|
        0 <= i < c.providers@.len() && 0 <= j < c.providers@[i].models@.len()
            && c.providers@[i].enabled && #[trigger] c.providers@[i].models@[j].enabled
            && c.providers@[i].models@[j].id@ == id
}

/// The `model` that the injected configuration names, given the one it
/// named before (`None`: leave it as it is). The first routable alias wins;
/// without one, the first listed raw model replaces a current model that is
/// empty or not listed.
pub open spec fn chosen_model(c: AppConfig, current: Option<Seq<char>>) -> Option<Seq<char>> {
    match first_routable_from(c, 0) {
        Some(i) => Some(c.mappings@[i].codex_model@),
        None => match first_listed_model_from(c.providers@, 0) {
            Some(slug) => {
                let cur = match current {
                    Some(t) => t,
                    None => Seq::empty(),
                };
                if cur.len() == 0 || !listed_model(c, cur) {
                    Some(slug)
                } else {
                    None
                }
            },
            None => None,
        },
    }
}

proof fn lemma_first_routable_in_range(c: AppConfig, i: int)
    ensures
        first_routable_from(c, i) matches Some(k) ==> 0 <= k < c.mappings@.len(),
    decreases c.mappings@.len() - i,
{
    if 0 <= i < c.mappings@.len() && !routable(c, c.mappings@[i]) {
        lemma_first_routable_in_range(c, i + 1);
    }
}

proof fn lemma_first_enabled_in_range(ms: Seq<ModelConfig>, j: int)
    ensures
        first_enabled_from(ms, j) matches Some(k) ==> 0 <= k < ms.len() && ms[k].enabled,
    decreases ms.len() - j,
{
    if 0 <= j < ms.len() && !ms[j].enabled {
        lemma_first_enabled_in_range(ms, j + 1);
    }
}

fn first_enabled_model(models: &Vec<ModelConfig>) -> (r: Option<usize>)
    ensures
        r matches Some(j) ==> first_enabled_from(models@, 0) == Some(j as int),
        r is None ==> first_enabled_from(models@, 0) is None,
{
    let n = models.len();
    let mut j: usize = 0;
    while j < n
        invariant
            n == models@.len(),
            j <= n,
            first_enabled_from(models@, 0) == first_enabled_from(models@, j as int),
        decreases n - j,
    {
        if models[j].enabled {
            return Some(j);
        }
        j = j + 1;
    }
    None
}

fn first_listed_model(config: &AppConfig) -> (r: Option<String>)
    ensures
        r matches Some(s) ==> first_listed_model_from(config.providers@, 0) == Some(s@),
        r is None ==> first_listed_model_from(config.providers@, 0) is None,
{
    let n = config.providers.len();
    let mut i: usize = 0;
    while i < n
        invariant
            n == config.providers@.len(),
            i <= n,
            first_listed_model_from(config.providers@, 0) == first_listed_model_from(
                config.providers@,
                i as int,
            ),
        decreases n - i,
    {
        let p = &config.providers[i];
        if p.enabled {
            match first_enabled_model(&p.models) {
                Some(j) => {
                    proof {
                        lemma_first_enabled_in_range(p.models@, 0);
                    }
                    return Some(p.models[j].id.clone());
                },
                None => {},
            }
        }
        i = i + 1;
    }
    None
}

fn is_listed_model(config: &AppConfig, id: &str) -> (r: bool)
    ensures
        r == listed_model(*config, id@),
{
    let n = config.providers.len();
    for i in 0..n
        invariant
            n == config.providers@.len(),
            forall|a: int, b: int|
                0 <= a < i && 0 <= b < config.providers@[a].models@.len() ==> !(
                config.providers@[a].enabled && #[trigger] config.providers@[a].models@[b].enabled
                    && config.providers@[a].models@[b].id@ == id@),
    {
        let p = &config.providers[i];
        let m = p.models.len();
        for j in 0..m
            invariant
                n == config.providers@.len(),
                i < n,
                p == config.providers@[i as int],
                m == p.models@.len(),
                forall|a: int, b: int|
                    0 <= a < i && 0 <= b < config.providers@[a].models@.len() ==> !(
                    config.providers@[a].enabled
                        && #[trigger] config.providers@[a].models@[b].enabled
                        && config.providers@[a].models@[b].id@ == id@),
                forall|b: int|
                    0 <= b < j ==> !(p.enabled && #[trigger] p.models@[b].enabled
                        && p.models@[b].id@ == id@),
        {
            if p.enabled && p.models[j].enabled && crate::text::same_text(
                p.models[j].id.as_str(),
                id,
            ) {
                return true;
            }
        }
    }
    false
}

fn first_routable(config: &AppConfig) -> (r: Option<usize>)
    ensures
        r matches Some(i) ==> first_routable_from(*config, 0) == Some(i as int),
        r is None ==> first_routable_from(*config, 0) is None,
{
    let n = config.mappings.len();
    let mut i: usize = 0;
    while i < n
        invariant
            n == config.mappings@.len(),
            i <= n,
            first_routable_from(*config, 0) == first_routable_from(*config, i as int),
        decreases n - i,
    {
        if is_routable(config, &config.mappings[i]) {
            return Some(i);
        }
        i = i + 1;
    }
    None
}

/// The `model` to write into the injected configuration, given the one it
/// names now; `None` leaves it as it is.
pub fn choose_model(config: &AppConfig, current: &Option<String>) -> (r: Option<String>)
    ensures
        r matches Some(s) ==> chosen_model(
            *config,
            match current {
                Some(t) => Some(t@),
                None => None,
            },
        ) == Some(s@),
        r is None ==> chosen_model(
            *config,
            match current {
                Some(t) => Some(t@),
                None => None,
            },
        ) is None,
{
    match first_routable(config) {
        Some(i) => {
            proof {
                lemma_first_routable_in_range(*config, 0);
            }
            Some(config.mappings[i].codex_model.clone())
        },
        None => match first_listed_model(config) {
            Some(slug) => {
                let empty = String::new();
                let cur = match current {
                    Some(t) => t,
                    None => &empty,
                };
                if cur.as_str().unicode_len() == 0 || !is_listed_model(config, cur.as_str()) {
                    Some(slug)
                } else {
                    None
                }
            },
            None => None,
        },
    }
}

// ---------------------------------------------------------------------------
// The injected document
/// The address at which Codex reaches the proxy.
pub open spec fn proxy_base_url(s: Settings) -> Seq<char> {
    "http://"@ + s.bind_address@ + ":"@ + decimal_spec(s.port as nat) + "/v1"@
}

/// The entries of the `opencodex_proxy` model provider.
pub open spec fn proxy_provider_entries(s: Settings) -> Map<Seq<char>, TomlEntry> {
    no_entries().insert("name"@, TomlEntry::Text("OnlyCodex"@)).insert(
        "base_url"@,
        TomlEntry::Text(proxy_base_url(s)),
    ).insert("wire_api"@, TomlEntry::Text("responses"@)).insert(
        "requires_openai_auth"@,
        TomlEntry::Flag(true),
    )
}

/// The `[model_providers.opencodex_proxy]` table: the local proxy, spoken to
/// with the Responses API, keeping Codex's auth context.
pub fn proxy_provider_table(settings: &Settings) -> (t: Table)
    ensures
        toml_table_view(t) == proxy_provider_entries(*settings),
        toml_table_renders_back(t),
{
    let mut url = owned("http://");
    url.append(settings.bind_address.as_str());
    url.append(":");
    let port = decimal(settings.port as u64);
    url.append(port.as_str());
    url.append("/v1");
    let mut t = new_table();
    table_set_text(&mut t, "name", "OnlyCodex");
    table_set_text(&mut t, "base_url", url.as_str());
    table_set_text(&mut t, "wire_api", "responses");
    table_set_flag(&mut t, "requires_openai_auth", true);
    t
}

/// The document's entries once the routing keys are set.
pub open spec fn with_routing_keys(m: Map<Seq<char>, TomlEntry>) -> Map<Seq<char>, TomlEntry> {
    m.insert("model_provider"@, TomlEntry::Text("opencodex_proxy"@)).insert(
        "model_catalog_json"@,
        TomlEntry::Text("~/.codex/model-catalogs/opencodex.json"@),
    )
}

/// The injection can proceed on a document with these entries:
/// `model_providers` is missing or a table (an inline table, or anything
/// else, cannot take the provider's table).
pub open spec fn injectable(m: Map<Seq<char>, TomlEntry>) -> bool {
    table_or_absent(with_routing_keys(m), "model_providers"@)
}

/// `original` parses, and its `model_providers` can take the proxy.
pub open spec fn can_inject(original: Seq<char>) -> bool {
    match toml_parse_view(original) {
        Some(m) => injectable(m),
        None => false,
    }
}

/// The entries of the injected document: the routing keys, the proxy
/// provider's table, and the chosen model; every other entry as it was.
pub open spec fn injected_entries(m: Map<Seq<char>, TomlEntry>, c: AppConfig) -> Map<
    Seq<char>,
    TomlEntry,
> {
    let m1 = with_routing_keys(m);
    let m2 = if m1.dom().contains("model_providers"@) {
        m1
    } else {
        m1.insert("model_providers"@, TomlEntry::Table(no_entries()))
    };
    let m3 = with_sub_table(m2, "model_providers"@, "opencodex_proxy"@, proxy_provider_entries(c.settings));
    match chosen_model(c, text_entry(m3, "model"@)) {
        Some(s) => m3.insert("model"@, TomlEntry::Text(s)),
        None => m3,
    }
}

pub open spec fn parse_error_prefix() -> Seq<char> {
    "现有 Codex config.toml 无法解析，未做修改: "@
}

pub open spec fn providers_not_table_error() -> Seq<char> {
    "现有 Codex config.toml 的 model_providers 不是表，未做修改"@
}

/// Adding `e` under `k` keeps every entry rendering faithfully.
proof fn lemma_insert_keeps_faithful(m: Map<Seq<char>, TomlEntry>, k: Seq<char>, e: TomlEntry)
    requires
        entries_render_faithfully(m),
        renders_faithfully(e),
    ensures
        entries_render_faithfully(m.insert(k, e)),
{
    assert forall|j: Seq<char>| #[trigger] m.insert(k, e).dom().contains(j) implies renders_faithfully(
        m.insert(k, e)[j],
    ) by {
        if j != k {
            assert(m.dom().contains(j));
        }
    }
}

/// The proxy provider's table holds strings and a boolean only.
proof fn lemma_provider_table_is_faithful(s: Settings)
    ensures
        renders_faithfully(TomlEntry::Table(proxy_provider_entries(s))),
{
    let p = proxy_provider_entries(s);
    assert forall|k: Seq<char>| #[trigger] p.dom().contains(k) implies renders_faithfully(p[k]) by {
        assert(p[k] is Text || p[k] is Flag);
    }
}

/// Placing the provider's table in a faithful table keeps it faithful.
proof fn lemma_sub_table_keeps_faithful(
    m: Map<Seq<char>, TomlEntry>,
    key: Seq<char>,
    sub: Seq<char>,
    s: Settings,
)
    requires
        entries_render_faithfully(m),
        m.dom().contains(key),
        m[key] is Table,
    ensures
        entries_render_faithfully(with_sub_table(m, key, sub, proxy_provider_entries(s))),
{
    let e = m[key]->Table_0;
    let t = TomlEntry::Table(proxy_provider_entries(s));
    assert(renders_faithfully(m[key]));
    lemma_provider_table_is_faithful(s);
    assert forall|j: Seq<char>| #[trigger] e.insert(sub, t).dom().contains(j) implies renders_faithfully(
        e.insert(sub, t)[j],
    ) by {
        if j != sub {
            assert(e.dom().contains(j));
        }
    }
    assert(renders_faithfully(TomlEntry::Table(e.insert(sub, t))));
    lemma_insert_keeps_faithful(m, key, TomlEntry::Table(e.insert(sub, t)));
}

/// Routes the Codex configuration `original` through the local proxy,
/// keeping the rest of the document (plugins, projects, marketplaces) intact.
pub fn inject_document(original: &str, config: &AppConfig) -> (r: Result<DocumentMut, String>)
    ensures
        r is Ok <==> can_inject(original@),
        r matches Ok(d) ==> toml_document_view(d) == injected_entries(
            toml_parse_view(original@)->0,
            *config,
        ),
        r matches Ok(d) ==> entries_render_faithfully(toml_document_view(d)),
        r matches Ok(d) ==> toml_renders_back(d),
        r matches Err(e) ==> (toml_parse_view(original@) is None ==> crate::text::has_prefix(
            e@,
            parse_error_prefix(),
        )),
        r matches Err(e) ==> (toml_parse_view(original@) is Some ==> e@
            == providers_not_table_error()),
{
    let mut doc = match parse_document(original) {
        Ok(d) => d,
        Err(e) => {
            let mut msg = owned("现有 Codex config.toml 无法解析，未做修改: ");
            let detail = parse_error_text(&e);
            let ghost prefix = msg@;
            msg.append(detail.as_str());
            proof {
                assert(msg@.subrange(0, prefix.len() as int) =~= prefix);
            }
            return Err(msg);
        },
    };
    let ghost m = toml_document_view(doc);
    document_set_text(&mut doc, "model_provider", "opencodex_proxy");
    proof {
        lemma_insert_keeps_faithful(m, "model_provider"@, TomlEntry::Text("opencodex_proxy"@));
    }
    let ghost m0 = toml_document_view(doc);
    document_set_text(&mut doc, "model_catalog_json", "~/.codex/model-catalogs/opencodex.json");
    proof {
        lemma_insert_keeps_faithful(
            m0,
            "model_catalog_json"@,
            TomlEntry::Text("~/.codex/model-catalogs/opencodex.json"@),
        );
    }
    let ghost m1 = toml_document_view(doc);
    assert(m1 == with_routing_keys(m));
    if !document_contains(&doc, "model_providers") {
        document_set_empty_table(&mut doc, "model_providers");
        proof {
            assert(renders_faithfully(TomlEntry::Table(no_entries())));
            lemma_insert_keeps_faithful(m1, "model_providers"@, TomlEntry::Table(no_entries()));
        }
    }
    if !document_entry_is_table(&doc, "model_providers") {
        return Err(owned("现有 Codex config.toml 的 model_providers 不是表，未做修改"));
    }
    let provider = proxy_provider_table(&config.settings);
    proof {
        let p = proxy_provider_entries(config.settings);
        assert forall|k: Seq<char>| #[trigger] p.dom().contains(k) implies (p[k] is Text
            || p[k] is Flag) by {}
        assert(flat_entries(toml_table_view(provider)));
        lemma_sub_table_keeps_faithful(
            toml_document_view(doc),
            "model_providers"@,
            "opencodex_proxy"@,
            config.settings,
        );
    }
    document_set_sub_table(&mut doc, "model_providers", "opencodex_proxy", provider);
    let current = document_text(&doc, "model");
    match choose_model(config, &current) {
        Some(slug) => {
            let ghost m3 = toml_document_view(doc);
            document_set_text(&mut doc, "model", slug.as_str());
            proof {
                lemma_insert_keeps_faithful(m3, "model"@, TomlEntry::Text(slug@));
            }
        },
        None => {},
    }
    Ok(doc)
}

/// The configuration file can be read as text: it is missing, or valid UTF-8.
pub open spec fn readable(f: Option<Seq<u8>>) -> bool {
    match f {
        Some(b) => valid_utf8(b),
        None => true,
    }
}

pub open spec fn not_text_error() -> Seq<char> {
    "现有 Codex config.toml 不是 UTF-8 文本，未做修改"@
}

/// The backup after `inject`: a copy, byte for byte, of a configuration that
/// is not injected yet (empty where it is missing); otherwise kept (or made,
/// where it is missing).
pub open spec fn backup_after_inject(config: Option<Seq<u8>>, backup: Option<Seq<u8>>) -> Option<
    Seq<u8>,
> {
    if !injected(config) {
        Some(bytes_or_empty(config))
    } else {
        backup_spec(config, backup)
    }
}

/// A successful `inject` took the files from `(config, backup)` to
/// `(new_config, new_backup)`: the backup as `backup_after_inject` says, and
/// a configuration file whose text parses to the injected entries.
pub open spec fn injection_done(
    config: Option<Seq<u8>>,
    backup: Option<Seq<u8>>,
    c: AppConfig,
    new_config: Option<Seq<u8>>,
    new_backup: Option<Seq<u8>>,
) -> bool {
    &&& readable(config)
    &&& can_inject(text_or_empty(config))
    &&& new_backup == backup_after_inject(config, backup)
    &&& new_config matches Some(b) && valid_utf8(b) && toml_parse_view(decode_utf8(b)) == Some(
        injected_entries(toml_parse_view(text_or_empty(config))->0, c),
    )
}

/// Routes Codex through the local proxy. A configuration that is not UTF-8
/// text is refused untouched. Otherwise the backup is refreshed first, from
/// a configuration that is not injected yet, so that a later restore gives
/// back the file as it was; then the configuration is rewritten with the
/// injected document, or left unchanged where it cannot be injected.
///
/// A `model_providers` that is an inline table, or anything else but a
/// table, is refused with `providers_not_table_error` and the file is left
/// as it is: `toml_edit` would accept the provider's table inside an inline
/// table but not write it out, leaving a file that names the proxy without
/// defining it, and indexing into any other item panics.
pub fn inject(files: &mut CodexFiles, config: &AppConfig) -> (r: Result<(), String>)
    ensures
        r is Ok <==> readable(bytes_of(old(files).config)) && can_inject(
            text_or_empty(bytes_of(old(files).config)),
        ),
        r is Ok ==> injection_done(
            bytes_of(old(files).config),
            bytes_of(old(files).backup),
            *config,
            bytes_of(final(files).config),
            bytes_of(final(files).backup),
        ),
        r is Err ==> bytes_of(final(files).config) == bytes_of(old(files).config),
        !readable(bytes_of(old(files).config)) ==> (r matches Err(e) && e@ == not_text_error()
            && bytes_of(final(files).backup) == bytes_of(old(files).backup)),
        readable(bytes_of(old(files).config)) ==> bytes_of(final(files).backup)
            == backup_after_inject(bytes_of(old(files).config), bytes_of(old(files).backup)),
        r matches Err(e) ==> (readable(bytes_of(old(files).config)) && toml_parse_view(
            text_or_empty(bytes_of(old(files).config)),
        ) is None ==> crate::text::has_prefix(e@, parse_error_prefix())),
        r matches Err(e) ==> (readable(bytes_of(old(files).config)) && toml_parse_view(
            text_or_empty(bytes_of(old(files).config)),
        ) is Some ==> e@ == providers_not_table_error()),
{
    let original = match &files.config {
        Some(bytes) => match utf8_text(bytes.as_slice()) {
            Some(t) => t,
            None => {
                return Err(owned("现有 Codex config.toml 不是 UTF-8 文本，未做修改"));
            },
        },
        None => String::new(),
    };
    assert(original@ == text_or_empty(bytes_of(files.config)));
    if !is_injected(&files.config) {
        let copy = match &files.config {
            Some(bytes) => vstd::slice::slice_to_vec(bytes.as_slice()),
            None => Vec::new(),
        };
        files.backup = Some(copy);
    } else if files.backup.is_none() {
        backup(files);
    }
    match inject_document(original.as_str(), config) {
        Ok(doc) => {
            let text = render_document(&doc);
            files.config = Some(text_bytes(text.as_str()));
            proof {
                vstd::utf8::encode_utf8_valid_utf8(text@);
                vstd::utf8::encode_utf8_decode_utf8(text@);
            }
            Ok(())
        },
        Err(e) => Err(e),
    }
}

// ---------------------------------------------------------------------------
// Laws
/// Restoring after an injection gives back, byte for byte, the configuration
/// as it was before it was first injected: the file itself where it was not
/// injected yet (a missing file comes back empty), else the backup that was
/// kept. Either way the backup is gone afterwards.
pub proof fn lemma_inject_then_restore_is_lossless(
    config: Option<Seq<u8>>,
    backup: Option<Seq<u8>>,
    injected_config: Option<Seq<u8>>,
)
    ensures
        !injected(config) ==> restore_spec(injected_config, backup_after_inject(config, backup))
            == (Some(bytes_or_empty(config)), None::<Seq<u8>>, true),
        injected(config) && backup is Some ==> restore_spec(
            injected_config,
            backup_after_inject(config, backup),
        ) == (backup, None::<Seq<u8>>, true),
{
}

/// The configuration as it was before it was first injected: the file
/// itself where it is not injected (empty where it is missing), else the
/// backup.
pub open spec fn original_config(config: Option<Seq<u8>>, backup: Option<Seq<u8>>) -> Seq<u8> {
    if !injected(config) {
        bytes_or_empty(config)
    } else {
        backup->0
    }
}

/// The file that a successful injection writes counts as injected.
pub proof fn lemma_injection_leaves_injected_file(
    config: Option<Seq<u8>>,
    backup: Option<Seq<u8>>,
    c: AppConfig,
    new_config: Option<Seq<u8>>,
    new_backup: Option<Seq<u8>>,
)
    requires
        injection_done(config, backup, c, new_config, new_backup),
    ensures
        injected(new_config),
        readable(new_config),
        can_inject(text_or_empty(new_config)),
{
    let m = toml_parse_view(text_or_empty(config))->0;
    lemma_injected_document_routes_to_proxy(m, c);
}

proof fn lemma_first_listed_is_listed(c: AppConfig, i: int)
    ensures
        first_listed_model_from(c.providers@, i) matches Some(s) ==> listed_model(c, s),
    decreases c.providers@.len() - i,
{
    let ps = c.providers@;
    if 0 <= i < ps.len() {
        if ps[i].enabled && first_enabled_from(ps[i].models@, 0) is Some {
            lemma_first_enabled_in_range(ps[i].models@, 0);
            let j = first_enabled_from(ps[i].models@, 0)->0;
            assert(c.providers@[i].models@[j].enabled);
        } else {
            lemma_first_listed_is_listed(c, i + 1);
        }
    }
}

/// Searching from any index up to the first routable mapping finds it.
proof fn lemma_first_routable_is_first(c: AppConfig, i: int, from: int)
    requires
        0 <= from <= i < c.mappings@.len(),
        c.mappings@[i].enabled,
        exists|k: int|
            0 <= k < c.providers@.len() && c.providers@[k].enabled && #[trigger] c.providers@[k].id@
                == c.mappings@[i].provider_id@,
        forall|j: int|
            0 <= j < i ==> !(#[trigger] c.mappings@[j].enabled && exists|k: int|
                0 <= k < c.providers@.len() && c.providers@[k].enabled && #[trigger] c.providers@[k].id@
                    == c.mappings@[j].provider_id@),
    ensures
        first_routable_from(c, from) == Some(i),
    decreases i - from,
{
    let k = choose|k: int|
        0 <= k < c.providers@.len() && c.providers@[k].enabled && #[trigger] c.providers@[k].id@
            == c.mappings@[i].provider_id@;
    assert(routable(c, c.mappings@[i]));
    if from < i {
        if routable(c, c.mappings@[from]) {
            let q = choose|q: int|
                0 <= q < c.providers@.len() && #[trigger] c.providers@[q].id@ == c.mappings@[from].provider_id@
                    && c.providers@[q].enabled;
            assert(c.providers@[q].enabled && c.providers@[q].id@ == c.mappings@[from].provider_id@);
            assert(false);
        }
        lemma_first_routable_is_first(c, i, from + 1);
    }
}

/// When some mapping is enabled and points at an enabled provider, the
/// injected configuration names as its `model` the Codex model of the first
/// such mapping, whatever model it named before; and that model is one the
/// sidecar routes and the catalog lists.
pub proof fn lemma_injection_selects_the_first_routed_alias(
    m: Map<Seq<char>, TomlEntry>,
    c: AppConfig,
    i: int,
)
    requires
        0 <= i < c.mappings@.len(),
        c.mappings@[i].enabled,
        exists|k: int|
            0 <= k < c.providers@.len() && c.providers@[k].enabled && #[trigger] c.providers@[k].id@
                == c.mappings@[i].provider_id@,
        forall|j: int|
            0 <= j < i ==> !(#[trigger] c.mappings@[j].enabled && exists|k: int|
                0 <= k < c.providers@.len() && c.providers@[k].enabled && #[trigger] c.providers@[k].id@
                    == c.mappings@[j].provider_id@),
    ensures
        text_entry(injected_entries(m, c), "model"@) == Some(c.mappings@[i].codex_model@),
        crate::sidecar::last_route(c, c.mappings@[i].codex_model@, c.mappings@.len() as int) is Some,
        crate::catalog::last_routable_alias(
            c,
            c.mappings@[i].codex_model@,
            c.mappings@.len() as int,
        ) is Some,
{
    lemma_first_routable_is_first(c, i, 0);
    lemma_route_exists(c, i, c.mappings@.len() as int);
}

proof fn lemma_route_exists(c: AppConfig, i: int, n: int)
    requires
        0 <= i < n <= c.mappings@.len(),
        routable(c, c.mappings@[i]),
    ensures
        crate::sidecar::last_route(c, c.mappings@[i].codex_model@, n) is Some,
        crate::catalog::last_routable_alias(c, c.mappings@[i].codex_model@, n) is Some,
    decreases n,
{
    if n - 1 != i {
        lemma_route_exists(c, i, n - 1);
    }
}

/// Injecting an injected document again changes nothing.
pub proof fn lemma_injection_is_idempotent(m: Map<Seq<char>, TomlEntry>, c: AppConfig)
    requires
        injectable(m),
    ensures
        injectable(injected_entries(m, c)),
        injected_entries(injected_entries(m, c), c) == injected_entries(m, c),
{
    reveal_strlit("model");
    reveal_strlit("model_provider");
    reveal_strlit("model_providers");
    reveal_strlit("model_catalog_json");
    reveal_strlit("opencodex_proxy");
    assert("model"@.len() != "model_providers"@.len());
    assert("model"@.len() != "model_provider"@.len());
    assert("model"@.len() != "model_catalog_json"@.len());
    assert("model_providers"@.len() != "model_provider"@.len());
    assert("model_providers"@.len() != "model_catalog_json"@.len());
    assert("model_provider"@.len() != "model_catalog_json"@.len());
    lemma_first_listed_is_listed(c, 0);
    let p = proxy_provider_entries(c.settings);
    let m1 = with_routing_keys(m);
    let m2 = if m1.dom().contains("model_providers"@) {
        m1
    } else {
        m1.insert("model_providers"@, TomlEntry::Table(no_entries()))
    };
    let m3 = with_sub_table(m2, "model_providers"@, "opencodex_proxy"@, p);
    let once = injected_entries(m, c);
    let n1 = with_routing_keys(once);
    assert(n1 =~= once);
    let t = once["model_providers"@]->Table_0;
    assert(t.insert("opencodex_proxy"@, TomlEntry::Table(p)) =~= t);
    let n3 = with_sub_table(n1, "model_providers"@, "opencodex_proxy"@, p);
    assert(n3 =~= once);
    match chosen_model(c, text_entry(m3, "model"@)) {
        Some(s) => {
            assert(text_entry(n3, "model"@) == Some(s));
            assert(chosen_model(c, Some(s)) is None || chosen_model(c, Some(s)) == Some(s));
            assert(once.insert("model"@, TomlEntry::Text(s)) =~= once);
        },
        None => {
            assert(text_entry(n3, "model"@) == text_entry(m3, "model"@));
        },
    }
}

/// Injecting an injected configuration again keeps the backup and writes a
/// file that parses to the same entries.
pub proof fn lemma_reinjection_changes_nothing(
    config: Option<Seq<u8>>,
    backup: Option<Seq<u8>>,
    c: AppConfig,
    once: Option<Seq<u8>>,
    backup_once: Option<Seq<u8>>,
    twice: Option<Seq<u8>>,
    backup_twice: Option<Seq<u8>>,
)
    requires
        injection_done(config, backup, c, once, backup_once),
        injection_done(once, backup_once, c, twice, backup_twice),
    ensures
        backup_twice == backup_once,
        toml_parse_view(text_or_empty(twice)) == toml_parse_view(text_or_empty(once)),
{
    lemma_injection_leaves_injected_file(config, backup, c, once, backup_once);
    lemma_injection_is_idempotent(toml_parse_view(text_or_empty(config))->0, c);
}

/// After `k` injections the backup holds the configuration as it was before
/// the first one.
proof fn lemma_backup_after_injections(
    configs: Seq<Option<Seq<u8>>>,
    backups: Seq<Option<Seq<u8>>>,
    cs: Seq<AppConfig>,
    k: int,
)
    requires
        1 <= k <= cs.len(),
        configs.len() == cs.len() + 1,
        backups.len() == cs.len() + 1,
        !injected(configs[0]) || backups[0] is Some,
        forall|i: int|
            0 <= i < cs.len() ==> #[trigger] injection_done(
                configs[i],
                backups[i],
                cs[i],
                configs[i + 1],
                backups[i + 1],
            ),
    ensures
        backups[k] == Some(original_config(configs[0], backups[0])),
    decreases k,
{
    let j = k - 1;
    assert(injection_done(configs[j], backups[j], cs[j], configs[j + 1], backups[j + 1]));
    assert(j + 1 == k);
    if k > 1 {
        let h = k - 2;
        lemma_backup_after_injections(configs, backups, cs, k - 1);
        assert(injection_done(configs[h], backups[h], cs[h], configs[h + 1], backups[h + 1]));
        assert(h + 1 == j);
        lemma_injection_leaves_injected_file(configs[h], backups[h], cs[h], configs[j], backups[j]);
    }
}

/// Injecting any number of times (with any configuration each time), then
/// restoring, gives back byte for byte the Codex configuration as it was
/// before the first injection, and removes the backup. `configs[i]` and
/// `backups[i]` are the files before injection `i`; the last ones are what
/// the restore finds. A configuration that is injected already needs a
/// backup to go back to.
pub proof fn lemma_injections_then_restore_is_lossless(
    configs: Seq<Option<Seq<u8>>>,
    backups: Seq<Option<Seq<u8>>>,
    cs: Seq<AppConfig>,
)
    requires
        cs.len() >= 1,
        configs.len() == cs.len() + 1,
        backups.len() == cs.len() + 1,
        !injected(configs[0]) || backups[0] is Some,
        forall|i: int|
            0 <= i < cs.len() ==> #[trigger] injection_done(
                configs[i],
                backups[i],
                cs[i],
                configs[i + 1],
                backups[i + 1],
            ),
    ensures
        restore_spec(configs.last(), backups.last()) == (
            Some(original_config(configs[0], backups[0])),
            None::<Seq<u8>>,
            true,
        ),
{
    lemma_backup_after_injections(configs, backups, cs, cs.len() as int);
}

/// A restore without a backup refuses to touch an injected configuration,
/// and changes nothing otherwise.
pub proof fn lemma_restore_without_backup_keeps_config(config: Option<Seq<u8>>)
    ensures
        restore_spec(config, None).0 == config,
        restore_spec(config, None).2 == !injected(config),
{
}

/// The injected document routes Codex through the proxy: it names the proxy
/// as model provider, points at the local model catalog and defines the
/// provider.
pub proof fn lemma_injected_document_routes_to_proxy(m: Map<Seq<char>, TomlEntry>, c: AppConfig)
    requires
        injectable(m),
    ensures
        routes_to_proxy(injected_entries(m, c)),
        injected_entries(m, c)["model_providers"@] matches TomlEntry::Table(t) && t["opencodex_proxy"@]
            == TomlEntry::Table(proxy_provider_entries(c.settings)),
        text_entry(injected_entries(m, c), "model_provider"@) == Some("opencodex_proxy"@),
        text_entry(injected_entries(m, c), "model_catalog_json"@) == Some(
            "~/.codex/model-catalogs/opencodex.json"@,
        ),
{
    reveal_strlit("model");
    reveal_strlit("model_provider");
    reveal_strlit("model_providers");
    reveal_strlit("model_catalog_json");
    assert("model"@ != "model_providers"@ && "model"@ != "model_provider"@ && "model"@
        != "model_catalog_json"@) by {
        assert("model"@.len() != "model_providers"@.len());
        assert("model"@.len() != "model_provider"@.len());
        assert("model"@.len() != "model_catalog_json"@.len());
    }
    assert("model_providers"@ != "model_provider"@ && "model_providers"@
        != "model_catalog_json"@ && "model_provider"@ != "model_catalog_json"@) by {
        assert("model_providers"@.len() != "model_provider"@.len());
        assert("model_providers"@.len() != "model_catalog_json"@.len());
        assert("model_provider"@.len() != "model_catalog_json"@.len());
    }
    let m1 = with_routing_keys(m);
    let m2 = if m1.dom().contains("model_providers"@) {
        m1
    } else {
        m1.insert("model_providers"@, TomlEntry::Table(no_entries()))
    };
    let m3 = with_sub_table(m2, "model_providers"@, "opencodex_proxy"@, proxy_provider_entries(c.settings));
    assert(routes_to_proxy(m3));
    assert(text_entry(m3, "model_provider"@) == Some("opencodex_proxy"@));
    assert(text_entry(m3, "model_catalog_json"@) == Some("~/.codex/model-catalogs/opencodex.json"@));
}

/// Every entry of the Codex configuration other than `model_provider`,
/// `model_catalog_json`, `model_providers` and `model` survives the
/// injection unchanged.
pub proof fn lemma_injection_keeps_other_entries(
    m: Map<Seq<char>, TomlEntry>,
    c: AppConfig,
    key: Seq<char>,
)
    requires
        key != "model_provider"@,
        key != "model_catalog_json"@,
        key != "model_providers"@,
        key != "model"@,
    ensures
        injected_entries(m, c).dom().contains(key) == m.dom().contains(key),
        m.dom().contains(key) ==> injected_entries(m, c)[key] == m[key],
{
}

/// The other model providers of the Codex configuration survive the
/// injection unchanged.
pub proof fn lemma_injection_keeps_other_providers(
    m: Map<Seq<char>, TomlEntry>,
    c: AppConfig,
    sub: Seq<char>,
)
    requires
        injectable(m),
        sub != "opencodex_proxy"@,
    ensures
        has_sub_entry(injected_entries(m, c), "model_providers"@, sub) == has_sub_entry(
            m,
            "model_providers"@,
            sub,
        ),
        has_sub_entry(m, "model_providers"@, sub) ==> (m["model_providers"@] matches TomlEntry::Table(t0)
            && injected_entries(m, c)["model_providers"@] matches TomlEntry::Table(t)
            && t[sub] == t0[sub]),
{
    reveal_strlit("model");
    reveal_strlit("model_provider");
    reveal_strlit("model_providers");
    reveal_strlit("model_catalog_json");
    assert("model"@.len() != "model_providers"@.len());
    assert("model_providers"@.len() != "model_provider"@.len());
    assert("model_providers"@.len() != "model_catalog_json"@.len());
}

// ---------------------------------------------------------------------------
// The app-server wrapper and (re)launching Codex
/// The Node script that stands between Codex Desktop and its app server: it
/// fills in an empty provider filter on `thread/list`, so that threads of
/// every provider stay listed, and forwards everything else unchanged.
pub const APP_SERVER_WRAPPER_JS: &'static str = r#"const { spawn } = require("node:child_process");
const readline = require("node:readline");

const realCodex = process.env.OPENCODEX_REAL_CODEX_PATH;
if (!realCodex) {
  console.error("OPENCODEX_REAL_CODEX_PATH is not set");
  process.exit(1);
}

const args = process.argv.slice(2);
const child = spawn(realCodex, args, { stdio: ["pipe", "pipe", "inherit"] });
child.stdout.pipe(process.stdout);

if (args.includes("app-server")) {
  const input = readline.createInterface({ input: process.stdin, crlfDelay: Infinity });
  input.on("line", (line) => {
    try {
      const message = JSON.parse(line);
      if (message.method === "thread/list" && message.params?.modelProviders == null) {
        message.params = { ...message.params, modelProviders: [] };
        line = JSON.stringify(message);
      }
    } catch {
      // Forward non-JSON input unchanged.
    }
    child.stdin.write(`${line}\n`);
  });
  input.on("close", () => child.stdin.end());
} else {
  process.stdin.pipe(child.stdin);
}

let shuttingDown = false;
for (const signal of ["SIGINT", "SIGTERM", "SIGHUP"]) {
  process.on(signal, () => {
    if (shuttingDown) return;
    shuttingDown = true;
    child.kill(signal);
    setTimeout(() => {
      child.kill("SIGKILL");
      process.exit(0);
    }, 1000).unref();
  });
}
child.on("exit", (code, signal) => {
  process.exit(code ?? (signal ? 1 : 0));
});
"#;

/// The shell launcher that runs the wrapper script with Codex's own Node.
pub const APP_SERVER_WRAPPER_SH: &'static str = r#"#!/bin/sh
exec "$OPENCODEX_NODE_PATH" "$OPENCODEX_WRAPPER_JS_PATH" "$@"
"#;

/// Where the wrapper's launcher and script are written.
#[derive(Debug)]
pub struct AppServerWrapper {
    launcher: String,
    script: String,
}

impl Clone for AppServerWrapper {
    fn clone(&self) -> (r: Self)
        ensures
            r == *self,
    {
        AppServerWrapper { launcher: self.launcher.clone(), script: self.script.clone() }
    }
}

impl AppServerWrapper {
    pub closed spec fn launcher_view(&self) -> Seq<char> {
        self.launcher@
    }

    pub closed spec fn script_view(&self) -> Seq<char> {
        self.script@
    }

    /// The path of the launcher.
    pub fn launcher(&self) -> (r: &str)
        ensures
            r@ == self.launcher_view(),
    {
        self.launcher.as_str()
    }

    /// The path of the script.
    pub fn script(&self) -> (r: &str)
        ensures
            r@ == self.script_view(),
    {
        self.script.as_str()
    }
}

/// The wrapper's files inside `data_dir`.
pub fn app_server_wrapper(data_dir: &str) -> (r: AppServerWrapper)
    ensures
        r.launcher_view() == join_spec(data_dir@, "codex-app-server-wrapper.sh"@),
        r.script_view() == join_spec(data_dir@, "codex-app-server-wrapper.cjs"@),
{
    AppServerWrapper {
        launcher: join_path(data_dir, "codex-app-server-wrapper.sh"),
        script: join_path(data_dir, "codex-app-server-wrapper.cjs"),
    }
}

/// The names under which Codex Desktop is installed on macOS, in the order
/// they are tried (it ships as ChatGPT.app).
pub fn macos_codex_apps() -> (r: Vec<&'static str>)
    ensures
        r@.len() == 2,
        r@[0]@ == "ChatGPT"@,
        r@[1]@ == "Codex"@,
{
    vec!["ChatGPT", "Codex"]
}

/// `/Applications/{name}.app`.
pub fn app_bundle_path(name: &str) -> (r: String)
    ensures
        r@ == join_spec("/Applications"@, name@ + ".app"@),
{
    let mut bundle = owned(name);
    bundle.append(".app");
    join_path("/Applications", bundle.as_str())
}

/// `{key}={value}`.
fn env_assignment(key: &str, value: &str) -> (r: String)
    ensures
        r@ == key@ + "="@ + value@,
{
    let mut s = owned(key);
    s.append("=");
    s.append(value);
    s
}

pub open spec fn resources_dir(app_path: Seq<char>) -> Seq<char> {
    join_spec(join_spec(app_path, "Contents"@), "Resources"@)
}

/// The arguments of `open` that start app `name` at `app_path`, with the
/// app-server wrapper in place where one is given: Codex's CLI path points at
/// the launcher, which finds the script, the real `codex` binary and Node in
/// the app's resources.
pub open spec fn launch_args_spec(
    app_path: Seq<char>,
    name: Seq<char>,
    wrapper: Option<(Seq<char>, Seq<char>)>,
) -> Seq<Seq<char>> {
    let tail = seq!["-a"@, name];
    match wrapper {
        Some((launcher, script)) => seq![
            "--env"@,
            "CODEX_CLI_PATH"@ + "="@ + launcher,
            "--env"@,
            "OPENCODEX_WRAPPER_JS_PATH"@ + "="@ + script,
            "--env"@,
            "OPENCODEX_REAL_CODEX_PATH"@ + "="@ + join_spec(resources_dir(app_path), "codex"@),
            "--env"@,
            "OPENCODEX_NODE_PATH"@ + "="@ + join_spec(
                join_spec(join_spec(resources_dir(app_path), "cua_node"@), "bin"@),
                "node"@,
            ),
        ] + tail,
        None => tail,
    }
}

pub open spec fn wrapper_view(w: Option<&AppServerWrapper>) -> Option<(Seq<char>, Seq<char>)> {
    match w {
        Some(x) => Some((x.launcher_view(), x.script_view())),
        None => None,
    }
}

/// The arguments of `open` for app `name` installed at `app_path`.
pub fn launch_args(app_path: &str, name: &str, wrapper: Option<&AppServerWrapper>) -> (r: Vec<
    String,
>)
    ensures
        r@.map_values(|a: String| a@) == launch_args_spec(app_path@, name@, wrapper_view(wrapper)),
{
    let mut args: Vec<String> = Vec::new();
    match wrapper {
        Some(w) => {
            let contents = join_path(app_path, "Contents");
            let resources = join_path(contents.as_str(), "Resources");
            let real_codex = join_path(resources.as_str(), "codex");
            let node_dir = join_path(resources.as_str(), "cua_node");
            let node_bin = join_path(node_dir.as_str(), "bin");
            let node = join_path(node_bin.as_str(), "node");
            args.push(owned("--env"));
            args.push(env_assignment("CODEX_CLI_PATH", w.launcher()));
            args.push(owned("--env"));
            args.push(env_assignment("OPENCODEX_WRAPPER_JS_PATH", w.script()));
            args.push(owned("--env"));
            args.push(env_assignment("OPENCODEX_REAL_CODEX_PATH", real_codex.as_str()));
            args.push(owned("--env"));
            args.push(env_assignment("OPENCODEX_NODE_PATH", node.as_str()));
            assert(args@.map_values(|a: String| a@) =~= seq![
                "--env"@,
                "CODEX_CLI_PATH"@ + "="@ + w.launcher_view(),
                "--env"@,
                "OPENCODEX_WRAPPER_JS_PATH"@ + "="@ + w.script_view(),
                "--env"@,
                "OPENCODEX_REAL_CODEX_PATH"@ + "="@ + join_spec(resources_dir(app_path@), "codex"@),
                "--env"@,
                "OPENCODEX_NODE_PATH"@ + "="@ + join_spec(
                    join_spec(join_spec(resources_dir(app_path@), "cua_node"@), "bin"@),
                    "node"@,
                ),
            ]);
        },
        None => {
            assert(args@.map_values(|a: String| a@) =~= Seq::<Seq<char>>::empty());
        },
    }
    let ghost head = args@.map_values(|a: String| a@);
    args.push(owned("-a"));
    args.push(owned(name));
    assert(args@.map_values(|a: String| a@) =~= head + seq!["-a"@, name@]);
    args
}

/// How a run of `open` went.
#[derive(Debug)]
pub enum OpenOutcome {
    /// It exited successfully.
    Succeeded,
    /// It exited unsuccessfully, with this status text.
    Failed(String),
    /// It could not be run, with this error text.
    NotRun(String),
}

/// The note kept of a failed attempt to open app `name`, for the final error.
pub fn launch_attempt_error(name: &str, outcome: &OpenOutcome) -> (r: Option<String>)
    ensures
        match outcome {
            OpenOutcome::Succeeded => r is None,
            OpenOutcome::Failed(status) => r matches Some(e) && e@ == name@ + ": open "@ + status@,
            OpenOutcome::NotRun(err) => r matches Some(e) && e@ == name@ + ": "@ + err@,
        },
{
    match outcome {
        OpenOutcome::Succeeded => None,
        OpenOutcome::Failed(status) => {
            let mut e = owned(name);
            e.append(": open ");
            e.append(status.as_str());
            Some(e)
        },
        OpenOutcome::NotRun(err) => {
            let mut e = owned(name);
            e.append(": ");
            e.append(err.as_str());
            Some(e)
        },
    }
}

/// The outcome of the last resort, opening Codex by its bundle id: it cannot
/// install the wrapper (the app's path is unknown), so with a wrapper it
/// fails whatever happened.
pub open spec fn bundle_launch_spec(outcome: OpenOutcome, with_wrapper: bool, last_err: Seq<char>) -> Result<(), Seq<char>> {
    match outcome {
        OpenOutcome::Succeeded => if with_wrapper {
            Err("重启 Codex 失败：无法定位应用路径以安装历史记录兼容 wrapper；"@ + last_err)
        } else {
            Ok(())
        },
        OpenOutcome::Failed(status) => if with_wrapper {
            Err("重启 Codex 失败：无法定位应用路径以安装历史记录兼容 wrapper；"@ + last_err)
        } else {
            Err("重启 Codex 失败: open "@ + status@ + "; "@ + last_err)
        },
        OpenOutcome::NotRun(err) => Err(
            "重启 Codex 失败（已尝试 ChatGPT/Codex/bundle id）: "@ + last_err + "; "@ + err@,
        ),
    }
}

/// The result of opening Codex by bundle id, after the named apps failed
/// with `last_err`.
pub fn bundle_launch_result(outcome: &OpenOutcome, with_wrapper: bool, last_err: &str) -> (r: Result<
    (),
    String,
>)
    ensures
        match (r, bundle_launch_spec(*outcome, with_wrapper, last_err@)) {
            (Ok(()), Ok(())) => true,
            (Err(e), Err(f)) => e@ == f,
            _ => false,
        },
{
    match outcome {
        OpenOutcome::NotRun(err) => {
            let mut e = owned("重启 Codex 失败（已尝试 ChatGPT/Codex/bundle id）: ");
            e.append(last_err);
            e.append("; ");
            e.append(err.as_str());
            Err(e)
        },
        _ => {
            if with_wrapper {
                let mut e = owned("重启 Codex 失败：无法定位应用路径以安装历史记录兼容 wrapper；");
                e.append(last_err);
                Err(e)
            } else {
                match outcome {
                    OpenOutcome::Failed(status) => {
                        let mut e = owned("重启 Codex 失败: open ");
                        e.append(status.as_str());
                        e.append("; ");
                        e.append(last_err);
                        Err(e)
                    },
                    _ => Ok(()),
                }
            }
        },
    }
}

/// How many times the quitting app is looked for before giving up.
pub const QUIT_CHECKS: u32 = 50;

/// What to do after a look at whether Codex still runs.
#[derive(Debug, PartialEq, Eq)]
pub enum QuitStep {
    /// It has quit: pause a little longer for it to finish, then succeed.
    SettleThenDone,
    /// It still runs: pause, then look again.
    Wait,
    /// It still runs after every look: fail with this error, without forcing it.
    GiveUp(String),
}

/// The error when Codex does not quit: forcing it could lose its login and history.
pub open spec fn quit_refused_error() -> Seq<char> {
    "Codex 未能正常退出；为保护登录状态和历史记录，已取消强制终止，请手动退出后重试"@
}

/// One look (number `check`, from 0) at whether Codex still runs after it
/// was asked to quit.
pub fn quit_step(check: u32, running: bool) -> (r: QuitStep)
    requires
        check < QUIT_CHECKS,
    ensures
        !running ==> r is SettleThenDone,
        running && check + 1 < QUIT_CHECKS ==> r is Wait,
        running && check + 1 == QUIT_CHECKS ==> (r matches QuitStep::GiveUp(e) && e@
            == quit_refused_error()),
{
    if !running {
        QuitStep::SettleThenDone
    } else if check + 1 < QUIT_CHECKS {
        QuitStep::Wait
    } else {
        QuitStep::GiveUp(
            owned("Codex 未能正常退出；为保护登录状态和历史记录，已取消强制终止，请手动退出后重试"),
        )
    }
}

/// Where the safety backup of the Codex configuration is kept, inside the
/// application's data directory.
pub fn codex_backup_path(data_dir: &str) -> (r: String)
    ensures
        r@ == join_spec(data_dir@, "codex-config.backup.toml"@),
{
    join_path(data_dir, "codex-config.backup.toml")
}

} // verus!
