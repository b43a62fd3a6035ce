//! The local model catalog that Codex reads: one entry per advertised alias.
use crate::config::{
    is_routable, routable, AppConfig, Mapping, ModelConfig, Provider,
    DEFAULT_CONTEXT_WINDOW,
};
use crate::keyed::{key_at, keys_sorted, lemma_lookup_at, lookup, upsert};
use crate::json::{
    json_copy, json_error_text, json_from_count, json_from_flag, json_from_items, json_from_text,
    json_is_object, json_items, json_member, json_nesting_limit, json_parse_view, json_pretty,
    json_set_member, json_text_member, json_value_view, json_views, nests_within, parse_json,
    text_member, JsonNode,
};
use crate::text::{has_prefix, owned, same_text};
use serde_json::Value;
use vstd::prelude::*;
use vstd::string::*;

verus! {

/// The index of the first provider with id `id`, from index `i` on.
pub open spec fn first_provider_from(ps: Seq<Provider>, id: Seq<char>, i: int) -> Option<int>
    decreases ps.len() - i,
{
    if i < 0 || i >= ps.len() {
        None
    } else if ps[i].id@ == id {
        Some(i)
    } else {
        first_provider_from(ps, id, i + 1)
    }
}

/// `providers.iter().find(|p| p.id == id)`, as an index.
pub open spec fn first_provider(c: AppConfig, id: Seq<char>) -> Option<int> {
    first_provider_from(c.providers@, id, 0)
}

/// The index of the first model with id `id`, from index `i` on.
pub open spec fn first_model_from(ms: Seq<ModelConfig>, id: Seq<char>, i: int) -> Option<int>
    decreases ms.len() - i,
{
    if i < 0 || i >= ms.len() {
        None
    } else if ms[i].id@ == id {
        Some(i)
    } else {
        first_model_from(ms, id, i + 1)
    }
}

/// The name under which Codex lists mapping `m`: `provider name:upstream model`.
pub open spec fn catalog_display(c: AppConfig, m: Mapping) -> Seq<char> {
    match first_provider(c, m.provider_id@) {
        Some(k) => c.providers@[k].name@ + ":"@ + m.upstream_model@,
        None => m.upstream_model@,
    }
}

/// The context window advertised for mapping `m`: that of the upstream model
/// in its provider, else the default.
pub open spec fn catalog_context(c: AppConfig, m: Mapping) -> u64 {
    match first_provider(c, m.provider_id@) {
        Some(k) => match first_model_from(c.providers@[k].models@, m.upstream_model@, 0) {
            Some(j) => c.providers@[k].models@[j].context_window,
            None => DEFAULT_CONTEXT_WINDOW,
        },
        None => DEFAULT_CONTEXT_WINDOW,
    }
}

/// The last routable mapping before index `n` that advertises `slug`.
pub open spec fn last_routable_alias(c: AppConfig, slug: Seq<char>, n: int) -> Option<int>
    decreases n,
{
    if n <= 0 || n > c.mappings@.len() {
        None
    } else if routable(c, c.mappings@[n - 1]) && c.mappings@[n - 1].codex_model@ == slug {
        Some(n - 1)
    } else {
        last_routable_alias(c, slug, n - 1)
    }
}

/// What Codex is told of one advertised alias.
#[derive(Debug)]
pub struct CatalogEntry {
    pub display_name: String,
    pub context_window: u64,
}

/// `e` describes mapping number `j`.
pub open spec fn describes(c: AppConfig, e: CatalogEntry, j: int) -> bool {
    &&& e.display_name@ == catalog_display(c, c.mappings@[j])
    &&& e.context_window == catalog_context(c, c.mappings@[j])
}

/// The catalog's view of the aliases: `slug` is advertised exactly when some
/// routable mapping names it, and the last such mapping describes it.
pub open spec fn catalog_matches(c: AppConfig, s: Seq<(String, CatalogEntry)>, n: int) -> bool {
    forall|slug: Seq<char>|
        match #[trigger] lookup(s, slug) {
            Some(e) => match last_routable_alias(c, slug, n) {
                Some(j) => describes(c, e, j),
                None => false,
            },
            None => last_routable_alias(c, slug, n) is None,
        }
}

/// `providers.iter().position(|p| p.id == id)`.
pub fn find_provider(config: &AppConfig, id: &str) -> (r: Option<usize>)
    ensures
        r matches Some(k) ==> first_provider(*config, id@) == Some(k as int),
        r is None ==> first_provider(*config, id@) is None,
{
    let n = config.providers.len();
    let mut i: usize = 0;
    while i < n
        invariant
            n == config.providers@.len(),
            i <= n,
            first_provider(*config, id@) == first_provider_from(config.providers@, id@, i as int),
        decreases n - i,
    {
        if same_text(config.providers[i].id.as_str(), id) {
            return Some(i);
        }
        i = i + 1;
    }
    None
}

/// `models.iter().position(|m| m.id == id)`.
pub fn find_model(models: &Vec<ModelConfig>, id: &str) -> (r: Option<usize>)
    ensures
        r matches Some(k) ==> first_model_from(models@, id@, 0) == Some(k as int),
        r is None ==> first_model_from(models@, id@, 0) is None,
{
    let n = models.len();
    let mut i: usize = 0;
    while i < n
        invariant
            n == models@.len(),
            i <= n,
            first_model_from(models@, id@, 0) == first_model_from(models@, id@, i as int),
        decreases n - i,
    {
        if same_text(models[i].id.as_str(), id) {
            return Some(i);
        }
        i = i + 1;
    }
    None
}

pub proof fn lemma_first_provider_in_range(ps: Seq<Provider>, id: Seq<char>, i: int)
    ensures
        first_provider_from(ps, id, i) matches Some(k) ==> 0 <= k < ps.len() && ps[k].id@ == id,
    decreases ps.len() - i,
{
    if 0 <= i < ps.len() && ps[i].id@ != id {
        lemma_first_provider_in_range(ps, id, i + 1);
    }
}

proof fn lemma_first_model_in_range(ms: Seq<ModelConfig>, id: Seq<char>, i: int)
    ensures
        first_model_from(ms, id, i) matches Some(k) ==> 0 <= k < ms.len() && ms[k].id@ == id,
    decreases ms.len() - i,
{
    if 0 <= i < ms.len() && ms[i].id@ != id {
        lemma_first_model_in_range(ms, id, i + 1);
    }
}

/// The entry that Codex sees for mapping `m`.
pub fn describe_mapping(config: &AppConfig, m: &Mapping) -> (r: CatalogEntry)
    ensures
        r.display_name@ == catalog_display(*config, *m),
        r.context_window == catalog_context(*config, *m),
{
    match find_provider(config, m.provider_id.as_str()) {
        Some(k) => {
            proof {
                lemma_first_provider_in_range(config.providers@, m.provider_id@, 0);
            }
            let p = &config.providers[k];
            let mut display = p.name.clone();
            display.append(":");
            display.append(m.upstream_model.as_str());
            let context = match find_model(&p.models, m.upstream_model.as_str()) {
                Some(j) => {
                    proof {
                        lemma_first_model_in_range(p.models@, m.upstream_model@, 0);
                    }
                    p.models[j].context_window
                },
                None => DEFAULT_CONTEXT_WINDOW,
            };
            CatalogEntry { display_name: display, context_window: context }
        },
        None => CatalogEntry {
            display_name: m.upstream_model.clone(),
            context_window: DEFAULT_CONTEXT_WINDOW,
        },
    }
}

/// The aliases that Codex is shown, in ascending order: one per distinct
/// `codex_model` of a routable mapping, described by the last such mapping.
/// Raw provider model ids are not advertised.
pub fn catalog_entries(config: &AppConfig) -> (r: Vec<(String, CatalogEntry)>)
    ensures
        keys_sorted(r@),
        catalog_matches(*config, r@, config.mappings@.len() as int),
{
    let mut out: Vec<(String, CatalogEntry)> = Vec::new();
    let n = config.mappings.len();
    for i in 0..n
        invariant
            n == config.mappings@.len(),
            keys_sorted(out@),
            catalog_matches(*config, out@, i as int),
    {
        let m = &config.mappings[i];
        let ghost before = out@;
        if is_routable(config, m) {
            let e = describe_mapping(config, m);
            upsert(&mut out, m.codex_model.clone(), e, true);
            proof {
                assert forall|slug: Seq<char>|
                    match #[trigger] lookup(out@, slug) {
                        Some(e) => match last_routable_alias(*config, slug, i + 1) {
                            Some(j) => describes(*config, e, j),
                            None => false,
                        },
                        None => last_routable_alias(*config, slug, i + 1) is None,
                    } by {
                    if slug != m.codex_model@ {
                        assert(lookup(out@, slug) == lookup(before, slug));
                    }
                }
            }
        } else {
            proof {
                assert forall|slug: Seq<char>|
                    match #[trigger] lookup(out@, slug) {
                        Some(e) => match last_routable_alias(*config, slug, i + 1) {
                            Some(j) => describes(*config, e, j),
                            None => false,
                        },
                        None => last_routable_alias(*config, slug, i + 1) is None,
                    } by {
                    assert(lookup(out@, slug) == lookup(before, slug));
                }
            }
        }
    }
    out
}

proof fn lemma_routable_alias_found(c: AppConfig, k: int, n: int)
    requires
        0 <= k < n <= c.mappings@.len(),
        routable(c, c.mappings@[k]),
    ensures
        last_routable_alias(c, c.mappings@[k].codex_model@, n) is Some,
    decreases n,
{
    if n - 1 != k && !(routable(c, c.mappings@[n - 1]) && c.mappings@[n - 1].codex_model@
        == c.mappings@[k].codex_model@) {
        lemma_routable_alias_found(c, k, n - 1);
    }
}

/// The slugs, as text.
pub open spec fn slug_views(slugs: Seq<Option<String>>) -> Seq<Option<Seq<char>>> {
    slugs.map_values(
        |o: Option<String>|
            match o {
                Some(t) => Some(t@),
                None => None,
            },
    )
}

/// The last index before `n` whose template model has slug `slug`.
pub open spec fn template_slot_from(slugs: Seq<Option<Seq<char>>>, slug: Seq<char>, n: int) -> Option<
    int,
>
    decreases n,
{
    if n <= 0 || n > slugs.len() {
        None
    } else if slugs[n - 1] == Some(slug) {
        Some(n - 1)
    } else {
        template_slot_from(slugs, slug, n - 1)
    }
}

/// The template model that an alias starts from: the (last) one with the same
/// slug, else the first.
pub open spec fn template_slot(slugs: Seq<Option<Seq<char>>>, slug: Seq<char>) -> int {
    match template_slot_from(slugs, slug, slugs.len() as int) {
        Some(t) => t,
        None => 0,
    }
}

fn find_template(slugs: &Vec<Option<String>>, slug: &str) -> (r: usize)
    requires
        slugs@.len() > 0,
    ensures
        r == template_slot(slug_views(slugs@), slug@),
        r < slugs@.len(),
{
    let mut n = slugs.len();
    while n > 0
        invariant
            n <= slugs@.len(),
            slugs@.len() > 0,
            template_slot_from(slug_views(slugs@), slug@, slugs@.len() as int) == template_slot_from(
                slug_views(slugs@),
                slug@,
                n as int,
            ),
        decreases n,
    {
        match &slugs[n - 1] {
            Some(t) => {
                if same_text(t.as_str(), slug) {
                    return n - 1;
                }
            },
            None => {},
        }
        n = n - 1;
    }
    0
}

/// One model of the catalog that is written for Codex.
#[derive(Debug)]
pub struct CatalogModel {
    pub slug: String,
    pub display_name: String,
    pub context_window: u64,
    /// The template model whose remaining fields the entry keeps.
    pub template: usize,
}

/// `v` lists the advertised aliases of `c` in ascending order, each described
/// by the last routable mapping that names it and built on its template.
pub open spec fn catalog_plan(c: AppConfig, slugs: Seq<Option<Seq<char>>>, v: Seq<CatalogModel>) -> bool {
    &&& forall|a: int, b: int| 0 <= a < b < v.len() ==> crate::text::text_lt(#[trigger] v[a].slug@, #[trigger] v[b].slug@)
    &&& forall|a: int| 0 <= a < v.len() ==> {
        let e = #[trigger] v[a];
        &&& last_routable_alias(c, e.slug@, c.mappings@.len() as int) matches Some(j)
        &&& e.display_name@ == catalog_display(c, c.mappings@[j])
        &&& e.context_window == catalog_context(c, c.mappings@[j])
        &&& e.template == template_slot(slugs, e.slug@)
        &&& e.template < slugs.len()
    }
    &&& forall|k: int|
        0 <= k < c.mappings@.len() && routable(c, #[trigger] c.mappings@[k]) ==> exists|a: int|
            0 <= a < v.len() && #[trigger] v[a].slug@ == c.mappings@[k].codex_model@
}

/// The models of the catalog that Codex is pointed at. `template_slugs` holds
/// the slug of each model of the built-in template, in order; an alias keeps
/// the template model with its slug, else the first one. Fails when the
/// template holds no model.
pub fn update_model_catalog(config: &AppConfig, template_slugs: &Vec<Option<String>>) -> (r: Result<
    Vec<CatalogModel>,
    String,
>)
    ensures
        r is Err <==> template_slugs@.len() == 0,
        r matches Err(e) ==> e@ == "内置模型目录为空"@,
        r matches Ok(v) ==> catalog_plan(*config, slug_views(template_slugs@), v@),
{
    if template_slugs.len() == 0 {
        return Err(owned("内置模型目录为空"));
    }
    let entries = catalog_entries(config);
    let ghost n = config.mappings@.len() as int;
    let mut out: Vec<CatalogModel> = Vec::new();
    for i in 0..entries.len()
        invariant
            keys_sorted(entries@),
            catalog_matches(*config, entries@, n),
            n == config.mappings@.len(),
            template_slugs@.len() > 0,
            out@.len() == i,
            forall|a: int| 0 <= a < i ==> {
                let e = #[trigger] out@[a];
                &&& e.slug@ == entries@[a].0@
                &&& e.display_name@ == entries@[a].1.display_name@
                &&& e.context_window == entries@[a].1.context_window
                &&& e.template == template_slot(slug_views(template_slugs@), e.slug@)
                &&& e.template < template_slugs@.len()
            },
    {
        let (slug, entry) = (&entries[i].0, &entries[i].1);
        let t = find_template(template_slugs, slug.as_str());
        out.push(
            CatalogModel {
                slug: slug.clone(),
                display_name: entry.display_name.clone(),
                context_window: entry.context_window,
                template: t,
            },
        );
    }
    proof {
        let v = out@;
        assert forall|a: int| 0 <= a < v.len() implies {
            let e = #[trigger] v[a];
            &&& last_routable_alias(*config, e.slug@, n) matches Some(j)
            &&& e.display_name@ == catalog_display(*config, config.mappings@[j])
            &&& e.context_window == catalog_context(*config, config.mappings@[j])
            &&& e.template == template_slot(slug_views(template_slugs@), e.slug@)
        } by {
            lemma_lookup_at(entries@, a);
            assert(lookup(entries@, entries@[a].0@) == Some(entries@[a].1));
        }
        assert forall|k: int|
            0 <= k < n && routable(*config, #[trigger] config.mappings@[k]) implies exists|a: int|
            0 <= a < v.len() && #[trigger] v[a].slug@ == config.mappings@[k].codex_model@ by {
            let slug = config.mappings@[k].codex_model@;
            lemma_routable_alias_found(*config, k, n);
            assert(lookup(entries@, slug) is Some);
            let a = choose|a: int| key_at(entries@, slug, a);
            assert(v[a].slug@ == slug);
        }
    }
    Ok(out)
}

proof fn lemma_alias_and_route_agree(c: AppConfig, slug: Seq<char>, n: int)
    ensures
        last_routable_alias(c, slug, n) == crate::sidecar::last_route(c, slug, n),
    decreases n,
{
    if n > 0 && n <= c.mappings@.len() {
        lemma_alias_and_route_agree(c, slug, n - 1);
    }
}

/// Codex is shown exactly the aliases that the sidecar routes: an alias is in
/// the catalog if and only if the sidecar has a route for it.
pub proof fn lemma_catalog_lists_exactly_the_routes(
    c: AppConfig,
    catalog: Seq<(String, CatalogEntry)>,
    routes: Seq<(String, String)>,
    slug: Seq<char>,
)
    requires
        catalog_matches(c, catalog, c.mappings@.len() as int),
        crate::sidecar::routes_match(c, routes, c.mappings@.len() as int),
    ensures
        lookup(catalog, slug) is Some <==> lookup(routes, slug) is Some,
{
    lemma_alias_and_route_agree(c, slug, c.mappings@.len() as int);
    assert(lookup(catalog, slug) is Some <==> last_routable_alias(c, slug, c.mappings@.len() as int) is Some);
    assert(lookup(routes, slug) is Some <==> crate::sidecar::last_route(c, slug, c.mappings@.len() as int) is Some);
}

// ---------------------------------------------------------------------------
// The catalog file
/// The slug of a template model: its `slug` member, where that is a string.
pub open spec fn model_slug(n: JsonNode) -> Option<Seq<char>> {
    text_member(n, "slug"@)
}

/// The slug of each template model, in order.
pub open spec fn template_slug_views(ms: Seq<JsonNode>) -> Seq<Option<Seq<char>>> {
    ms.map_values(|n: JsonNode| model_slug(n))
}

/// The template's models: the `models` member of the template object, where
/// it is an array.
pub open spec fn template_models(t: JsonNode) -> Option<Seq<JsonNode>> {
    match t {
        JsonNode::Object(o) => if o.dom().contains("models"@) {
            match o["models"@] {
                JsonNode::Array(ms) => Some(ms),
                _ => None,
            }
        } else {
            None
        },
        _ => None,
    }
}

/// The catalog entry for the alias `m`, built on the template model `base`:
/// its slug, name and context window, described as a mapped model that the
/// API supports and that is listed. A template model that is not an object
/// is kept as it is.
pub open spec fn catalog_model_entry(base: JsonNode, m: CatalogModel) -> JsonNode {
    match base {
        JsonNode::Object(o) => JsonNode::Object(
            o.insert("slug"@, JsonNode::Text(m.slug@)).insert(
                "display_name"@,
                JsonNode::Text(m.display_name@),
            ).insert("description"@, JsonNode::Text("OnlyCodex mapped model"@)).insert(
                "supported_in_api"@,
                JsonNode::Flag(true),
            ).insert("visibility"@, JsonNode::Text("list"@)).insert(
                "context_window"@,
                JsonNode::Count(m.context_window),
            ).insert("max_context_window"@, JsonNode::Count(m.context_window)),
        ),
        _ => base,
    }
}

/// The catalog's entries, one per planned alias, in order.
pub open spec fn catalog_model_entries(ms: Seq<JsonNode>, plan: Seq<CatalogModel>) -> Seq<JsonNode> {
    Seq::new(plan.len(), |a: int| catalog_model_entry(ms[plan[a].template as int], plan[a]))
}

/// The catalog: the template object with its models replaced by the
/// planned entries, and stamped with the time `fetched_at`.
pub open spec fn catalog_view(t: JsonNode, plan: Seq<CatalogModel>, fetched_at: Seq<char>) -> JsonNode {
    JsonNode::Object(
        t->Object_0.insert(
            "models"@,
            JsonNode::Array(catalog_model_entries(template_models(t)->0, plan)),
        ).insert("fetched_at"@, JsonNode::Text(fetched_at)),
    )
}

pub open spec fn catalog_broken_prefix() -> Seq<char> {
    "内置模型目录损坏: "@
}

pub open spec fn catalog_no_models_error() -> Seq<char> {
    "内置模型目录缺少 models"@
}

pub open spec fn catalog_empty_error() -> Seq<char> {
    "内置模型目录为空"@
}

proof fn lemma_entry_nests_within(base: JsonNode, m: CatalogModel, d: nat)
    requires
        nests_within(base, d),
    ensures
        nests_within(catalog_model_entry(base, m), d),
{
    if base is Object {
        let o = base->Object_0;
        let e = catalog_model_entry(base, m)->Object_0;
        assert forall|k: Seq<char>| #[trigger] e.dom().contains(k) implies nests_within(
            e[k],
            (d - 1) as nat,
        ) by {
            if k != "slug"@ && k != "display_name"@ && k != "description"@ && k != "supported_in_api"@
                && k != "visibility"@ && k != "context_window"@ && k != "max_context_window"@ {
                assert(o.dom().contains(k));
            }
        }
    }
}

/// The model catalog file that Codex reads, as JSON text, and the number of
/// models it lists. `template` is the built-in catalog: its `models` array
/// gives each alias the template model with the alias's slug (else the first
/// one) as a base, whose remaining fields the entry keeps; the rest of the
/// template is kept as it is, stamped with `fetched_at`.
pub fn catalog_document(template: &str, config: &AppConfig, fetched_at: &str) -> (r: Result<
    (String, usize),
    String,
>)
    ensures
        json_parse_view(template@) is None ==> (r matches Err(e) && has_prefix(
            e@,
            catalog_broken_prefix(),
        )),
        json_parse_view(template@) matches Some(t) ==> match template_models(t) {
            None => r matches Err(e) && e@ == catalog_no_models_error(),
            Some(ms) => if ms.len() == 0 {
                r matches Err(e) && e@ == catalog_empty_error()
            } else {
                r matches Ok((text, n)) && exists|plan: Seq<CatalogModel>|
                    #[trigger] catalog_plan(*config, template_slug_views(ms), plan) && n
                        == plan.len() && json_parse_view(text@) == Some(
                        catalog_view(t, plan, fetched_at@),
                    )
            },
        },
{
    let tv = match parse_json(template) {
        Ok(v) => v,
        Err(e) => {
            let mut msg = owned("内置模型目录损坏: ");
            let detail = json_error_text(&e);
            let ghost prefix = msg@;
            msg.append(detail.as_str());
            proof {
                assert(msg@.subrange(0, prefix.len() as int) =~= prefix);
            }
            return Err(msg);
        },
    };
    let ghost t = json_value_view(tv);
    let items = match json_member(&tv, "models") {
        Some(mv) => match json_items(mv) {
            Some(items) => items,
            None => {
                return Err(owned("内置模型目录缺少 models"));
            },
        },
        None => {
            return Err(owned("内置模型目录缺少 models"));
        },
    };
    let ghost ms = json_views(items@);
    assert(template_models(t) == Some(ms));
    let mut slugs: Vec<Option<String>> = Vec::new();
    for i in 0..items.len()
        invariant
            ms == json_views(items@),
            slugs@.len() == i,
            forall|b: int| 0 <= b < i ==> #[trigger] slug_views(slugs@)[b] == model_slug(ms[b]),
    {
        let slug = json_text_member(&items[i], "slug");
        let ghost prev = slugs@;
        slugs.push(slug);
        proof {
            assert(ms[i as int] == json_value_view(items@[i as int]));
            assert forall|b: int| 0 <= b < i + 1 implies #[trigger] slug_views(slugs@)[b] == model_slug(
                ms[b],
            ) by {
                if b < i {
                    assert(slugs@[b] == prev[b]);
                    assert(slug_views(prev)[b] == model_slug(ms[b]));
                }
            }
        }
    }
    assert(slug_views(slugs@) =~= template_slug_views(ms));
    let plan = match update_model_catalog(config, &slugs) {
        Ok(p) => p,
        Err(e) => {
            return Err(e);
        },
    };
    let mut models: Vec<Value> = Vec::new();
    for a in 0..plan.len()
        invariant
            ms == json_views(items@),
            catalog_plan(*config, template_slug_views(ms), plan@),
            models@.len() == a,
            forall|b: int|
                0 <= b < a ==> #[trigger] json_value_view(models@[b]) == catalog_model_entry(
                    ms[plan@[b].template as int],
                    plan@[b],
                ),
    {
        let m = &plan[a];
        assert(plan@[a as int].template < ms.len());
        let mut entry = json_copy(&items[m.template]);
        if json_is_object(&entry) {
            json_set_member(&mut entry, "slug", json_from_text(m.slug.as_str()));
            json_set_member(&mut entry, "display_name", json_from_text(m.display_name.as_str()));
            json_set_member(&mut entry, "description", json_from_text("OnlyCodex mapped model"));
            json_set_member(&mut entry, "supported_in_api", json_from_flag(true));
            json_set_member(&mut entry, "visibility", json_from_text("list"));
            json_set_member(&mut entry, "context_window", json_from_count(m.context_window));
            json_set_member(&mut entry, "max_context_window", json_from_count(m.context_window));
        }
        models.push(entry);
    }
    let n = models.len();
    assert(json_views(models@) =~= catalog_model_entries(ms, plan@));
    proof {
        let o = t->Object_0;
        let limit = json_nesting_limit();
        assert(nests_within(t, limit));
        assert(nests_within(o["models"@], (limit - 1) as nat));
        let entries = catalog_model_entries(ms, plan@);
        assert forall|b: int| 0 <= b < entries.len() implies nests_within(
            #[trigger] entries[b],
            (limit - 2) as nat,
        ) by {
            assert(nests_within(ms[plan@[b].template as int], (limit - 2) as nat));
            lemma_entry_nests_within(ms[plan@[b].template as int], plan@[b], (limit - 2) as nat);
        }
        assert(nests_within(JsonNode::Array(entries), (limit - 1) as nat));
        let root = catalog_view(t, plan@, fetched_at@)->Object_0;
        assert forall|k: Seq<char>| #[trigger] root.dom().contains(k) implies nests_within(
            root[k],
            (limit - 1) as nat,
        ) by {
            if k != "models"@ && k != "fetched_at"@ {
                assert(o.dom().contains(k));
            }
        }
        assert(nests_within(catalog_view(t, plan@, fetched_at@), limit));
    }
    let mut catalog = tv;
    json_set_member(&mut catalog, "models", json_from_items(models));
    json_set_member(&mut catalog, "fetched_at", json_from_text(fetched_at));
    assert(json_value_view(catalog) == catalog_view(t, plan@, fetched_at@));
    let text = json_pretty(&catalog);
    Ok((text, n))
}

} // verus!
