//! Testing a provider: the request for its model list, and the reading of
//! the list it answers with.
use crate::catalog::{find_provider, first_provider};
use crate::config::{AppConfig, ModelConfig, DEFAULT_CONTEXT_WINDOW};
use crate::runtime::opt_view;
use crate::keyed::{has_key, key_at, keys_sorted, lemma_lookup_at, lookup, upsert};
use crate::text::{chars_of, decimal, decimal_spec, ends_with, has_suffix, owned, text_lt};
use vstd::prelude::*;
use vstd::string::*;

verus! {

// ---------------------------------------------------------------------------
// The request
/// `s.trim_end_matches('/')`.
pub open spec fn strip_slashes(s: Seq<char>) -> Seq<char>
    decreases s.len(),
{
    if s.len() > 0 && s.last() == '/' {
        strip_slashes(s.drop_last())
    } else {
        s
    }
}

/// Where a provider lists its models: its base URL without trailing slashes,
/// with `/models` appended unless it ends so already.
pub open spec fn models_url_spec(base_url: Seq<char>) -> Seq<char> {
    let base = strip_slashes(base_url);
    if has_suffix(base, "/models"@) {
        base
    } else {
        base + "/models"@
    }
}

proof fn lemma_strip_cut(s: Seq<char>, j: int)
    requires
        0 <= j <= s.len(),
        forall|k: int| j <= k < s.len() ==> s[k] == '/',
    ensures
        strip_slashes(s) == strip_slashes(s.subrange(0, j)),
    decreases s.len() - j,
{
    if j < s.len() {
        assert(s.drop_last().subrange(0, j) =~= s.subrange(0, j));
        lemma_strip_cut(s.drop_last(), j);
    } else {
        assert(s.subrange(0, j) =~= s);
    }
}

/// The URL of a provider's model list.
pub fn models_url(base_url: &str) -> (r: String)
    ensures
        r@ == models_url_spec(base_url@),
{
    let cs = chars_of(base_url);
    let mut j = cs.len();
    while j > 0 && cs[j - 1] == '/'
        invariant
            j <= cs@.len(),
            cs@ == base_url@,
            forall|k: int| j <= k < cs@.len() ==> base_url@[k] == '/',
        decreases j,
    {
        j = j - 1;
    }
    proof {
        lemma_strip_cut(base_url@, j as int);
        let t = base_url@.subrange(0, j as int);
        if t.len() > 0 {
            assert(t.last() == base_url@[j - 1]);
        }
        assert(strip_slashes(t) == t);
    }
    let mut base = owned(base_url.substring_char(0, j));
    if ends_with(base.as_str(), "/models") {
        base
    } else {
        base.append("/models");
        base
    }
}

/// The request that tests a provider.
#[derive(Debug)]
pub struct ModelsRequest {
    pub url: String,
    /// The bearer token, where the provider has an API key.
    pub bearer: Option<String>,
    pub timeout_seconds: u64,
    pub provider_name: String,
}

/// The request that lists the models of provider `provider_id`: to its
/// models URL, with its API key as bearer token where it has one, under the
/// configured request timeout. Fails where no provider has that id.
pub fn test_provider_request(config: &AppConfig, provider_id: &str) -> (r: Result<
    ModelsRequest,
    String,
>)
    ensures
        r is Err <==> first_provider(*config, provider_id@) is None,
        r matches Err(e) ==> e@ == "供应商不存在"@,
        r matches Ok(q) ==> {
            let p = config.providers@[first_provider(*config, provider_id@)->0];
            &&& q.url@ == models_url_spec(p.base_url@)
            &&& q.bearer matches Some(b) ==> b@ == p.api_key@
            &&& q.bearer is None <==> p.api_key@.len() == 0
            &&& q.timeout_seconds == config.settings.request_timeout_seconds
            &&& q.provider_name@ == p.name@
        },
{
    match find_provider(config, provider_id) {
        None => Err(owned("供应商不存在")),
        Some(k) => {
            proof {
                crate::catalog::lemma_first_provider_in_range(config.providers@, provider_id@, 0);
            }
            let p = &config.providers[k];
            let bearer = if p.api_key.as_str().unicode_len() == 0 {
                None
            } else {
                Some(p.api_key.clone())
            };
            Ok(
                ModelsRequest {
                    url: models_url(p.base_url.as_str()),
                    bearer,
                    timeout_seconds: config.settings.request_timeout_seconds,
                    provider_name: p.name.clone(),
                },
            )
        },
    }
}

// ---------------------------------------------------------------------------
// The answer
/// A member of a JSON object as the model list reading sees it.
#[derive(Debug)]
pub enum JsonField {
    /// The member is absent (or the value is not an object).
    Missing,
    /// A string.
    Text(String),
    /// A number that fits a `u64`.
    Count(u64),
    /// Any other value, `null` among them.
    Other,
}

/// One element of the answer's model array.
#[derive(Debug)]
pub struct ModelEntry {
    /// The element itself, where it is a string.
    pub text: Option<String>,
    pub id: JsonField,
    pub name: JsonField,
    pub display_name: JsonField,
    pub context_length: JsonField,
    pub context_window: JsonField,
}

pub open spec fn field_text(f: JsonField) -> Option<Seq<char>> {
    match f {
        JsonField::Text(s) => Some(s@),
        _ => None,
    }
}

/// The model's id: the element if it is a string, else its `id`, else its
/// `name`; `None` where none of them is a string (the element is skipped).
pub open spec fn entry_id(e: ModelEntry) -> Option<Seq<char>> {
    match e.text {
        Some(t) => Some(t@),
        None => match field_text(e.id) {
            Some(i) => Some(i),
            None => field_text(e.name),
        },
    }
}

/// The model's name: `display_name`, else `name`, where that member is a
/// string; else the id.
pub open spec fn entry_name(e: ModelEntry, id: Seq<char>) -> Seq<char> {
    let f = if e.display_name is Missing {
        e.name
    } else {
        e.display_name
    };
    match field_text(f) {
        Some(n) => n,
        None => id,
    }
}

/// The model's context window: `context_length`, else `context_window`,
/// where that member is a `u64`; else the default.
pub open spec fn entry_context(e: ModelEntry) -> u64 {
    let f = if e.context_length is Missing {
        e.context_window
    } else {
        e.context_length
    };
    match f {
        JsonField::Count(n) => n,
        _ => DEFAULT_CONTEXT_WINDOW,
    }
}

/// `m` is the model that entry `e` (with id `id`) describes.
pub open spec fn discovered_from(m: ModelConfig, e: ModelEntry, id: Seq<char>) -> bool {
    &&& m.id@ == id
    &&& m.name@ == entry_name(e, id)
    &&& m.enabled
    &&& m.context_window == entry_context(e)
}

/// The first entry before index `n` with id `id`.
pub open spec fn first_with_id(es: Seq<ModelEntry>, id: Seq<char>, n: int) -> Option<int>
    decreases n,
{
    if n <= 0 || n > es.len() {
        None
    } else {
        match first_with_id(es, id, n - 1) {
            Some(j) => Some(j),
            None => if entry_id(es[n - 1]) == Some(id) {
                Some(n - 1)
            } else {
                None
            },
        }
    }
}

fn text_of_field(f: &JsonField) -> (r: Option<String>)
    ensures
        opt_view(r) == field_text(*f),
{
    match f {
        JsonField::Text(s) => Some(s.clone()),
        _ => None,
    }
}

/// The model that entry `e` describes, if it has an id.
pub fn read_model_entry(e: &ModelEntry) -> (r: Option<ModelConfig>)
    ensures
        match r {
            Some(m) => entry_id(*e) == Some(m.id@) && discovered_from(m, *e, m.id@),
            None => entry_id(*e) is None,
        },
{
    let id = match &e.text {
        Some(t) => t.clone(),
        None => match text_of_field(&e.id) {
            Some(i) => i,
            None => match text_of_field(&e.name) {
                Some(n) => n,
                None => {
                    return None;
                },
            },
        },
    };
    let name_field = match &e.display_name {
        JsonField::Missing => &e.name,
        other => other,
    };
    let name = match text_of_field(name_field) {
        Some(n) => n,
        None => id.clone(),
    };
    let context_field = match &e.context_length {
        JsonField::Missing => &e.context_window,
        other => other,
    };
    let context_window = match context_field {
        JsonField::Count(n) => *n,
        _ => DEFAULT_CONTEXT_WINDOW,
    };
    Some(ModelConfig { id, name, enabled: true, context_window })
}

/// How a model is read from an entry of the model list: its id is the
/// element where that is a string, else its string `id` member, else its
/// string `name` member; its name is the string `display_name` member, else
/// (where `display_name` is absent) the string `name` member, else the id;
/// its context window is the `context_length` member, else (where that is
/// absent) the `context_window` member, where that is an unsigned integer,
/// else the default; and it is enabled.
pub proof fn lemma_model_entry_reading(m: ModelConfig, e: ModelEntry, id: Seq<char>)
    requires
        discovered_from(m, e, id),
    ensures
        e.text matches Some(t) ==> entry_id(e) == Some(t@),
        e.text is None ==> (e.id matches JsonField::Text(i) ==> entry_id(e) == Some(i@)),
        e.text is None && e.id !is Text ==> (e.name matches JsonField::Text(n) ==> entry_id(e)
            == Some(n@)),
        e.text is None && e.id !is Text && e.name !is Text ==> entry_id(e) is None,
        m.id@ == id,
        m.enabled,
        e.display_name matches JsonField::Text(d) ==> m.name@ == d@,
        e.display_name is Missing ==> (e.name matches JsonField::Text(n) ==> m.name@ == n@),
        e.display_name is Missing && e.name !is Text ==> m.name@ == id,
        e.display_name !is Missing && e.display_name !is Text ==> m.name@ == id,
        e.context_length matches JsonField::Count(x) ==> m.context_window == x,
        e.context_length is Missing ==> (e.context_window matches JsonField::Count(x)
            ==> m.context_window == x),
        e.context_length is Missing && e.context_window !is Count ==> m.context_window
            == DEFAULT_CONTEXT_WINDOW,
        e.context_length !is Missing && e.context_length !is Count ==> m.context_window
            == DEFAULT_CONTEXT_WINDOW,
{
}

/// The discovered models `v` read `es`: ascending by id, one per distinct id,
/// each as the first entry with that id describes it.
pub open spec fn discovered(es: Seq<ModelEntry>, v: Seq<ModelConfig>) -> bool {
    &&& forall|a: int, b: int| 0 <= a < b < v.len() ==> text_lt(#[trigger] v[a].id@, #[trigger] v[b].id@)
    &&& forall|a: int|
        0 <= a < v.len() ==> (first_with_id(es, (#[trigger] v[a]).id@, es.len() as int) matches Some(j)
            && discovered_from(v[a], es[j], v[a].id@))
    &&& forall|k: int|
        0 <= k < es.len() && (#[trigger] entry_id(es[k])) is Some ==> exists|a: int|
            0 <= a < v.len() && #[trigger] v[a].id@ == entry_id(es[k])->0
}

proof fn lemma_first_with_id_facts(es: Seq<ModelEntry>, id: Seq<char>, n: int)
    ensures
        first_with_id(es, id, n) matches Some(j) ==> 0 <= j < n && j < es.len() && entry_id(es[j])
            == Some(id),
    decreases n,
{
    if n > 0 && n <= es.len() {
        lemma_first_with_id_facts(es, id, n - 1);
    }
}

proof fn lemma_first_with_id_found(es: Seq<ModelEntry>, k: int, n: int)
    requires
        0 <= k < n <= es.len(),
        entry_id(es[k]) is Some,
    ensures
        first_with_id(es, entry_id(es[k])->0, n) is Some,
    decreases n,
{
    if n - 1 > k {
        lemma_first_with_id_found(es, k, n - 1);
    }
}

/// The models of a provider's list, sorted by id with repeated ids dropped
/// (the first one stays), each enabled.
pub fn discovered_models(entries: &Vec<ModelEntry>) -> (r: Vec<ModelConfig>)
    ensures
        discovered(entries@, r@),
{
    let mut found: Vec<(String, ModelConfig)> = Vec::new();
    let n = entries.len();
    for i in 0..n
        invariant
            n == entries@.len(),
            keys_sorted(found@),
            forall|id: Seq<char>|
                match #[trigger] lookup(found@, id) {
                    Some(m) => match first_with_id(entries@, id, i as int) {
                        Some(j) => discovered_from(m, entries@[j], id),
                        None => false,
                    },
                    None => first_with_id(entries@, id, i as int) is None,
                },
    {
        let ghost before = found@;
        match read_model_entry(&entries[i]) {
            Some(m) => {
                let key = m.id.clone();
                upsert(&mut found, key, m, false);
            },
            None => {},
        }
        proof {
            assert forall|id: Seq<char>|
                match #[trigger] lookup(found@, id) {
                    Some(m) => match first_with_id(entries@, id, i + 1) {
                        Some(j) => discovered_from(m, entries@[j], id),
                        None => false,
                    },
                    None => first_with_id(entries@, id, i + 1) is None,
                } by {
                if entry_id(entries@[i as int]) != Some(id) {
                    assert(lookup(found@, id) == lookup(before, id));
                } else {
                    if first_with_id(entries@, id, i as int) is Some {
                        assert(has_key(before, id));
                    } else {
                        assert(!has_key(before, id));
                    }
                }
            }
        }
    }
    proof {
        assert forall|q: int| 0 <= q < found@.len() implies #[trigger] found@[q].1.id@
            == found@[q].0@ by {
            lemma_lookup_at(found@, q);
            lemma_first_with_id_facts(entries@, found@[q].0@, n as int);
        }
    }
    let mut out: Vec<ModelConfig> = Vec::new();
    for a in 0..found.len()
        invariant
            keys_sorted(found@),
            out@.len() == a,
            forall|q: int| 0 <= q < a ==> #[trigger] out@[q] == found@[q].1,
    {
        out.push(found[a].1.clone());
    }
    proof {
        let es = entries@;
        let v = out@;
        assert forall|a: int, b: int| 0 <= a < b < v.len() implies text_lt(
            #[trigger] v[a].id@,
            #[trigger] v[b].id@,
        ) by {
            assert(text_lt(found@[a].0@, found@[b].0@));
            assert(found@[a].1.id@ == found@[a].0@);
            assert(found@[b].1.id@ == found@[b].0@);
        }
        assert forall|a: int| 0 <= a < v.len() implies (first_with_id(
            es,
            (#[trigger] v[a]).id@,
            es.len() as int,
        ) matches Some(j) && discovered_from(v[a], es[j], v[a].id@)) by {
            lemma_lookup_at(found@, a);
            assert(found@[a].1.id@ == found@[a].0@);
        }
        assert forall|k: int|
            0 <= k < es.len() && (#[trigger] entry_id(es[k])) is Some implies exists|a: int|
            0 <= a < v.len() && #[trigger] v[a].id@ == entry_id(es[k])->0 by {
            let id = entry_id(es[k])->0;
            lemma_first_with_id_found(es, k, n as int);
            assert(lookup(found@, id) is Some);
            let q = choose|q: int| key_at(found@, id, q);
            assert(found@[q].1.id@ == found@[q].0@);
            assert(v[q].id@ == id);
        }
    }
    out
}

/// The models that a provider's answer lists: its `data` array, else its
/// `models` array (each `None` where that member is not an array).
pub fn discover_models(data: Option<&Vec<ModelEntry>>, models: Option<&Vec<ModelEntry>>) -> (r: Result<
    Vec<ModelConfig>,
    String,
>)
    ensures
        match data {
            Some(es) => r matches Ok(v) && discovered(es@, v@),
            None => match models {
                Some(es) => r matches Ok(v) && discovered(es@, v@),
                None => r matches Err(e) && e@ == "响应中没有 data 或 models 数组"@,
            },
        },
{
    match data {
        Some(es) => Ok(discovered_models(es)),
        None => match models {
            Some(es) => Ok(discovered_models(es)),
            None => Err(owned("响应中没有 data 或 models 数组")),
        },
    }
}

/// What is logged after a successful test: the provider and how many models it lists.
pub fn provider_ok_message(provider_name: &str, count: usize) -> (r: String)
    ensures
        r@ == provider_name@ + " 连接成功，发现 "@ + decimal_spec(count as nat) + " 个模型"@,
{
    let mut msg = owned(provider_name);
    msg.append(" 连接成功，发现 ");
    let digits = decimal(count as u64);
    msg.append(digits.as_str());
    msg.append(" 个模型");
    msg
}

} // verus!
