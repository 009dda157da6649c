//! Omp (Oh My Pi) configuration under `~/.omp/agent`.
//!
//! All providers live under the top-level `providers:` mapping of
//! `models.yml`; entries written here are stamped `_ccSource: managed` and
//! keys that are not owned here survive every rewrite. The active selection is
//! role based: `modelRoles` in `config.yml` maps each of the five roles to a
//! `<providerKey>/<modelId>` selector.
use vstd::prelude::*;
use crate::error::AppError;
use crate::json::{
    clone_entries, jview, jview_entries, jview_seq, keys_unique, lemma_jview_entries,
    lemma_jview_seq, lemma_vset, lemma_vset_all, last_update, obj_get, vset_all, obj_set, obool, ojview, ostr, ou64, vbool, vfield,
    vget, vobj, vset, vstr, vu64, varr, JsonNumber, JsonValue, JsonView, ObjView,
};
use crate::text::{
    chars_of, trim_range, clone_opt, opt_view, str_eq, to_string, trim, trim_str, trimmed_nonempty,
    trimmed_opt,
};
use crate::version::{known_older, spec_known_older};

verus! {

// ============================================================================
// Compatibility gate
// ============================================================================

/// Minimum omp version whose `models.yml` semantics match what is written here.
pub const MIN_OMP_VERSION: &'static str = "17.0.0";

/// Compatibility gate: refuses when the detected omp version is known to be
/// older than [`MIN_OMP_VERSION`]; an unknown version does not block.
pub fn assert_omp_compatible(detected: Option<&str>) -> (r: Result<(), AppError>)
    ensures
        r is Err <==> spec_known_older(
            match detected {
                Some(d) => Some(d@),
                None => None,
            },
            MIN_OMP_VERSION@,
        ),
        r matches Err(e) ==> (e matches AppError::OmpIncompatibleVersion(v) && Some(v@) == match detected {
            Some(d) => Some(d@),
            None => None,
        }),
{
    if known_older(detected, MIN_OMP_VERSION) {
        match detected {
            Some(d) => Err(AppError::OmpIncompatibleVersion(to_string(d))),
            None => Ok(()),
        }
    } else {
        Ok(())
    }
}

// ============================================================================
// Provider keys and roles
// ============================================================================

pub const PROVIDER_SOURCE_MANAGED: &'static str = "managed";

pub const PROVIDER_SOURCE_USER: &'static str = "user";

pub const PROVIDER_SOURCE_OAUTH: &'static str = "oauth";

/// The entry field marking a `models.yml` provider as managed here.
pub const MANAGED_SOURCE_FIELD: &'static str = "_ccSource";

/// A provider key matches `^[a-z0-9][a-z0-9._-]*$`.
pub open spec fn valid_provider_key(s: Seq<char>) -> bool {
    &&& s.len() > 0
    &&& ('a' <= s[0] <= 'z' || '0' <= s[0] <= '9')
    &&& forall|i: int|
        0 <= i < s.len() ==> ('a' <= #[trigger] s[i] <= 'z' || '0' <= s[i] <= '9' || s[i] == '.'
            || s[i] == '_' || s[i] == '-')
}

/// Provider key validation: `^[a-z0-9][a-z0-9._-]*$` (so that neither `:`
/// nor `/` can occur in a `<key>/<modelId>` selector).
pub fn validate_provider_key(id: &str) -> (r: Result<(), AppError>)
    ensures
        r is Ok <==> valid_provider_key(id@),
        r matches Err(e) ==> (e matches AppError::OmpInvalidKey(k) && k@ == id@),
{
    let v = chars_of(id);
    let mut ok = v.len() > 0 && (('a' <= v[0] && v[0] <= 'z') || ('0' <= v[0] && v[0] <= '9'));
    let mut i: usize = 0;
    while i < v.len()
        invariant
            0 <= i <= v.len(),
            v@ == id@,
            ok ==> v@.len() > 0 && ('a' <= v@[0] <= 'z' || '0' <= v@[0] <= '9'),
            ok ==> forall|j: int|
                0 <= j < i ==> ('a' <= #[trigger] v@[j] <= 'z' || '0' <= v@[j] <= '9' || v@[j]
                    == '.' || v@[j] == '_' || v@[j] == '-'),
            !ok ==> !valid_provider_key(id@),
        decreases v.len() - i,
    {
        let c = v[i];
        if !(('a' <= c && c <= 'z') || ('0' <= c && c <= '9') || c == '.' || c == '_' || c
            == '-') {
            ok = false;
        }
        i = i + 1;
    }
    if ok {
        Ok(())
    } else {
        Err(AppError::OmpInvalidKey(to_string(id)))
    }
}

/// The five omp model roles.
pub const OMP_ROLES: [&'static str; 5] = ["default", "smol", "slow", "plan", "commit"];

pub open spec fn valid_role(r: Seq<char>) -> bool {
    ||| r == "default"@
    ||| r == "smol"@
    ||| r == "slow"@
    ||| r == "plan"@
    ||| r == "commit"@
}

/// Role validation: only `default`, `smol`, `slow`, `plan` and `commit`.
pub fn validate_role(role: &str) -> (r: Result<(), AppError>)
    ensures
        r is Ok <==> valid_role(role@),
        r matches Err(e) ==> (e matches AppError::OmpInvalidRole(k) && k@ == role@),
{
    if str_eq(role, "default") || str_eq(role, "smol") || str_eq(role, "slow") || str_eq(
        role,
        "plan",
    ) || str_eq(role, "commit") {
        Ok(())
    } else {
        Err(AppError::OmpInvalidRole(to_string(role)))
    }
}

/// Whether a `models.yml` provider entry carries `_ccSource: managed`.
pub open spec fn spec_is_managed_provider(entry: JsonView) -> bool {
    vstr(vfield(entry, "_ccSource"@)) == Some("managed"@)
}

/// Whether a `models.yml` provider entry is managed here.
pub fn is_managed_provider(entry: &JsonValue) -> (r: bool)
    ensures
        r == spec_is_managed_provider(jview(*entry)),
{
    match entry.get("_ccSource") {
        Some(v) => match v.as_str() {
            Some(s) => str_eq(s.as_str(), "managed"),
            None => false,
        },
        None => false,
    }
}

/// The protocol an omp provider speaks when none is given.
pub fn default_omp_api() -> (s: String)
    ensures
        s@ == "openai-completions"@,
{
    to_string("openai-completions")
}

// ============================================================================
// Provider settings (DB / UI fragment)
// ============================================================================

/// Single model entry of a provider.
#[derive(Debug)]
pub struct OmpModel {
    pub id: String,
    pub name: Option<String>,
    /// Per-model API override.
    pub api: Option<String>,
    pub reasoning: Option<bool>,
    pub context_window: Option<u64>,
    pub max_tokens: Option<u64>,
}

pub struct OmpModelView {
    pub id: Seq<char>,
    pub name: Option<Seq<char>>,
    pub api: Option<Seq<char>>,
    pub reasoning: Option<bool>,
    pub context_window: Option<u64>,
    pub max_tokens: Option<u64>,
}

impl View for OmpModel {
    type V = OmpModelView;

    open spec fn view(&self) -> OmpModelView {
        OmpModelView {
            id: self.id@,
            name: opt_view(self.name),
            api: opt_view(self.api),
            reasoning: self.reasoning,
            context_window: self.context_window,
            max_tokens: self.max_tokens,
        }
    }
}

/// Provider fragment stored as `settingsConfig`.
#[derive(Debug)]
pub struct OmpProviderConfig {
    /// API protocol (`openai-completions`, `anthropic-messages`, ...).
    pub api: String,
    /// Inline API key (literal or environment-variable name).
    pub api_key: Option<String>,
    pub base_url: Option<String>,
    pub models: Vec<OmpModel>,
    /// Preferred model id used in the `<key>/<modelId>` role selector.
    pub default_model_id: Option<String>,
    /// Human-readable provider name (`name` in `models.yml`).
    pub display_name: Option<String>,
    /// `authHeader`: send `Authorization: Bearer <apiKey>`.
    pub auth_header: Option<bool>,
    /// Where a provider read from live config comes from (`user`, `oauth`,
    /// `managed`).
    pub _cc_source: Option<String>,
}

pub struct OmpProviderConfigView {
    pub api: Seq<char>,
    pub api_key: Option<Seq<char>>,
    pub base_url: Option<Seq<char>>,
    pub models: Seq<OmpModelView>,
    pub default_model_id: Option<Seq<char>>,
    pub display_name: Option<Seq<char>>,
    pub auth_header: Option<bool>,
    pub cc_source: Option<Seq<char>>,
}

impl View for OmpProviderConfig {
    type V = OmpProviderConfigView;

    open spec fn view(&self) -> OmpProviderConfigView {
        OmpProviderConfigView {
            api: self.api@,
            api_key: opt_view(self.api_key),
            base_url: opt_view(self.base_url),
            models: self.models@.map_values(|m: OmpModel| m@),
            default_model_id: opt_view(self.default_model_id),
            display_name: opt_view(self.display_name),
            auth_header: self.auth_header,
            cc_source: opt_view(self._cc_source),
        }
    }
}

impl OmpProviderConfig {
    /// The default fragment: `openai-completions`, nothing else set.
    pub fn default() -> (c: Self)
        ensures
            c@.api == "openai-completions"@,
            c@.api_key is None,
            c@.base_url is None,
            c@.models.len() == 0,
            c@.default_model_id is None,
            c@.display_name is None,
            c@.auth_header is None,
            c@.cc_source is None,
    {
        OmpProviderConfig {
            api: default_omp_api(),
            api_key: None,
            base_url: None,
            models: Vec::new(),
            default_model_id: None,
            display_name: None,
            auth_header: None,
            _cc_source: None,
        }
    }
}

// ============================================================================
// models.yml provider entry <-> OmpProviderConfig
// ============================================================================

pub open spec fn opt_entry(k: Seq<char>, v: Option<JsonView>) -> ObjView {
    match v {
        Some(x) => seq![(k, x)],
        None => seq![],
    }
}

/// The `models.yml` entry of a model: `id` trimmed, `name` and `api` when not
/// blank, then `reasoning`, `contextWindow`, `maxTokens` when set.
pub open spec fn model_entry(m: OmpModelView) -> ObjView {
    seq![("id"@, JsonView::Str(trim(m.id)))] + opt_entry("name"@, ostr(trimmed_nonempty(m.name)))
        + opt_entry("api"@, ostr(trimmed_nonempty(m.api))) + opt_entry(
        "reasoning"@,
        obool(m.reasoning),
    ) + opt_entry("contextWindow"@, ou64(m.context_window)) + opt_entry(
        "maxTokens"@,
        ou64(m.max_tokens),
    )
}

/// Entries of the models whose trimmed id is not empty, in order.
pub open spec fn model_entries(ms: Seq<OmpModelView>) -> Seq<JsonView>
    decreases ms.len(),
{
    if ms.len() == 0 {
        seq![]
    } else if trim(ms.last().id).len() > 0 {
        model_entries(ms.drop_last()).push(JsonView::Object(model_entry(ms.last())))
    } else {
        model_entries(ms.drop_last())
    }
}

/// The model read back from a `models.yml` model entry, if it has a
/// non-blank string `id`.
pub open spec fn model_from(v: JsonView) -> Option<OmpModelView> {
    match v {
        JsonView::Object(o) => match vstr(vget(o, "id"@)) {
            Some(id) => if trim(id).len() > 0 {
                Some(
                    OmpModelView {
                        id: trim(id),
                        name: vstr(vget(o, "name"@)),
                        api: vstr(vget(o, "api"@)),
                        reasoning: vbool(vget(o, "reasoning"@)),
                        context_window: vu64(vget(o, "contextWindow"@)),
                        max_tokens: vu64(vget(o, "maxTokens"@)),
                    },
                )
            } else {
                None
            },
            None => None,
        },
        _ => None,
    }
}

/// The models read back from a `models` array, skipping entries without id.
pub open spec fn models_from(a: Seq<JsonView>) -> Seq<OmpModelView>
    decreases a.len(),
{
    if a.len() == 0 {
        seq![]
    } else {
        match model_from(a.last()) {
            Some(m) => models_from(a.drop_last()).push(m),
            None => models_from(a.drop_last()),
        }
    }
}

pub proof fn lemma_entry_keys()
    ensures
        "id"@ == seq!['i', 'd'],
        "name"@ == seq!['n', 'a', 'm', 'e'],
        "api"@ == seq!['a', 'p', 'i'],
        "reasoning"@ == seq!['r', 'e', 'a', 's', 'o', 'n', 'i', 'n', 'g'],
        "contextWindow"@ == seq![
            'c',
            'o',
            'n',
            't',
            'e',
            'x',
            't',
            'W',
            'i',
            'n',
            'd',
            'o',
            'w',
        ],
        "maxTokens"@ == seq!['m', 'a', 'x', 'T', 'o', 'k', 'e', 'n', 's'],
        "type"@ == seq!['t', 'y', 'p', 'e'],
        "baseUrl"@ == seq!['b', 'a', 's', 'e', 'U', 'r', 'l'],
        "authHeader"@ == seq!['a', 'u', 't', 'h', 'H', 'e', 'a', 'd', 'e', 'r'],
        "apiKey"@ == seq!['a', 'p', 'i', 'K', 'e', 'y'],
        "models"@ == seq!['m', 'o', 'd', 'e', 'l', 's'],
        "_ccSource"@ == seq!['_', 'c', 'c', 'S', 'o', 'u', 'r', 'c', 'e'],
        "managed"@ == seq!['m', 'a', 'n', 'a', 'g', 'e', 'd'],
{
    reveal_strlit("id");
    reveal_strlit("name");
    reveal_strlit("api");
    reveal_strlit("reasoning");
    reveal_strlit("contextWindow");
    reveal_strlit("maxTokens");
    reveal_strlit("type");
    reveal_strlit("baseUrl");
    reveal_strlit("authHeader");
    reveal_strlit("apiKey");
    reveal_strlit("models");
    reveal_strlit("_ccSource");
    reveal_strlit("managed");
}

pub(crate) fn push_opt(obj: &mut Vec<(String, JsonValue)>, key: &str, v: Option<JsonValue>)
    ensures
        jview_entries(final(obj)@) == jview_entries(old(obj)@) + opt_entry(key@, ojview(v)),
{
    let ghost before = obj@;
    match v {
        Some(x) => {
            let ghost xv = jview(x);
            obj.push((to_string(key), x));
            proof {
                lemma_jview_entries(before);
                lemma_jview_entries(obj@);
                assert(jview_entries(obj@) =~= jview_entries(before) + seq![(key@, xv)]);
            }
        },
        None => {
            assert(jview_entries(before) + seq![] =~= jview_entries(before));
        },
    }
}

pub(crate) fn opt_str_value(o: Option<String>) -> (r: Option<JsonValue>)
    ensures
        ojview(r) == ostr(opt_view(o)),
{
    match o {
        Some(s) => Some(JsonValue::Str(s)),
        None => None,
    }
}

/// The `models.yml` entry of one model.
pub fn model_to_entry(model: &OmpModel) -> (r: JsonValue)
    ensures
        jview(r) == JsonView::Object(model_entry(model@)),
{
    let mut obj: Vec<(String, JsonValue)> = Vec::new();
    proof {
        lemma_jview_entries(obj@);
        assert(jview_entries(obj@) =~= Seq::empty());
    }
    push_opt(&mut obj, "id", Some(JsonValue::Str(trim_str(model.id.as_str()))));
    push_opt(&mut obj, "name", opt_str_value(trimmed_opt(&model.name)));
    push_opt(&mut obj, "api", opt_str_value(trimmed_opt(&model.api)));
    push_opt(
        &mut obj,
        "reasoning",
        match model.reasoning {
            Some(b) => Some(JsonValue::Bool(b)),
            None => None,
        },
    );
    push_opt(
        &mut obj,
        "contextWindow",
        match model.context_window {
            Some(n) => Some(JsonValue::Number(JsonNumber::PosInt(n))),
            None => None,
        },
    );
    push_opt(
        &mut obj,
        "maxTokens",
        match model.max_tokens {
            Some(n) => Some(JsonValue::Number(JsonNumber::PosInt(n))),
            None => None,
        },
    );
    proof {
        assert(jview_entries(obj@) =~= model_entry(model@));
    }
    JsonValue::Object(obj)
}

pub(crate) fn get_str(entry: &JsonValue, key: &str) -> (r: Option<String>)
    ensures
        opt_view(r) == vstr(vfield(jview(*entry), key@)),
{
    match entry.get(key) {
        Some(v) => match v.as_str() {
            Some(s) => Some(s.clone()),
            None => None,
        },
        None => None,
    }
}

fn get_bool(entry: &JsonValue, key: &str) -> (r: Option<bool>)
    ensures
        r == vbool(vfield(jview(*entry), key@)),
{
    match entry.get(key) {
        Some(v) => v.as_bool(),
        None => None,
    }
}

fn get_u64(entry: &JsonValue, key: &str) -> (r: Option<u64>)
    ensures
        r == vu64(vfield(jview(*entry), key@)),
{
    match entry.get(key) {
        Some(v) => v.as_u64(),
        None => None,
    }
}

/// The model described by a `models.yml` model entry.
pub fn model_from_entry(value: &JsonValue) -> (r: Option<OmpModel>)
    ensures
        match r {
            Some(m) => model_from(jview(*value)) == Some(m@),
            None => model_from(jview(*value)) is None,
        },
{
    if !value.is_object() {
        return None;
    }
    let id = match get_str(value, "id") {
        Some(s) => trim_str(s.as_str()),
        None => {
            return None;
        },
    };
    if id.as_str().is_empty() {
        return None;
    }
    Some(
        OmpModel {
            id,
            name: get_str(value, "name"),
            api: get_str(value, "api"),
            reasoning: get_bool(value, "reasoning"),
            context_window: get_u64(value, "contextWindow"),
            max_tokens: get_u64(value, "maxTokens"),
        },
    )
}

/// Keys of a provider entry owned by the configuration logic.
pub open spec fn owned_key(k: Seq<char>) -> bool {
    ||| k == "type"@
    ||| k == "api"@
    ||| k == "baseUrl"@
    ||| k == "name"@
    ||| k == "authHeader"@
    ||| k == "apiKey"@
    ||| k == "models"@
    ||| k == "_ccSource"@
}

/// The object model of an optional existing entry (empty when there is no
/// object).
pub open spec fn base_obj(existing: Option<JsonView>) -> ObjView {
    match existing {
        Some(JsonView::Object(o)) => o,
        _ => seq![],
    }
}

/// What `provider_to_entry` promises of the entry it builds.
pub open spec fn is_provider_entry(r: JsonView, c: OmpProviderConfigView, base: ObjView) -> bool {
    let o = vobj(r);
    &&& r is Object
    &&& vget(o, "type"@) is None
    &&& vget(o, "api"@) == (if trim(c.api).len() == 0 {
        None
    } else {
        Some(JsonView::Str(trim(c.api)))
    })
    &&& vget(o, "baseUrl"@) == ostr(trimmed_nonempty(c.base_url))
    &&& vget(o, "name"@) == ostr(trimmed_nonempty(c.display_name))
    &&& vget(o, "authHeader"@) == obool(c.auth_header)
    &&& vget(o, "apiKey"@) == ostr(trimmed_nonempty(c.api_key))
    &&& vget(o, "models"@) == (if model_entries(c.models).len() == 0 {
        None
    } else {
        Some(JsonView::Array(model_entries(c.models)))
    })
    &&& vget(o, "_ccSource"@) == Some(JsonView::Str("managed"@))
    &&& forall|k: Seq<char>| !owned_key(k) ==> #[trigger] vget(o, k) == vget(base, k)
    &&& keys_unique(base) ==> keys_unique(o)
}

fn models_to_entries(models: &Vec<OmpModel>) -> (r: Vec<JsonValue>)
    ensures
        jview_seq(r@) == model_entries(models@.map_values(|m: OmpModel| m@)),
{
    let ghost ms = models@.map_values(|m: OmpModel| m@);
    let mut out: Vec<JsonValue> = Vec::new();
    let mut i: usize = 0;
    while i < models.len()
        invariant
            0 <= i <= models.len(),
            ms == models@.map_values(|m: OmpModel| m@),
            jview_seq(out@) == model_entries(ms.subrange(0, i as int)),
        decreases models.len() - i,
    {
        let id = trim_str(models[i].id.as_str());
        let ghost prev = out@;
        proof {
            assert(ms.subrange(0, i + 1).drop_last() =~= ms.subrange(0, i as int));
            assert(ms.subrange(0, i + 1).last() == models@[i as int]@);
        }
        if !id.as_str().is_empty() {
            let e = model_to_entry(&models[i]);
            out.push(e);
            proof {
                lemma_jview_seq(prev);
                lemma_jview_seq(out@);
                assert(jview_seq(out@) =~= jview_seq(prev).push(jview(out@.last())));
            }
        }
        i = i + 1;
    }
    assert(ms.subrange(0, models.len() as int) =~= ms);
    out
}

/// Builds the `models.yml` entry of a provider, keeping every key of an
/// existing entry that is not owned here, and stamps `_ccSource: managed`.
pub fn provider_to_entry(config: &OmpProviderConfig, existing: Option<&JsonValue>) -> (r: JsonValue)
    ensures
        is_provider_entry(
            jview(r),
            config@,
            base_obj(
                match existing {
                    Some(e) => Some(jview(*e)),
                    None => None,
                },
            ),
        ),
{
    let mut obj: Vec<(String, JsonValue)> = match existing {
        Some(JsonValue::Object(e)) => clone_entries(e),
        _ => Vec::new(),
    };
    let ghost base = base_obj(
        match existing {
            Some(e) => Some(jview(*e)),
            None => None,
        },
    );
    proof {
        lemma_jview_entries(obj@);
        assert(jview_entries(obj@) == base);
    }
    let ghost s0 = jview_entries(obj@);
    obj_set(&mut obj, "type", None);
    let api = trim_str(config.api.as_str());
    let api_v = if api.as_str().is_empty() {
        None
    } else {
        Some(JsonValue::Str(api))
    };
    let ghost api_view = ojview(api_v);
    obj_set(&mut obj, "api", api_v);
    let base_url_v = opt_str_value(trimmed_opt(&config.base_url));
    let ghost base_url_view = ojview(base_url_v);
    obj_set(&mut obj, "baseUrl", base_url_v);
    let name_v = opt_str_value(trimmed_opt(&config.display_name));
    let ghost name_view = ojview(name_v);
    obj_set(&mut obj, "name", name_v);
    let auth_v = match config.auth_header {
        Some(b) => Some(JsonValue::Bool(b)),
        None => None,
    };
    let ghost auth_view = ojview(auth_v);
    obj_set(&mut obj, "authHeader", auth_v);
    let key_v = opt_str_value(trimmed_opt(&config.api_key));
    let ghost key_view = ojview(key_v);
    obj_set(&mut obj, "apiKey", key_v);
    let models = models_to_entries(&config.models);
    let models_v = if models.len() == 0 {
        None
    } else {
        Some(JsonValue::Array(models))
    };
    let ghost models_view = ojview(models_v);
    proof {
        lemma_jview_seq(models@);
    }
    obj_set(&mut obj, "models", models_v);
    obj_set(&mut obj, "_ccSource", Some(JsonValue::Str(to_string("managed"))));
    proof {
        let ups = seq![
            ("type"@, None),
            ("api"@, api_view),
            ("baseUrl"@, base_url_view),
            ("name"@, name_view),
            ("authHeader"@, auth_view),
            ("apiKey"@, key_view),
            ("models"@, models_view),
            ("_ccSource"@, Some(JsonView::Str("managed"@))),
        ];
        lemma_provider_entry_updates(s0, ups, jview_entries(obj@));
    }
    JsonValue::Object(obj)
}

proof fn lemma_provider_entry_updates(
    base: ObjView,
    ups: Seq<(Seq<char>, Option<JsonView>)>,
    o: ObjView,
)
    requires
        ups.len() == 8,
        o == vset(
            vset(
                vset(
                    vset(
                        vset(
                            vset(vset(vset(base, ups[0].0, ups[0].1), ups[1].0, ups[1].1), ups[2].0, ups[2].1),
                            ups[3].0,
                            ups[3].1,
                        ),
                        ups[4].0,
                        ups[4].1,
                    ),
                    ups[5].0,
                    ups[5].1,
                ),
                ups[6].0,
                ups[6].1,
            ),
            ups[7].0,
            ups[7].1,
        ),
        ups[0].0 == "type"@,
        ups[1].0 == "api"@,
        ups[2].0 == "baseUrl"@,
        ups[3].0 == "name"@,
        ups[4].0 == "authHeader"@,
        ups[5].0 == "apiKey"@,
        ups[6].0 == "models"@,
        ups[7].0 == "_ccSource"@,
    ensures
        vget(o, "type"@) == ups[0].1,
        vget(o, "api"@) == ups[1].1,
        vget(o, "baseUrl"@) == ups[2].1,
        vget(o, "name"@) == ups[3].1,
        vget(o, "authHeader"@) == ups[4].1,
        vget(o, "apiKey"@) == ups[5].1,
        vget(o, "models"@) == ups[6].1,
        vget(o, "_ccSource"@) == ups[7].1,
        forall|k: Seq<char>| !owned_key(k) ==> #[trigger] vget(o, k) == vget(base, k),
        keys_unique(base) ==> keys_unique(o),
{
    lemma_entry_keys();
    reveal_with_fuel(vset_all, 9);
    reveal_with_fuel(last_update, 9);
    assert(ups.subrange(0, 8) =~= ups);
    assert(o == vset_all(base, ups)) by {
        assert(ups.drop_last() =~= ups.subrange(0, 7));
        assert(ups.subrange(0, 7).drop_last() =~= ups.subrange(0, 6));
        assert(ups.subrange(0, 6).drop_last() =~= ups.subrange(0, 5));
        assert(ups.subrange(0, 5).drop_last() =~= ups.subrange(0, 4));
        assert(ups.subrange(0, 4).drop_last() =~= ups.subrange(0, 3));
        assert(ups.subrange(0, 3).drop_last() =~= ups.subrange(0, 2));
        assert(ups.subrange(0, 2).drop_last() =~= ups.subrange(0, 1));
        assert(ups.subrange(0, 1).drop_last() =~= ups.subrange(0, 0));
    }
    lemma_vset_all(base, ups);
    assert("apiKey"@.len() == 6 && "api"@.len() == 3);
    assert(ups.subrange(0, 6).last() == ups[5]);
    assert(last_update(ups.subrange(0, 2), "api"@) == Some(ups[1].1));
    assert(last_update(ups.subrange(0, 3), "api"@) == Some(ups[1].1));
    assert(last_update(ups.subrange(0, 4), "api"@) == Some(ups[1].1));
    assert(last_update(ups.subrange(0, 5), "api"@) == Some(ups[1].1));
    assert(last_update(ups.subrange(0, 6), "api"@) == Some(ups[1].1));
    assert(last_update(ups.subrange(0, 7), "api"@) == Some(ups[1].1));
    assert(last_update(ups, "api"@) == Some(ups[1].1));
    assert(ups.drop_last() =~= ups.subrange(0, 7));
    assert(ups.subrange(0, 7).drop_last() =~= ups.subrange(0, 6));
    assert(ups.subrange(0, 6).drop_last() =~= ups.subrange(0, 5));
    assert(ups.subrange(0, 5).drop_last() =~= ups.subrange(0, 4));
    assert(ups.subrange(0, 4).drop_last() =~= ups.subrange(0, 3));
    assert(ups.subrange(0, 3).drop_last() =~= ups.subrange(0, 2));
    assert(ups.subrange(0, 2).drop_last() =~= ups.subrange(0, 1));
    assert(ups.subrange(0, 1).drop_last() =~= ups.subrange(0, 0));
}

/// The provider fragment read from a `models.yml` entry.
pub open spec fn spec_provider_from_entry(entry: JsonView, source: Seq<char>) -> OmpProviderConfigView {
    OmpProviderConfigView {
        api: match vstr(vfield(entry, "api"@)) {
            Some(a) => a,
            None => match vstr(vfield(entry, "type"@)) {
                Some(t) => t,
                None => "openai-completions"@,
            },
        },
        api_key: vstr(vfield(entry, "apiKey"@)),
        base_url: vstr(vfield(entry, "baseUrl"@)),
        models: match varr(vfield(entry, "models"@)) {
            Some(a) => models_from(a),
            None => seq![],
        },
        default_model_id: None,
        display_name: vstr(vfield(entry, "name"@)),
        auth_header: vbool(vfield(entry, "authHeader"@)),
        cc_source: Some(source),
    }
}

fn models_from_array(a: &Vec<JsonValue>) -> (r: Vec<OmpModel>)
    ensures
        r@.map_values(|m: OmpModel| m@) == models_from(jview_seq(a@)),
{
    proof {
        lemma_jview_seq(a@);
    }
    let mut out: Vec<OmpModel> = Vec::new();
    let mut i: usize = 0;
    while i < a.len()
        invariant
            0 <= i <= a.len(),
            jview_seq(a@).len() == a.len(),
            forall|j: int| 0 <= j < a.len() ==> #[trigger] jview_seq(a@)[j] == jview(a@[j]),
            out@.map_values(|m: OmpModel| m@) == models_from(jview_seq(a@).subrange(0, i as int)),
        decreases a.len() - i,
    {
        let ghost prev = out@;
        proof {
            let s = jview_seq(a@).subrange(0, i + 1);
            assert(s.drop_last() =~= jview_seq(a@).subrange(0, i as int));
            assert(s.last() == jview(a@[i as int]));
        }
        match model_from_entry(&a[i]) {
            Some(m) => {
                out.push(m);
                assert(out@.map_values(|m: OmpModel| m@) =~= prev.map_values(|m: OmpModel| m@).push(
                    out@.last()@,
                ));
            },
            None => {},
        }
        i = i + 1;
    }
    assert(jview_seq(a@).subrange(0, a.len() as int) =~= jview_seq(a@));
    out
}

/// The provider fragment described by a `models.yml` entry, marked with
/// `source`.
pub fn provider_from_entry(entry: &JsonValue, source: &str) -> (r: OmpProviderConfig)
    ensures
        r@ == spec_provider_from_entry(jview(*entry), source@),
{
    let api = match get_str(entry, "api") {
        Some(a) => a,
        None => match get_str(entry, "type") {
            Some(t) => t,
            None => default_omp_api(),
        },
    };
    let models = match entry.get("models") {
        Some(v) => match v.as_array() {
            Some(a) => models_from_array(a),
            None => Vec::new(),
        },
        None => Vec::new(),
    };
    let r = OmpProviderConfig {
        api,
        api_key: get_str(entry, "apiKey"),
        base_url: get_str(entry, "baseUrl"),
        models,
        default_model_id: None,
        display_name: get_str(entry, "name"),
        auth_header: get_bool(entry, "authHeader"),
        _cc_source: Some(to_string(source)),
    };
    proof {
        if r.models@.len() == 0 {
            assert(r.models@.map_values(|m: OmpModel| m@) =~= Seq::<OmpModelView>::empty());
        }
    }
    r
}


// ============================================================================
// Role selection (`modelRoles` in config.yml)
// ============================================================================

/// Model of a YAML mapping: its entries in order.
pub type RolesView = Seq<(JsonView, JsonView)>;

pub open spec fn rview(s: Seq<(JsonValue, JsonValue)>) -> RolesView
    decreases s,
{
    if s.len() == 0 {
        seq![]
    } else {
        seq![(jview(s[0].0), jview(s[0].1))] + rview(s.subrange(1, s.len() as int))
    }
}

pub proof fn lemma_rview(s: Seq<(JsonValue, JsonValue)>)
    ensures
        rview(s).len() == s.len(),
        forall|i: int|
            0 <= i < s.len() ==> #[trigger] rview(s)[i] == (jview(s[i].0), jview(s[i].1)),
    decreases s.len(),
{
    if s.len() > 0 {
        let t = s.subrange(1, s.len() as int);
        lemma_rview(t);
        assert forall|i: int| 0 <= i < s.len() implies #[trigger] rview(s)[i] == (
        jview(s[i].0), jview(s[i].1)) by {
            if i > 0 {
                assert(t[i - 1] == s[i]);
            }
        }
    }
}

/// Index of the first entry whose key is the string `role`, or -1.
pub open spec fn role_index(r: RolesView, role: Seq<char>) -> int
    decreases r.len(),
{
    if r.len() == 0 {
        -1
    } else if r[0].0 == JsonView::Str(role) {
        0
    } else {
        let i = role_index(r.subrange(1, r.len() as int), role);
        if i < 0 {
            -1
        } else {
            i + 1
        }
    }
}

pub proof fn lemma_role_index(r: RolesView, role: Seq<char>)
    ensures
        -1 <= role_index(r, role) < r.len(),
        role_index(r, role) >= 0 ==> r[role_index(r, role)].0 == JsonView::Str(role),
        forall|j: int|
            0 <= j < r.len() && r[j].0 == JsonView::Str(role) ==> 0 <= role_index(r, role) <= j,
    decreases r.len(),
{
    if r.len() > 0 && r[0].0 != JsonView::Str(role) {
        let t = r.subrange(1, r.len() as int);
        lemma_role_index(t, role);
        if role_index(t, role) >= 0 {
            assert(r[role_index(t, role) + 1] == t[role_index(t, role)]);
        }
        assert forall|j: int| 0 <= j < r.len() && r[j].0 == JsonView::Str(role) implies 0
            <= role_index(r, role) <= j by {
            assert(t[j - 1] == r[j]);
        }
    }
}

/// The value of role `role`.
pub open spec fn role_get(r: RolesView, role: Seq<char>) -> Option<JsonView> {
    let i = role_index(r, role);
    if 0 <= i < r.len() {
        Some(r[i].1)
    } else {
        None
    }
}

/// `Mapping::swap_remove`: the last entry takes the place of the removed one.
pub open spec fn swap_remove(r: RolesView, i: int) -> RolesView {
    if i == r.len() - 1 {
        r.drop_last()
    } else {
        r.drop_last().update(i, r.last())
    }
}

fn role_index_exec(roles: &Vec<(JsonValue, JsonValue)>, role: &str) -> (r: Option<usize>)
    ensures
        match r {
            Some(i) => i < roles.len() && role_index(rview(roles@), role@) == i as int,
            None => role_index(rview(roles@), role@) == -1,
        },
{
    let ghost rv = rview(roles@);
    proof {
        lemma_rview(roles@);
        lemma_role_index(rv, role@);
    }
    let mut i: usize = 0;
    while i < roles.len()
        invariant
            0 <= i <= roles.len(),
            rv == rview(roles@),
            rv.len() == roles.len(),
            forall|j: int| 0 <= j < rv.len() ==> #[trigger] rv[j] == (jview(roles@[j].0), jview(roles@[j].1)),
            forall|j: int| 0 <= j < i ==> rv[j].0 != JsonView::Str(role@),
            forall|j: int|
                0 <= j < rv.len() && rv[j].0 == JsonView::Str(role@) ==> 0 <= role_index(rv, role@) <= j,
            -1 <= role_index(rv, role@) < rv.len(),
            role_index(rv, role@) >= 0 ==> rv[role_index(rv, role@)].0 == JsonView::Str(role@),
        decreases roles.len() - i,
    {
        match &roles[i].0 {
            JsonValue::Str(k) => {
                if str_eq(k.as_str(), role) {
                    assert(jview(roles@[i as int].0) == JsonView::Str(role@));
                    assert(rv[i as int].0 == JsonView::Str(role@));
                    return Some(i);
                }
            },
            _ => {},
        }
        i = i + 1;
    }
    None
}

/// The value of role `role` in a roles mapping.
pub fn role_value<'a>(roles: &'a Vec<(JsonValue, JsonValue)>, role: &str) -> (r: Option<&'a JsonValue>)
    ensures
        match r {
            Some(v) => role_get(rview(roles@), role@) == Some(jview(*v)),
            None => role_get(rview(roles@), role@) is None,
        },
{
    proof {
        lemma_rview(roles@);
    }
    match role_index_exec(roles, role) {
        Some(i) => Some(&roles[i].1),
        None => None,
    }
}

/// The string-to-string entries of a roles mapping, in order.
pub open spec fn string_roles(r: RolesView) -> Seq<(Seq<char>, Seq<char>)>
    decreases r.len(),
{
    if r.len() == 0 {
        seq![]
    } else {
        let prev = string_roles(r.drop_last());
        match (r.last().0, r.last().1) {
            (JsonView::Str(k), JsonView::Str(v)) => prev.push((k, v)),
            _ => prev,
        }
    }
}

/// The live `modelRoles` selectors: only entries whose key and value are
/// both strings.
pub fn get_model_roles(roles: &Vec<(JsonValue, JsonValue)>) -> (r: Vec<(String, String)>)
    ensures
        r@.map_values(|p: (String, String)| (p.0@, p.1@)) == string_roles(rview(roles@)),
{
    proof {
        lemma_rview(roles@);
    }
    let mut out: Vec<(String, String)> = Vec::new();
    let mut i: usize = 0;
    while i < roles.len()
        invariant
            0 <= i <= roles.len(),
            rview(roles@).len() == roles.len(),
            forall|j: int| 0 <= j < roles.len() ==> #[trigger] rview(roles@)[j] == (jview(roles@[j].0), jview(roles@[j].1)),
            out@.map_values(|p: (String, String)| (p.0@, p.1@)) == string_roles(
                rview(roles@).subrange(0, i as int),
            ),
        decreases roles.len() - i,
    {
        let ghost prev = out@;
        proof {
            let t = rview(roles@).subrange(0, i + 1);
            assert(t.drop_last() =~= rview(roles@).subrange(0, i as int));
            assert(t.last() == rview(roles@)[i as int]);
        }
        match (&roles[i].0, &roles[i].1) {
            (JsonValue::Str(k), JsonValue::Str(v)) => {
                out.push((k.clone(), v.clone()));
                assert(out@.map_values(|p: (String, String)| (p.0@, p.1@)) =~= prev.map_values(
                    |p: (String, String)| (p.0@, p.1@),
                ).push((k@, v@)));
            },
            _ => {},
        }
        i = i + 1;
    }
    assert(rview(roles@).subrange(0, roles.len() as int) =~= rview(roles@));
    out
}

/// The provider key of a `<key>/<model>` selector: the trimmed text before
/// the first `/`, when there is a `/` and that text is not blank.
pub open spec fn selector_provider(sel: Seq<char>) -> Option<Seq<char>> {
    let i = crate::text::find_char(sel, '/');
    if i < 0 {
        None
    } else if trim(sel.subrange(0, i)).len() > 0 {
        Some(trim(sel.subrange(0, i)))
    } else {
        None
    }
}

/// The provider key referenced by the `default` role selector, if any.
pub fn get_default_role_provider_id(roles: &Vec<(JsonValue, JsonValue)>) -> (r: Option<String>)
    ensures
        opt_view(r) == match vstr(role_get(rview(roles@), "default"@)) {
            Some(sel) => selector_provider(sel),
            None => None,
        },
{
    let sel = match role_value(roles, "default") {
        Some(v) => match v.as_str() {
            Some(s) => s,
            None => {
                return None;
            },
        },
        None => {
            return None;
        },
    };
    let v = chars_of(sel.as_str());
    match crate::text::find_char_in(&v, 0, v.len(), '/') {
        Some(i) => {
            assert(v@.subrange(0, v@.len() as int) =~= v@);
            let (a, b) = crate::text::trim_range(&v, 0, i);
            if a == b {
                None
            } else {
                Some(crate::text::string_from(&v, a, b))
            }
        },
        None => {
            assert(v@.subrange(0, v@.len() as int) =~= v@);
            None
        },
    }
}


/// The selector `<provider>/<model>`.
pub open spec fn selector(provider_id: Seq<char>, model_id: Seq<char>) -> Seq<char> {
    provider_id + seq!['/'] + model_id
}

/// Roles with `role` set to the string `sel`: in place when present,
/// appended otherwise.
pub open spec fn role_set(r: RolesView, role: Seq<char>, sel: Seq<char>) -> RolesView {
    let i = role_index(r, role);
    if 0 <= i < r.len() {
        r.update(i, (JsonView::Str(role), JsonView::Str(sel)))
    } else {
        r.push((JsonView::Str(role), JsonView::Str(sel)))
    }
}

fn swap_remove_exec(roles: &mut Vec<(JsonValue, JsonValue)>, i: usize)
    requires
        i < old(roles).len(),
    ensures
        rview(final(roles)@) == swap_remove(rview(old(roles)@), i as int),
{
    let ghost before = roles@;
    roles.swap_remove(i);
    proof {
        lemma_rview(before);
        lemma_rview(roles@);
        assert(rview(roles@) =~= swap_remove(rview(before), i as int));
    }
}

/// Points `role` at `<provider_id>/<model_id>`; returns whether anything
/// changed (an identical selector is left alone).
pub fn set_role_selector(
    roles: &mut Vec<(JsonValue, JsonValue)>,
    role: &str,
    provider_id: &str,
    model_id: &str,
) -> (changed: bool)
    ensures
        changed == (vstr(role_get(rview(old(roles)@), role@)) != Some(
            selector(provider_id@, model_id@),
        )),
        rview(final(roles)@) == if changed {
            role_set(rview(old(roles)@), role@, selector(provider_id@, model_id@))
        } else {
            rview(old(roles)@)
        },
{
    let mut sel = to_string(provider_id);
    crate::text::push_char(&mut sel, '/');
    crate::text::push_str(&mut sel, model_id);
    assert(sel@ =~= selector(provider_id@, model_id@));
    let ghost before = roles@;
    proof {
        lemma_rview(before);
        lemma_role_index(rview(before), role@);
    }
    match role_index_exec(roles, role) {
        Some(i) => {
            let same = match roles[i].1.as_str() {
                Some(cur) => str_eq(cur.as_str(), sel.as_str()),
                None => false,
            };
            if same {
                return false;
            }
            roles.set(i, (JsonValue::Str(to_string(role)), JsonValue::Str(sel)));
            proof {
                lemma_rview(roles@);
                assert(rview(roles@) =~= role_set(rview(before), role@, selector(provider_id@, model_id@)));
            }
            true
        },
        None => {
            roles.push((JsonValue::Str(to_string(role)), JsonValue::Str(sel)));
            proof {
                lemma_rview(roles@);
                assert(rview(roles@) =~= role_set(rview(before), role@, selector(provider_id@, model_id@)));
            }
            true
        },
    }
}

/// Removes `role` (`Mapping::remove`, which moves the last entry into its
/// place); returns whether it was present.
pub fn clear_role(roles: &mut Vec<(JsonValue, JsonValue)>, role: &str) -> (changed: bool)
    ensures
        changed == (role_index(rview(old(roles)@), role@) >= 0),
        rview(final(roles)@) == if changed {
            swap_remove(rview(old(roles)@), role_index(rview(old(roles)@), role@))
        } else {
            rview(old(roles)@)
        },
{
    match role_index_exec(roles, role) {
        Some(i) => {
            swap_remove_exec(roles, i);
            true
        },
        None => false,
    }
}

/// Index of the first entry with key `k`, or -1.
pub open spec fn key_index(r: RolesView, k: JsonView) -> int
    decreases r.len(),
{
    if r.len() == 0 {
        -1
    } else if r[0].0 == k {
        0
    } else {
        let i = key_index(r.subrange(1, r.len() as int), k);
        if i < 0 {
            -1
        } else {
            i + 1
        }
    }
}

proof fn lemma_key_index(r: RolesView, k: JsonView)
    ensures
        -1 <= key_index(r, k) < r.len(),
        key_index(r, k) >= 0 ==> r[key_index(r, k)].0 == k,
        forall|j: int| 0 <= j < r.len() && r[j].0 == k ==> 0 <= key_index(r, k) <= j,
    decreases r.len(),
{
    if r.len() > 0 && r[0].0 != k {
        let t = r.subrange(1, r.len() as int);
        lemma_key_index(t, k);
        if key_index(t, k) >= 0 {
            assert(r[key_index(t, k) + 1] == t[key_index(t, k)]);
        }
        assert forall|j: int| 0 <= j < r.len() && r[j].0 == k implies 0 <= key_index(r, k) <= j by {
            assert(t[j - 1] == r[j]);
        }
    }
}

/// Position of the first entry whose key equals `key`.
fn key_index_exec(roles: &Vec<(JsonValue, JsonValue)>, key: &JsonValue) -> (r: Option<usize>)
    ensures
        match r {
            Some(i) => i < roles.len() && key_index(rview(roles@), jview(*key)) == i as int,
            None => key_index(rview(roles@), jview(*key)) == -1,
        },
{
    let ghost rv = rview(roles@);
    let ghost k = jview(*key);
    proof {
        lemma_rview(roles@);
        lemma_key_index(rv, k);
    }
    let mut i: usize = 0;
    while i < roles.len()
        invariant
            0 <= i <= roles.len(),
            rv == rview(roles@),
            k == jview(*key),
            rv.len() == roles.len(),
            forall|j: int| 0 <= j < rv.len() ==> #[trigger] rv[j] == (jview(roles@[j].0), jview(roles@[j].1)),
            forall|j: int| 0 <= j < i ==> rv[j].0 != k,
            forall|j: int| 0 <= j < rv.len() && rv[j].0 == k ==> 0 <= key_index(rv, k) <= j,
            -1 <= key_index(rv, k) < rv.len(),
            key_index(rv, k) >= 0 ==> rv[key_index(rv, k)].0 == k,
        decreases roles.len() - i,
    {
        if crate::json::json_eq(&roles[i].0, key) {
            assert(rv[i as int].0 == k);
            return Some(i);
        }
        i = i + 1;
    }
    None
}

/// Keys whose value is a string starting with `prefix`, in order.
pub open spec fn stale_keys(r: RolesView, prefix: Seq<char>) -> Seq<JsonView>
    decreases r.len(),
{
    if r.len() == 0 {
        seq![]
    } else {
        let prev = stale_keys(r.drop_last(), prefix);
        match vstr(Some(r.last().1)) {
            Some(v) => if crate::text::starts_with(v, prefix) {
                prev.push(r.last().0)
            } else {
                prev
            },
            None => prev,
        }
    }
}

/// Roles after removing each key of `ks` in turn (`Mapping::remove`).
pub open spec fn remove_keys(r: RolesView, ks: Seq<JsonView>) -> RolesView
    decreases ks.len(),
{
    if ks.len() == 0 {
        r
    } else {
        let r1 = remove_keys(r, ks.drop_last());
        let i = key_index(r1, ks.last());
        if 0 <= i < r1.len() {
            swap_remove(r1, i)
        } else {
            r1
        }
    }
}

/// Removes every role whose selector starts with `<provider_id>/`; returns
/// whether any was removed.
pub fn strip_roles_for_provider(roles: &mut Vec<(JsonValue, JsonValue)>, provider_id: &str) -> (changed: bool)
    ensures
        changed == (stale_keys(rview(old(roles)@), provider_id@.push('/')).len() > 0),
        rview(final(roles)@) == remove_keys(
            rview(old(roles)@),
            stale_keys(rview(old(roles)@), provider_id@.push('/')),
        ),
{
    let mut prefix = to_string(provider_id);
    crate::text::push_char(&mut prefix, '/');
    let pv = chars_of(prefix.as_str());
    let ghost r0 = rview(roles@);
    proof {
        lemma_rview(roles@);
    }
    let mut stale: Vec<JsonValue> = Vec::new();
    let mut i: usize = 0;
    while i < roles.len()
        invariant
            0 <= i <= roles.len(),
            r0 == rview(roles@),
            r0.len() == roles.len(),
            pv@ == provider_id@.push('/'),
            forall|j: int| 0 <= j < roles.len() ==> #[trigger] r0[j] == (jview(roles@[j].0), jview(roles@[j].1)),
            crate::json::jview_seq(stale@) == stale_keys(r0.subrange(0, i as int), pv@),
        decreases roles.len() - i,
    {
        let ghost prev = stale@;
        proof {
            let t = r0.subrange(0, i + 1);
            assert(t.drop_last() =~= r0.subrange(0, i as int));
            assert(t.last() == r0[i as int]);
        }
        let hit = match roles[i].1.as_str() {
            Some(v) => {
                let vv = chars_of(v.as_str());
                assert(vv@.subrange(0, vv@.len() as int) =~= vv@);
                crate::text::range_starts_with(&vv, 0, vv.len(), &pv)
            },
            None => false,
        };
        if hit {
            let k = crate::json::clone_json(&roles[i].0);
            stale.push(k);
            proof {
                crate::json::lemma_jview_seq(prev);
                crate::json::lemma_jview_seq(stale@);
                assert(crate::json::jview_seq(stale@) =~= crate::json::jview_seq(prev).push(jview(stale@.last())));
            }
        }
        i = i + 1;
    }
    assert(r0.subrange(0, roles.len() as int) =~= r0);
    let ghost ks = stale_keys(r0, pv@);
    proof {
        crate::json::lemma_jview_seq(stale@);
    }
    let mut t: usize = 0;
    while t < stale.len()
        invariant
            0 <= t <= stale.len(),
            ks == crate::json::jview_seq(stale@),
            ks.len() == stale.len(),
            forall|j: int| 0 <= j < stale.len() ==> #[trigger] ks[j] == jview(stale@[j]),
            rview(roles@) == remove_keys(r0, ks.subrange(0, t as int)),
        decreases stale.len() - t,
    {
        let ghost cur = rview(roles@);
        proof {
            lemma_rview(roles@);
            lemma_key_index(cur, ks[t as int]);
            assert(ks.subrange(0, t + 1).drop_last() =~= ks.subrange(0, t as int));
            assert(ks.subrange(0, t + 1).last() == ks[t as int]);
        }
        match key_index_exec(roles, &stale[t]) {
            Some(idx) => {
                swap_remove_exec(roles, idx);
            },
            None => {},
        }
        t = t + 1;
    }
    assert(ks.subrange(0, stale.len() as int) =~= ks);
    stale.len() > 0
}

} // verus!
