//! Pi coding agent configuration (`~/.pi/agent`).
//!
//! Providers coexist under `providers.<id>` in `models.json`; API keys live in
//! `auth.json` as `{"type": "api_key", "key": ...}` per provider, next to
//! OAuth entries that Pi owns (never read into storage, never overwritten,
//! never removed here); the selection is `defaultProvider` + `defaultModel`
//! in `settings.json`. Reading and writing the files is the caller's part;
//! what each operation does to the parsed documents is stated here.
use vstd::prelude::*;
use crate::error::AppError;
use crate::json::{
    clone_entries, clone_json, jview, jview_entries, jview_seq, lemma_jview_entries,
    lemma_jview_seq, lemma_vinsert, lemma_vremove, obj_get, obj_insert, obj_remove, obj_set,
    obool, ojview, ostr, ou64, varr, vbool, vfield, vget, vinsert, vobj, vremove, vset, vstr,
    vu64, JsonNumber, JsonValue, JsonView, ObjView,
};
use crate::kimi_config::{strings_of, strs_view, opt_strs_view};
use crate::omp_config::{opt_entry, opt_str_value, push_opt};
use crate::omp_ops::{
    dview, spec_entry_has_markers, spec_providers_have_markers, spec_strip_markers,
    strip_takeover_markers, entry_has_takeover_markers, providers_have_takeover_markers,
};
use crate::text::{
    chars_of, opt_view, starts_with, str_eq, str_starts_with, string_from, to_string, trim,
    trim_str, trimmed_nonempty, trimmed_opt,
};
use crate::version::{known_older, spec_known_older};

verus! {

/// Minimum Pi version whose `models.json` merge semantics match what is
/// written here.
pub const MIN_PI_VERSION: &'static str = "0.52.7";

/// Compatibility gate: refuses when the detected Pi version is known to be
/// older than [`MIN_PI_VERSION`]; an unknown version does not block.
pub fn assert_pi_compatible(detected: Option<&str>) -> (r: Result<(), AppError>)
    ensures
        r is Err <==> spec_known_older(dview(detected), MIN_PI_VERSION@),
        r matches Err(e) ==> (e matches AppError::PiIncompatibleVersion(v) && Some(v@) == dview(
            detected,
        )),
{
    if known_older(detected, MIN_PI_VERSION) {
        match detected {
            Some(d) => Err(AppError::PiIncompatibleVersion(to_string(d))),
            None => Ok(()),
        }
    } else {
        Ok(())
    }
}

pub const PROVIDER_SOURCE_MANAGED: &'static str = "managed";

pub const PROVIDER_SOURCE_USER: &'static str = "user";

pub const PROVIDER_SOURCE_OAUTH: &'static str = "oauth";

/// Whether a provider id is reserved (`managed:` prefix) and read-only.
pub open spec fn spec_is_managed_provider_id(id: Seq<char>) -> bool {
    starts_with(id, "managed:"@)
}

/// Whether a provider id is reserved and read-only.
pub fn is_managed_provider_id(id: &str) -> (r: bool)
    ensures
        r == spec_is_managed_provider_id(id@),
{
    str_starts_with(id, "managed:")
}

/// A refusal to write a reserved provider.
pub fn ensure_writable_provider(id: &str) -> (r: Result<(), AppError>)
    ensures
        r is Ok <==> !spec_is_managed_provider_id(id@),
        r matches Err(e) ==> (e matches AppError::PiManagedReadonly(k) && k@ == id@),
{
    if is_managed_provider_id(id) {
        Err(AppError::PiManagedReadonly(to_string(id)))
    } else {
        Ok(())
    }
}

/// The protocol of a provider that declares none.
pub fn default_pi_api() -> (s: String)
    ensures
        s@ == "anthropic-messages"@,
{
    to_string("anthropic-messages")
}

// ============================================================================
// Provider fragment
// ============================================================================

/// A model of a provider (`settingsConfig.models[]`).
#[derive(Debug)]
pub struct PiModel {
    pub id: String,
    pub name: Option<String>,
    /// Per-model API override.
    pub api: Option<String>,
    pub reasoning: Option<bool>,
    pub input: Option<Vec<String>>,
    /// Cost object, passed through.
    pub cost: Option<JsonValue>,
    pub context_window: Option<u64>,
    pub max_tokens: Option<u64>,
    /// Compatibility object, passed through.
    pub compat: Option<JsonValue>,
    /// Thinking-level map, passed through.
    pub thinking_level_map: Option<Vec<(String, JsonValue)>>,
}

pub struct PiModelView {
    pub id: Seq<char>,
    pub name: Option<Seq<char>>,
    pub api: Option<Seq<char>>,
    pub reasoning: Option<bool>,
    pub input: Option<Seq<Seq<char>>>,
    pub cost: Option<JsonView>,
    pub context_window: Option<u64>,
    pub max_tokens: Option<u64>,
    pub compat: Option<JsonView>,
    pub thinking_level_map: Option<ObjView>,
}

pub open spec fn ojv(o: Option<JsonValue>) -> Option<JsonView> {
    ojview(o)
}

pub open spec fn oentries(o: Option<Vec<(String, JsonValue)>>) -> Option<ObjView> {
    match o {
        Some(e) => Some(jview_entries(e@)),
        None => None,
    }
}

impl View for PiModel {
    type V = PiModelView;

    open spec fn view(&self) -> PiModelView {
        PiModelView {
            id: self.id@,
            name: opt_view(self.name),
            api: opt_view(self.api),
            reasoning: self.reasoning,
            input: opt_strs_view(self.input),
            cost: ojv(self.cost),
            context_window: self.context_window,
            max_tokens: self.max_tokens,
            compat: ojv(self.compat),
            thinking_level_map: oentries(self.thinking_level_map),
        }
    }
}

/// A provider fragment (`settingsConfig`).
#[derive(Debug)]
pub struct PiProviderConfig {
    /// API protocol (`anthropic-messages`, `openai-completions`, ...).
    pub provider_type: String,
    pub api_key: Option<String>,
    pub base_url: Option<String>,
    pub models: Vec<PiModel>,
    /// Preferred model used for `defaultModel`.
    pub default_model_id: Option<String>,
    /// `name` in `models.json`.
    pub display_name: Option<String>,
    /// Custom HTTP headers, in key order.
    pub headers: Option<Vec<(String, String)>>,
    /// Compatibility object, passed through.
    pub compat: Option<JsonValue>,
    /// `authHeader` in `models.json`.
    pub auth_header: Option<bool>,
    /// Where a provider read from live config comes from.
    pub _cc_source: Option<String>,
}

pub struct PiProviderConfigView {
    pub provider_type: Seq<char>,
    pub api_key: Option<Seq<char>>,
    pub base_url: Option<Seq<char>>,
    pub models: Seq<PiModelView>,
    pub default_model_id: Option<Seq<char>>,
    pub display_name: Option<Seq<char>>,
    pub headers: Option<Seq<(Seq<char>, Seq<char>)>>,
    pub compat: Option<JsonView>,
    pub auth_header: Option<bool>,
    pub cc_source: Option<Seq<char>>,
}

pub open spec fn headers_view(h: Option<Vec<(String, String)>>) -> Option<Seq<(Seq<char>, Seq<char>)>> {
    match h {
        Some(v) => Some(v@.map_values(|p: (String, String)| (p.0@, p.1@))),
        None => None,
    }
}

impl View for PiProviderConfig {
    type V = PiProviderConfigView;

    open spec fn view(&self) -> PiProviderConfigView {
        PiProviderConfigView {
            provider_type: self.provider_type@,
            api_key: opt_view(self.api_key),
            base_url: opt_view(self.base_url),
            models: self.models@.map_values(|m: PiModel| m@),
            default_model_id: opt_view(self.default_model_id),
            display_name: opt_view(self.display_name),
            headers: headers_view(self.headers),
            compat: ojv(self.compat),
            auth_header: self.auth_header,
            cc_source: opt_view(self._cc_source),
        }
    }
}

impl PiProviderConfig {
    /// The default fragment: `anthropic-messages`, nothing else set.
    pub fn default() -> (c: Self)
        ensures
            c@.provider_type == "anthropic-messages"@,
            c@.api_key is None,
            c@.base_url is None,
            c@.models.len() == 0,
            c@.default_model_id is None,
            c@.display_name is None,
            c@.headers is None,
            c@.compat is None,
            c@.auth_header is None,
            c@.cc_source is None,
    {
        PiProviderConfig {
            provider_type: default_pi_api(),
            api_key: None,
            base_url: None,
            models: Vec::new(),
            default_model_id: None,
            display_name: None,
            headers: None,
            compat: None,
            auth_header: None,
            _cc_source: None,
        }
    }
}

// ============================================================================
// models.json entries
// ============================================================================

/// A string array value.
pub open spec fn str_array_view(v: Seq<Seq<char>>) -> JsonView {
    JsonView::Array(v.map_values(|s: Seq<char>| JsonView::Str(s)))
}

/// The value of an optional object (present only when it is an object).
pub open spec fn if_object(o: Option<JsonView>) -> Option<JsonView> {
    match o {
        Some(JsonView::Object(m)) => Some(JsonView::Object(m)),
        _ => None,
    }
}

/// The `models.json` entry of a model: `id` trimmed; `name` and `api` when
/// not blank; `reasoning`; `input` when not empty; `cost` when an object;
/// `contextWindow`, `maxTokens`; `compat` when an object; and the
/// thinking-level map.
pub open spec fn pi_model_entry(m: PiModelView) -> ObjView {
    seq![("id"@, JsonView::Str(trim(m.id)))] + opt_entry("name"@, ostr(trimmed_nonempty(m.name)))
        + opt_entry("api"@, ostr(trimmed_nonempty(m.api))) + opt_entry("reasoning"@, obool(m.reasoning))
        + opt_entry(
        "input"@,
        match m.input {
            Some(i) => if i.len() > 0 {
                Some(str_array_view(i))
            } else {
                None
            },
            None => None,
        },
    ) + opt_entry("cost"@, if_object(m.cost)) + opt_entry("contextWindow"@, ou64(m.context_window))
        + opt_entry("maxTokens"@, ou64(m.max_tokens)) + opt_entry("compat"@, if_object(m.compat))
        + opt_entry(
        "thinkingLevelMap"@,
        match m.thinking_level_map {
            Some(t) => Some(JsonView::Object(t)),
            None => None,
        },
    )
}

fn str_array_json(v: &Vec<String>) -> (r: JsonValue)
    ensures
        jview(r) == str_array_view(strs_view(v@)),
{
    let mut out: Vec<JsonValue> = Vec::new();
    let mut i: usize = 0;
    while i < v.len()
        invariant
            0 <= i <= v.len(),
            out@.len() == i,
            forall|j: int| 0 <= j < i ==> #[trigger] jview(out@[j]) == JsonView::Str(v@[j]@),
        decreases v.len() - i,
    {
        out.push(JsonValue::Str(v[i].clone()));
        i = i + 1;
    }
    proof {
        lemma_jview_seq(out@);
        assert(jview_seq(out@) =~= strs_view(v@).map_values(|s: Seq<char>| JsonView::Str(s)));
    }
    JsonValue::Array(out)
}

fn object_only(o: &Option<JsonValue>) -> (r: Option<JsonValue>)
    ensures
        ojview(r) == if_object(ojv(*o)),
{
    match o {
        Some(JsonValue::Object(m)) => Some(JsonValue::Object(clone_entries(m))),
        _ => None,
    }
}

/// The `models.json` entry of a model.
pub fn model_to_models_json(model: &PiModel) -> (r: JsonValue)
    ensures
        jview(r) == JsonView::Object(pi_model_entry(model@)),
{
    let mut obj: Vec<(String, JsonValue)> = Vec::new();
    proof {
        lemma_jview_entries(obj@);
        assert(jview_entries(obj@) =~= Seq::empty());
    }
    push_opt(&mut obj, "id", Some(JsonValue::Str(trim_str(model.id.as_str()))));
    push_opt(&mut obj, "name", opt_str_value(trimmed_opt(&model.name)));
    push_opt(&mut obj, "api", opt_str_value(trimmed_opt(&model.api)));
    push_opt(
        &mut obj,
        "reasoning",
        match model.reasoning {
            Some(b) => Some(JsonValue::Bool(b)),
            None => None,
        },
    );
    push_opt(
        &mut obj,
        "input",
        match &model.input {
            Some(i) => if i.len() > 0 {
                Some(str_array_json(i))
            } else {
                None
            },
            None => None,
        },
    );
    push_opt(&mut obj, "cost", object_only(&model.cost));
    push_opt(
        &mut obj,
        "contextWindow",
        match model.context_window {
            Some(n) => Some(JsonValue::Number(JsonNumber::PosInt(n))),
            None => None,
        },
    );
    push_opt(
        &mut obj,
        "maxTokens",
        match model.max_tokens {
            Some(n) => Some(JsonValue::Number(JsonNumber::PosInt(n))),
            None => None,
        },
    );
    push_opt(&mut obj, "compat", object_only(&model.compat));
    push_opt(
        &mut obj,
        "thinkingLevelMap",
        match &model.thinking_level_map {
            Some(t) => Some(JsonValue::Object(clone_entries(t))),
            None => None,
        },
    );
    proof {
        assert(jview_entries(obj@) =~= pi_model_entry(model@));
    }
    JsonValue::Object(obj)
}

/// The model of a `models.json` model entry: an object with a non-blank
/// string `id` (trimmed); the other fields read as they are.
pub open spec fn spec_pi_model_from(v: JsonView) -> Option<PiModelView> {
    match v {
        JsonView::Object(o) => match vstr(vget(o, "id"@)) {
            Some(id) => if trim(id).len() > 0 {
                Some(
                    PiModelView {
                        id: trim(id),
                        name: vstr(vget(o, "name"@)),
                        api: vstr(vget(o, "api"@)),
                        reasoning: vbool(vget(o, "reasoning"@)),
                        input: match vget(o, "input"@) {
                            Some(JsonView::Array(a)) => Some(strings_of(a)),
                            _ => None,
                        },
                        cost: vget(o, "cost"@),
                        context_window: vu64(vget(o, "contextWindow"@)),
                        max_tokens: vu64(vget(o, "maxTokens"@)),
                        compat: vget(o, "compat"@),
                        thinking_level_map: match vget(o, "thinkingLevelMap"@) {
                            Some(JsonView::Object(t)) => Some(t),
                            _ => None,
                        },
                    },
                )
            } else {
                None
            },
            None => None,
        },
        _ => None,
    }
}

fn opt_clone(o: Option<&JsonValue>) -> (r: Option<JsonValue>)
    ensures
        ojview(r) == match o {
            Some(x) => Some(jview(*x)),
            None => None,
        },
{
    match o {
        Some(x) => Some(clone_json(x)),
        None => None,
    }
}

/// The model described by a `models.json` model entry.
pub fn model_from_models_json(value: &JsonValue) -> (r: Option<PiModel>)
    ensures
        match r {
            Some(m) => spec_pi_model_from(jview(*value)) == Some(m@),
            None => spec_pi_model_from(jview(*value)) is None,
        },
{
    let o = match value.as_object() {
        Some(o) => o,
        None => {
            return None;
        },
    };
    let id = match obj_get(o, "id") {
        Some(v) => match v.as_str() {
            Some(s) => trim_str(s.as_str()),
            None => {
                return None;
            },
        },
        None => {
            return None;
        },
    };
    if id.as_str().is_empty() {
        return None;
    }
    let get_s = |k: &str| -> (r: Option<String>)
        ensures
            opt_view(r) == vstr(vget(jview_entries(o@), k@)),
        {
            match obj_get(o, k) {
                Some(v) => match v.as_str() {
                    Some(s) => Some(s.clone()),
                    None => None,
                },
                None => None,
            }
        };
    let input = match obj_get(o, "input") {
        Some(JsonValue::Array(_)) => crate::kimi_config::table_string_array(o, "input"),
        _ => None,
    };
    let tlm = match obj_get(o, "thinkingLevelMap") {
        Some(JsonValue::Object(t)) => Some(clone_entries(t)),
        _ => None,
    };
    Some(
        PiModel {
            id,
            name: get_s("name"),
            api: get_s("api"),
            reasoning: match obj_get(o, "reasoning") {
                Some(v) => v.as_bool(),
                None => None,
            },
            input,
            cost: opt_clone(obj_get(o, "cost")),
            context_window: match obj_get(o, "contextWindow") {
                Some(v) => v.as_u64(),
                None => None,
            },
            max_tokens: match obj_get(o, "maxTokens") {
                Some(v) => v.as_u64(),
                None => None,
            },
            compat: opt_clone(obj_get(o, "compat")),
            thinking_level_map: tlm,
        },
    )
}

/// The entries of the models with a non-blank id, in order.
pub open spec fn pi_model_entries(ms: Seq<PiModelView>) -> Seq<JsonView>
    decreases ms.len(),
{
    if ms.len() == 0 {
        seq![]
    } else if trim(ms.last().id).len() > 0 {
        pi_model_entries(ms.drop_last()).push(JsonView::Object(pi_model_entry(ms.last())))
    } else {
        pi_model_entries(ms.drop_last())
    }
}

/// The headers object.
pub open spec fn headers_object(h: Seq<(Seq<char>, Seq<char>)>) -> ObjView {
    h.map_values(|p: (Seq<char>, Seq<char>)| (p.0, JsonView::Str(p.1)))
}

/// The `models.json` entry of a provider, over the keys of an existing entry
/// (`base`): `api`, `baseUrl`, `name`, `headers`, `compat`, `authHeader` and
/// `models` set from the fragment (each removed when not given); every
/// other key kept.
pub open spec fn spec_provider_entry(c: PiProviderConfigView, base: ObjView) -> ObjView {
    let o1 = vset(
        base,
        "api"@,
        if trim(c.provider_type).len() == 0 {
            None
        } else {
            Some(JsonView::Str(trim(c.provider_type)))
        },
    );
    let o2 = vset(o1, "baseUrl"@, ostr(trimmed_nonempty(c.base_url)));
    let o3 = vset(o2, "name"@, ostr(trimmed_nonempty(c.display_name)));
    let o4 = vset(
        o3,
        "headers"@,
        match c.headers {
            Some(h) => if h.len() > 0 {
                Some(JsonView::Object(headers_object(h)))
            } else {
                None
            },
            None => None,
        },
    );
    let o5 = vset(o4, "compat"@, if_object(c.compat));
    let o6 = vset(o5, "authHeader"@, obool(c.auth_header));
    let ms = pi_model_entries(c.models);
    vset(
        o6,
        "models"@,
        if ms.len() == 0 {
            None
        } else {
            Some(JsonView::Array(ms))
        },
    )
}

/// The object of an optional existing entry (empty when it is not one).
pub open spec fn existing_obj(existing: Option<JsonView>) -> ObjView {
    match existing {
        Some(JsonView::Object(o)) => o,
        _ => seq![],
    }
}

pub open spec fn ref_view(o: Option<&JsonValue>) -> Option<JsonView> {
    match o {
        Some(x) => Some(jview(*x)),
        None => None,
    }
}

fn pi_models_to_entries(models: &Vec<PiModel>) -> (r: Vec<JsonValue>)
    ensures
        jview_seq(r@) == pi_model_entries(models@.map_values(|m: PiModel| m@)),
{
    let ghost ms = models@.map_values(|m: PiModel| m@);
    let mut out: Vec<JsonValue> = Vec::new();
    let mut i: usize = 0;
    while i < models.len()
        invariant
            0 <= i <= models.len(),
            ms == models@.map_values(|m: PiModel| m@),
            jview_seq(out@) == pi_model_entries(ms.subrange(0, i as int)),
        decreases models.len() - i,
    {
        let id = trim_str(models[i].id.as_str());
        let ghost prev = out@;
        proof {
            assert(ms.subrange(0, i + 1).drop_last() =~= ms.subrange(0, i as int));
            assert(ms.subrange(0, i + 1).last() == models@[i as int]@);
        }
        if !id.as_str().is_empty() {
            let e = model_to_models_json(&models[i]);
            out.push(e);
            proof {
                lemma_jview_seq(prev);
                lemma_jview_seq(out@);
                assert(jview_seq(out@) =~= jview_seq(prev).push(jview(out@.last())));
            }
        }
        i = i + 1;
    }
    assert(ms.subrange(0, models.len() as int) =~= ms);
    out
}

fn headers_json(h: &Vec<(String, String)>) -> (r: Vec<(String, JsonValue)>)
    ensures
        jview_entries(r@) == headers_object(h@.map_values(|p: (String, String)| (p.0@, p.1@))),
{
    let ghost hv = h@.map_values(|p: (String, String)| (p.0@, p.1@));
    let mut out: Vec<(String, JsonValue)> = Vec::new();
    let mut i: usize = 0;
    while i < h.len()
        invariant
            0 <= i <= h.len(),
            hv == h@.map_values(|p: (String, String)| (p.0@, p.1@)),
            out@.len() == i,
            forall|j: int|
                0 <= j < i ==> (#[trigger] out@[j]).0@ == hv[j].0 && jview(out@[j].1)
                    == JsonView::Str(hv[j].1),
        decreases h.len() - i,
    {
        out.push((h[i].0.clone(), JsonValue::Str(h[i].1.clone())));
        i = i + 1;
    }
    proof {
        lemma_jview_entries(out@);
        assert(jview_entries(out@) =~= headers_object(hv));
    }
    out
}

/// The `models.json` entry of a provider, keeping the keys of `existing`
/// that are not set from the fragment.
pub fn provider_to_models_json(config: &PiProviderConfig, existing: Option<&JsonValue>) -> (r:
    JsonValue)
    ensures
        jview(r) == JsonView::Object(spec_provider_entry(config@, existing_obj(ref_view(existing)))),
{
    let mut obj: Vec<(String, JsonValue)> = match existing {
        Some(JsonValue::Object(e)) => clone_entries(e),
        _ => {
            let e: Vec<(String, JsonValue)> = Vec::new();
            proof {
                lemma_jview_entries(e@);
            }
            e
        },
    };
    let api = trim_str(config.provider_type.as_str());
    obj_set(
        &mut obj,
        "api",
        if api.as_str().is_empty() {
            None
        } else {
            Some(JsonValue::Str(api))
        },
    );
    obj_set(&mut obj, "baseUrl", opt_str_value(trimmed_opt(&config.base_url)));
    obj_set(&mut obj, "name", opt_str_value(trimmed_opt(&config.display_name)));
    let headers = match &config.headers {
        Some(h) => if h.len() > 0 {
            Some(JsonValue::Object(headers_json(h)))
        } else {
            None
        },
        None => None,
    };
    obj_set(&mut obj, "headers", headers);
    obj_set(&mut obj, "compat", object_only(&config.compat));
    obj_set(
        &mut obj,
        "authHeader",
        match config.auth_header {
            Some(b) => Some(JsonValue::Bool(b)),
            None => None,
        },
    );
    let models = pi_models_to_entries(&config.models);
    proof {
        lemma_jview_seq(models@);
    }
    obj_set(
        &mut obj,
        "models",
        if models.len() == 0 {
            None
        } else {
            Some(JsonValue::Array(models))
        },
    );
    JsonValue::Object(obj)
}

/// The models read back from a `models` array, skipping entries without id.
pub open spec fn pi_models_from(a: Seq<JsonView>) -> Seq<PiModelView>
    decreases a.len(),
{
    if a.len() == 0 {
        seq![]
    } else {
        match spec_pi_model_from(a.last()) {
            Some(m) => pi_models_from(a.drop_last()).push(m),
            None => pi_models_from(a.drop_last()),
        }
    }
}

/// The string-valued headers of an object, in order.
pub open spec fn string_headers(o: ObjView) -> Seq<(Seq<char>, Seq<char>)>
    decreases o.len(),
{
    if o.len() == 0 {
        seq![]
    } else {
        match o.last().1 {
            JsonView::Str(s) => string_headers(o.drop_last()).push((o.last().0, s)),
            _ => string_headers(o.drop_last()),
        }
    }
}

/// The fragment read from a `models.json` provider entry, with its API key
/// (from `auth.json`), source and default model.
pub open spec fn spec_provider_from(
    entry: JsonView,
    api_key: Option<Seq<char>>,
    source: Seq<char>,
    default_model_id: Option<Seq<char>>,
) -> PiProviderConfigView {
    PiProviderConfigView {
        provider_type: match vstr(vfield(entry, "api"@)) {
            Some(a) => a,
            None => "anthropic-messages"@,
        },
        api_key: api_key,
        base_url: vstr(vfield(entry, "baseUrl"@)),
        models: match varr(vfield(entry, "models"@)) {
            Some(a) => pi_models_from(a),
            None => seq![],
        },
        default_model_id: default_model_id,
        display_name: vstr(vfield(entry, "name"@)),
        headers: match vfield(entry, "headers"@) {
            Some(JsonView::Object(h)) => Some(string_headers(h)),
            _ => None,
        },
        compat: vfield(entry, "compat"@),
        auth_header: vbool(vfield(entry, "authHeader"@)),
        cc_source: Some(source),
    }
}

fn pi_models_from_array(a: &Vec<JsonValue>) -> (r: Vec<PiModel>)
    ensures
        r@.map_values(|m: PiModel| m@) == pi_models_from(jview_seq(a@)),
{
    proof {
        lemma_jview_seq(a@);
    }
    let mut out: Vec<PiModel> = Vec::new();
    let mut i: usize = 0;
    while i < a.len()
        invariant
            0 <= i <= a.len(),
            jview_seq(a@).len() == a.len(),
            forall|j: int| 0 <= j < a.len() ==> #[trigger] jview_seq(a@)[j] == jview(a@[j]),
            out@.map_values(|m: PiModel| m@) == pi_models_from(jview_seq(a@).subrange(0, i as int)),
        decreases a.len() - i,
    {
        let ghost prev = out@;
        proof {
            let s = jview_seq(a@).subrange(0, i + 1);
            assert(s.drop_last() =~= jview_seq(a@).subrange(0, i as int));
            assert(s.last() == jview(a@[i as int]));
        }
        match model_from_models_json(&a[i]) {
            Some(m) => {
                out.push(m);
                assert(out@.map_values(|m: PiModel| m@) =~= prev.map_values(|m: PiModel| m@).push(
                    out@.last()@,
                ));
            },
            None => {},
        }
        i = i + 1;
    }
    assert(jview_seq(a@).subrange(0, a.len() as int) =~= jview_seq(a@));
    out
}

fn string_headers_exec(o: &Vec<(String, JsonValue)>) -> (r: Vec<(String, String)>)
    ensures
        r@.map_values(|p: (String, String)| (p.0@, p.1@)) == string_headers(jview_entries(o@)),
{
    let ghost ov = jview_entries(o@);
    proof {
        lemma_jview_entries(o@);
    }
    let mut out: Vec<(String, String)> = Vec::new();
    let mut i: usize = 0;
    while i < o.len()
        invariant
            0 <= i <= o.len(),
            ov == jview_entries(o@),
            ov.len() == o.len(),
            forall|j: int| 0 <= j < o.len() ==> #[trigger] ov[j] == (o@[j].0@, jview(o@[j].1)),
            out@.map_values(|p: (String, String)| (p.0@, p.1@)) == string_headers(
                ov.subrange(0, i as int),
            ),
        decreases o.len() - i,
    {
        let ghost prev = out@;
        proof {
            let s = ov.subrange(0, i + 1);
            assert(s.drop_last() =~= ov.subrange(0, i as int));
            assert(s.last() == ov[i as int]);
        }
        match &o[i].1 {
            JsonValue::Str(s) => {
                out.push((o[i].0.clone(), s.clone()));
                assert(out@.map_values(|p: (String, String)| (p.0@, p.1@)) =~= prev.map_values(
                    |p: (String, String)| (p.0@, p.1@),
                ).push((o@[i as int].0@, s@)));
            },
            _ => {},
        }
        i = i + 1;
    }
    assert(ov.subrange(0, o.len() as int) =~= ov);
    out
}

/// The fragment described by a `models.json` provider entry.
pub fn provider_from_models_json(
    entry: &JsonValue,
    api_key: Option<String>,
    source: &str,
    default_model_id: Option<String>,
) -> (r: PiProviderConfig)
    ensures
        r@ == spec_provider_from(jview(*entry), opt_view(api_key), source@, opt_view(default_model_id)),
{
    let get_s = |k: &str| -> (r: Option<String>)
        ensures
            opt_view(r) == vstr(vfield(jview(*entry), k@)),
        {
            match entry.get(k) {
                Some(v) => match v.as_str() {
                    Some(s) => Some(s.clone()),
                    None => None,
                },
                None => None,
            }
        };
    let models = match entry.get("models") {
        Some(v) => match v.as_array() {
            Some(a) => pi_models_from_array(a),
            None => Vec::new(),
        },
        None => Vec::new(),
    };
    let headers = match entry.get("headers") {
        Some(JsonValue::Object(h)) => Some(string_headers_exec(h)),
        _ => None,
    };
    let r = PiProviderConfig {
        provider_type: match get_s("api") {
            Some(a) => a,
            None => default_pi_api(),
        },
        api_key,
        base_url: get_s("baseUrl"),
        models,
        default_model_id,
        display_name: get_s("name"),
        headers,
        compat: opt_clone(entry.get("compat")),
        auth_header: match entry.get("authHeader") {
            Some(v) => v.as_bool(),
            None => None,
        },
        _cc_source: Some(to_string(source)),
    };
    proof {
        if r.models@.len() == 0 {
            assert(r.models@.map_values(|m: PiModel| m@) =~= Seq::<PiModelView>::empty());
        }
    }
    r
}


// ============================================================================
// auth.json
// ============================================================================

/// The `type` of the `auth.json` entry of a provider.
pub open spec fn spec_auth_type(auth: ObjView, pid: Seq<char>) -> Option<Seq<char>> {
    match vget(auth, pid) {
        Some(e) => vstr(vfield(e, "type"@)),
        None => None,
    }
}

/// The `type` of the `auth.json` entry of a provider.
pub fn read_auth_entry_type(auth: &Vec<(String, JsonValue)>, pid: &str) -> (r: Option<String>)
    ensures
        opt_view(r) == spec_auth_type(jview_entries(auth@), pid@),
{
    match obj_get(auth, pid) {
        Some(e) => crate::omp_config::get_str(e, "type"),
        None => None,
    }
}

/// Whether Pi owns an OAuth credential for the provider.
pub fn provider_has_oauth_credential(auth: &Vec<(String, JsonValue)>, pid: &str) -> (r: bool)
    ensures
        r == (spec_auth_type(jview_entries(auth@), pid@) == Some("oauth"@)),
{
    match read_auth_entry_type(auth, pid) {
        Some(t) => str_eq(t.as_str(), "oauth"),
        None => false,
    }
}

/// The `auth.json` entry of an API key.
pub open spec fn api_key_entry(key: Seq<char>) -> JsonView {
    JsonView::Object(seq![("type"@, JsonView::Str("api_key"@)), ("key"@, JsonView::Str(key))])
}

/// `auth.json` after storing the API key of `pid`: an OAuth entry is left
/// alone; a non-blank key (trimmed) is stored as an `api_key` entry; no key
/// removes an `api_key` entry (and nothing else).
pub open spec fn spec_set_auth_api_key(auth: ObjView, pid: Seq<char>, key: Option<Seq<char>>) -> ObjView {
    let t = spec_auth_type(auth, pid);
    if t == Some("oauth"@) {
        auth
    } else {
        match trimmed_nonempty(key) {
            Some(k) => vinsert(auth, pid, api_key_entry(k)),
            None => if t == Some("api_key"@) {
                vremove(auth, pid)
            } else {
                auth
            },
        }
    }
}

fn api_key_entry_value(key: String) -> (r: JsonValue)
    ensures
        jview(r) == api_key_entry(key@),
{
    let mut o: Vec<(String, JsonValue)> = Vec::new();
    o.push((to_string("type"), JsonValue::Str(to_string("api_key"))));
    o.push((to_string("key"), JsonValue::Str(key)));
    proof {
        lemma_jview_entries(o@);
        assert(jview_entries(o@) =~= seq![
            ("type"@, JsonView::Str("api_key"@)),
            ("key"@, JsonView::Str(key@)),
        ]);
    }
    JsonValue::Object(o)
}

/// Stores (or clears) the API key of `pid` in `auth.json`, never touching an
/// OAuth entry.
pub fn set_auth_api_key(auth: &mut Vec<(String, JsonValue)>, pid: &str, api_key: Option<&str>)
    ensures
        jview_entries(final(auth)@) == spec_set_auth_api_key(
            jview_entries(old(auth)@),
            pid@,
            dview(api_key),
        ),
{
    let t = read_auth_entry_type(auth, pid);
    let is_oauth = match &t {
        Some(x) => str_eq(x.as_str(), "oauth"),
        None => false,
    };
    if is_oauth {
        return;
    }
    let k = match api_key {
        Some(s) => Some(to_string(s)),
        None => None,
    };
    match trimmed_opt(&k) {
        Some(key) => obj_insert(auth, to_string(pid), api_key_entry_value(key)),
        None => {
            let is_api_key = match &t {
                Some(x) => str_eq(x.as_str(), "api_key"),
                None => false,
            };
            if is_api_key {
                obj_remove(auth, pid);
            }
        },
    }
}

/// `auth.json` after removing the API key of `pid`: only an `api_key`
/// entry is removed.
pub open spec fn spec_remove_auth_api_key(auth: ObjView, pid: Seq<char>) -> ObjView {
    if spec_auth_type(auth, pid) == Some("api_key"@) {
        vremove(auth, pid)
    } else {
        auth
    }
}

/// Removes the API key of `pid` from `auth.json`; OAuth entries are kept.
pub fn remove_auth_api_key(auth: &mut Vec<(String, JsonValue)>, pid: &str)
    ensures
        jview_entries(final(auth)@) == spec_remove_auth_api_key(jview_entries(old(auth)@), pid@),
{
    let is_api_key = match read_auth_entry_type(auth, pid) {
        Some(x) => str_eq(x.as_str(), "api_key"),
        None => false,
    };
    if is_api_key {
        obj_remove(auth, pid);
    }
}

// ============================================================================
// Providers
// ============================================================================

/// The credential and source of a live provider: an OAuth entry gives no
/// key and source `oauth`; an `api_key` entry gives its key; a `managed:` id
/// is always `managed`.
pub open spec fn spec_key_and_source(auth: ObjView, pid: Seq<char>) -> (Option<Seq<char>>, Seq<char>) {
    let t = spec_auth_type(auth, pid);
    let (k, s) = if t == Some("oauth"@) {
        (None, "oauth"@)
    } else if t == Some("api_key"@) {
        (
            match vget(auth, pid) {
                Some(e) => vstr(vfield(e, "key"@)),
                None => None,
            },
            "user"@,
        )
    } else {
        (None, "user"@)
    };
    (k, if spec_is_managed_provider_id(pid) { "managed"@ } else { s })
}

/// Every object entry of `ps`, in order, read with its key, source and
/// default model.
pub open spec fn spec_pi_providers_from(
    ps: ObjView,
    auth: ObjView,
    dp: Option<Seq<char>>,
    dm: Option<Seq<char>>,
) -> Seq<(Seq<char>, PiProviderConfigView)>
    decreases ps.len(),
{
    if ps.len() == 0 {
        seq![]
    } else {
        let prev = spec_pi_providers_from(ps.drop_last(), auth, dp, dm);
        let (id, e) = ps.last();
        if e is Object {
            let (k, s) = spec_key_and_source(auth, id);
            prev.push(
                (
                    id,
                    spec_provider_from(
                        e,
                        k,
                        s,
                        if dp == Some(id) {
                            dm
                        } else {
                            None
                        },
                    ),
                ),
            )
        } else {
            prev
        }
    }
}

/// The providers of a parsed `models.json`.
pub open spec fn spec_pi_get_providers(
    models: JsonView,
    auth: ObjView,
    dp: Option<Seq<char>>,
    dm: Option<Seq<char>>,
) -> Seq<(Seq<char>, PiProviderConfigView)> {
    match vfield(models, "providers"@) {
        Some(JsonView::Object(ps)) => spec_pi_providers_from(ps, auth, dp, dm),
        _ => seq![],
    }
}

pub open spec fn pi_providers_view(v: Seq<(String, PiProviderConfig)>) -> Seq<
    (Seq<char>, PiProviderConfigView),
> {
    v.map_values(|p: (String, PiProviderConfig)| (p.0@, p.1@))
}

fn key_and_source(auth: &Vec<(String, JsonValue)>, pid: &str) -> (r: (Option<String>, &'static str))
    ensures
        (opt_view(r.0), r.1@) == spec_key_and_source(jview_entries(auth@), pid@),
{
    let t = read_auth_entry_type(auth, pid);
    let is_oauth = match &t {
        Some(x) => str_eq(x.as_str(), "oauth"),
        None => false,
    };
    let is_api_key = match &t {
        Some(x) => str_eq(x.as_str(), "api_key"),
        None => false,
    };
    let (k, s): (Option<String>, &'static str) = if is_oauth {
        (None, "oauth")
    } else if is_api_key {
        (
            match obj_get(auth, pid) {
                Some(e) => crate::omp_config::get_str(e, "key"),
                None => None,
            },
            "user",
        )
    } else {
        (None, "user")
    };
    if is_managed_provider_id(pid) {
        (k, "managed")
    } else {
        (k, s)
    }
}

/// All providers of a parsed `models.json`, with API keys from `auth.json`
/// (`api_key` entries only), sources, and the default model for the
/// default provider.
pub fn get_providers(
    models: &JsonValue,
    auth: &Vec<(String, JsonValue)>,
    default_provider: Option<&str>,
    default_model: Option<&str>,
) -> (r: Vec<(String, PiProviderConfig)>)
    ensures
        pi_providers_view(r@) == spec_pi_get_providers(
            jview(*models),
            jview_entries(auth@),
            dview(default_provider),
            dview(default_model),
        ),
{
    let ps = match models.get("providers") {
        Some(JsonValue::Object(ps)) => ps,
        _ => {
            return Vec::new();
        },
    };
    let ghost pv = jview_entries(ps@);
    proof {
        lemma_jview_entries(ps@);
    }
    let mut out: Vec<(String, PiProviderConfig)> = Vec::new();
    let mut i: usize = 0;
    while i < ps.len()
        invariant
            0 <= i <= ps.len(),
            pv == jview_entries(ps@),
            pv.len() == ps.len(),
            forall|j: int| 0 <= j < ps.len() ==> #[trigger] pv[j] == (ps@[j].0@, jview(ps@[j].1)),
            pi_providers_view(out@) == spec_pi_providers_from(
                pv.subrange(0, i as int),
                jview_entries(auth@),
                dview(default_provider),
                dview(default_model),
            ),
        decreases ps.len() - i,
    {
        let ghost prev = out@;
        proof {
            let s = pv.subrange(0, i + 1);
            assert(s.drop_last() =~= pv.subrange(0, i as int));
            assert(s.last() == pv[i as int]);
        }
        let id = &ps[i].0;
        let entry = &ps[i].1;
        if entry.is_object() {
            let (k, source) = key_and_source(auth, id.as_str());
            let is_default = match default_provider {
                Some(d) => str_eq(d, id.as_str()),
                None => false,
            };
            let dm = if is_default {
                match default_model {
                    Some(m) => Some(to_string(m)),
                    None => None,
                }
            } else {
                None
            };
            let config = provider_from_models_json(entry, k, source, dm);
            out.push((id.clone(), config));
            assert(pi_providers_view(out@) =~= pi_providers_view(prev).push(
                (id@, out@.last().1@),
            ));
        }
        i = i + 1;
    }
    assert(pv.subrange(0, ps.len() as int) =~= pv);
    out
}

/// The model used for `defaultModel`: `defaultModelId` when not blank, else
/// the first model's id, both trimmed; nothing when both are blank.
pub open spec fn spec_pi_default_model_id(c: PiProviderConfigView) -> Option<Seq<char>> {
    match trimmed_nonempty(c.default_model_id) {
        Some(d) => Some(d),
        None => if c.models.len() > 0 && trim(c.models[0].id).len() > 0 {
            Some(trim(c.models[0].id))
        } else {
            None
        },
    }
}

/// The model used for `defaultModel` when selecting `config`.
pub fn resolve_default_model_id(config: &PiProviderConfig) -> (r: Option<String>)
    ensures
        opt_view(r) == spec_pi_default_model_id(config@),
{
    match trimmed_opt(&config.default_model_id) {
        Some(d) => Some(d),
        None => {
            if config.models.len() == 0 {
                return None;
            }
            assert(config@.models[0] == config.models@[0]@);
            let t = trim_str(config.models[0].id.as_str());
            if t.as_str().is_empty() {
                None
            } else {
                Some(t)
            }
        },
    }
}

/// `settings.json` after selecting `pid` (with `model` as default model,
/// removed when there is none); every other setting kept.
pub open spec fn spec_write_selection(settings: ObjView, pid: Seq<char>, model: Option<Seq<char>>) -> ObjView {
    vset(vinsert(settings, "defaultProvider"@, JsonView::Str(pid)), "defaultModel"@, ostr(model))
}

/// Selects `pid` in `settings.json`.
pub fn write_default_selection(settings: &mut Vec<(String, JsonValue)>, pid: &str, model: Option<&str>)
    ensures
        jview_entries(final(settings)@) == spec_write_selection(
            jview_entries(old(settings)@),
            pid@,
            dview(model),
        ),
{
    obj_insert(settings, to_string("defaultProvider"), JsonValue::Str(to_string(pid)));
    obj_set(
        settings,
        "defaultModel",
        match model {
            Some(m) => Some(JsonValue::Str(to_string(m))),
            None => None,
        },
    );
}

/// Clears the selection when it points at `pid`; returns whether it did.
pub fn clear_selection_of(settings: &mut Vec<(String, JsonValue)>, pid: &str) -> (cleared: bool)
    ensures
        cleared == (vstr(vget(jview_entries(old(settings)@), "defaultProvider"@)) == Some(pid@)),
        jview_entries(final(settings)@) == if cleared {
            vremove(vremove(jview_entries(old(settings)@), "defaultProvider"@), "defaultModel"@)
        } else {
            jview_entries(old(settings)@)
        },
{
    let points = match obj_get(settings, "defaultProvider") {
        Some(v) => match v.as_str() {
            Some(s) => str_eq(s.as_str(), pid),
            None => false,
        },
        None => false,
    };
    if points {
        obj_remove(settings, "defaultProvider");
        obj_remove(settings, "defaultModel");
    }
    points
}

/// The trimmed non-blank string of a settings key.
pub open spec fn setting_str(settings: JsonView, k: Seq<char>) -> Option<Seq<char>> {
    trimmed_nonempty(vstr(vfield(settings, k)))
}

/// The provider of Pi's current selection (`defaultProvider`).
pub fn get_default_provider_id(settings: &JsonValue) -> (r: Option<String>)
    ensures
        opt_view(r) == setting_str(jview(*settings), "defaultProvider"@),
{
    let s = crate::omp_config::get_str(settings, "defaultProvider");
    trimmed_opt(&s)
}

/// The current `defaultModel`.
pub fn get_default_model(settings: &JsonValue) -> (r: Option<String>)
    ensures
        opt_view(r) == setting_str(jview(*settings), "defaultModel"@),
{
    let s = crate::omp_config::get_str(settings, "defaultModel");
    trimmed_opt(&s)
}

// ============================================================================
// Live settings and snapshots
// ============================================================================

/// The redacted form of an OAuth entry.
pub open spec fn redacted_oauth() -> JsonView {
    JsonView::Object(seq![("type"@, JsonView::Str("oauth"@)), ("redacted"@, JsonView::Bool(true))])
}

/// `auth.json` with every OAuth entry replaced by its redacted form.
pub open spec fn spec_redact(auth: ObjView) -> ObjView {
    Seq::new(
        auth.len(),
        |i: int|
            if vstr(vfield(auth[i].1, "type"@)) == Some("oauth"@) {
                (auth[i].0, redacted_oauth())
            } else {
                auth[i]
            },
    )
}

fn redacted_oauth_value() -> (r: JsonValue)
    ensures
        jview(r) == redacted_oauth(),
{
    let mut o: Vec<(String, JsonValue)> = Vec::new();
    o.push((to_string("type"), JsonValue::Str(to_string("oauth"))));
    o.push((to_string("redacted"), JsonValue::Bool(true)));
    proof {
        lemma_jview_entries(o@);
        assert(jview_entries(o@) =~= seq![
            ("type"@, JsonView::Str("oauth"@)),
            ("redacted"@, JsonView::Bool(true)),
        ]);
    }
    JsonValue::Object(o)
}

/// Redacts the OAuth entries of `auth.json`.
pub fn redact_oauth(auth: &mut Vec<(String, JsonValue)>)
    ensures
        jview_entries(final(auth)@) == spec_redact(jview_entries(old(auth)@)),
{
    let ghost a0 = jview_entries(auth@);
    proof {
        lemma_jview_entries(auth@);
    }
    let mut i: usize = 0;
    while i < auth.len()
        invariant
            0 <= i <= auth.len(),
            a0.len() == auth.len(),
            forall|j: int|
                0 <= j < i ==> (#[trigger] auth@[j].0@, jview(auth@[j].1)) == spec_redact(a0)[j],
            forall|j: int| i <= j < auth.len() ==> (#[trigger] auth@[j].0@, jview(auth@[j].1)) == a0[j],
        decreases auth.len() - i,
    {
        let ghost prev = auth@;
        assert((auth@[i as int].0@, jview(auth@[i as int].1)) == a0[i as int]);
        let is_oauth = match crate::omp_config::get_str(&auth[i].1, "type") {
            Some(t) => str_eq(t.as_str(), "oauth"),
            None => false,
        };
        if is_oauth {
            let k = auth[i].0.clone();
            auth.set(i, (k, redacted_oauth_value()));
        }
        proof {
            assert((auth@[i as int].0@, jview(auth@[i as int].1)) == spec_redact(a0)[i as int]);
            assert forall|j: int| 0 <= j < auth.len() && j != i implies #[trigger] auth@[j] == prev[j] by {}
            assert forall|j: int| 0 <= j < i + 1 implies (#[trigger] auth@[j].0@, jview(auth@[j].1))
                == spec_redact(a0)[j] by {
                if j < i {
                    assert(auth@[j] == prev[j]);
                    assert((prev[j].0@, jview(prev[j].1)) == spec_redact(a0)[j]);
                }
            }
            assert forall|j: int| i + 1 <= j < auth.len() implies (#[trigger] auth@[j].0@, jview(
                auth@[j].1,
            )) == a0[j] by {
                assert(auth@[j] == prev[j]);
                assert((prev[j].0@, jview(prev[j].1)) == a0[j]);
            }
        }
        i = i + 1;
    }
    proof {
        lemma_jview_entries(auth@);
        assert(jview_entries(auth@) =~= spec_redact(a0));
    }
}

/// `auth.json` redacted (a value that is not an object is kept).
pub open spec fn redacted_auth(v: JsonView) -> JsonView {
    match v {
        JsonView::Object(a) => JsonView::Object(spec_redact(a)),
        _ => v,
    }
}

/// The diagnostic view of Pi's live configuration, with OAuth credentials
/// redacted: `{settings, models, auth}`.
pub fn read_live_settings(settings: JsonValue, models: JsonValue, auth: JsonValue) -> (r: JsonValue)
    ensures
        jview(r) == JsonView::Object(
            seq![
                ("settings"@, jview(settings)),
                ("models"@, jview(models)),
                ("auth"@, redacted_auth(jview(auth))),
            ],
        ),
{
    let ghost sv = jview(settings);
    let ghost mv = jview(models);
    let ghost au = jview(auth);
    let auth2 = match auth {
        JsonValue::Object(mut a) => {
            let ghost a0 = jview_entries(a@);
            assert(au == JsonView::Object(a0));
            redact_oauth(&mut a);
            let r = JsonValue::Object(a);
            assert(jview(r) == JsonView::Object(spec_redact(a0)));
            r
        },
        other => other,
    };
    assert(jview(auth2) == redacted_auth(au));
    let mut o: Vec<(String, JsonValue)> = Vec::new();
    let ghost av = jview(auth2);
    o.push((to_string("settings"), settings));
    o.push((to_string("models"), models));
    o.push((to_string("auth"), auth2));
    proof {
        lemma_jview_entries(o@);
        assert(jview_entries(o@) =~= seq![("settings"@, sv), ("models"@, mv), ("auth"@, av)]);
    }
    JsonValue::Object(o)
}

/// The `api_key` credentials of `auth.json`: each `api_key` entry with a
/// string key, in order, as `id → key`.
pub open spec fn spec_auth_api_keys(auth: ObjView) -> ObjView
    decreases auth.len(),
{
    if auth.len() == 0 {
        seq![]
    } else {
        let prev = spec_auth_api_keys(auth.drop_last());
        let (id, e) = auth.last();
        if vstr(vfield(e, "type"@)) == Some("api_key"@) {
            match vstr(vfield(e, "key"@)) {
                Some(k) => vinsert(prev, id, JsonView::Str(k)),
                None => prev,
            }
        } else {
            prev
        }
    }
}

/// The API keys held in `auth.json` (OAuth credentials never included).
pub fn auth_api_keys(auth: &Vec<(String, JsonValue)>) -> (r: Vec<(String, JsonValue)>)
    ensures
        jview_entries(r@) == spec_auth_api_keys(jview_entries(auth@)),
{
    let ghost av = jview_entries(auth@);
    proof {
        lemma_jview_entries(auth@);
    }
    let mut out: Vec<(String, JsonValue)> = Vec::new();
    proof {
        lemma_jview_entries(out@);
    }
    let mut i: usize = 0;
    while i < auth.len()
        invariant
            0 <= i <= auth.len(),
            av == jview_entries(auth@),
            av.len() == auth.len(),
            forall|j: int| 0 <= j < auth.len() ==> #[trigger] av[j] == (auth@[j].0@, jview(auth@[j].1)),
            jview_entries(out@) == spec_auth_api_keys(av.subrange(0, i as int)),
        decreases auth.len() - i,
    {
        proof {
            let s = av.subrange(0, i + 1);
            assert(s.drop_last() =~= av.subrange(0, i as int));
            assert(s.last() == av[i as int]);
        }
        let e = &auth[i].1;
        let is_key = match crate::omp_config::get_str(e, "type") {
            Some(t) => str_eq(t.as_str(), "api_key"),
            None => false,
        };
        if is_key {
            match crate::omp_config::get_str(e, "key") {
                Some(k) => obj_insert(&mut out, auth[i].0.clone(), JsonValue::Str(k)),
                None => {},
            }
        }
        i = i + 1;
    }
    assert(av.subrange(0, auth.len() as int) =~= av);
    out
}

/// The takeover backup: the raw `models.json` and `settings.json` texts
/// (`null` when missing), `settings.json` parsed, and the API keys of
/// `auth.json`.
pub fn read_live_snapshot(
    models_source: Option<String>,
    settings_source: Option<String>,
    settings: JsonValue,
    auth: &Vec<(String, JsonValue)>,
) -> (r: JsonValue)
    ensures
        jview(r) == JsonView::Object(
            seq![
                ("modelsSource"@, crate::omp_ops::source_view(opt_view(models_source))),
                ("settingsSource"@, crate::omp_ops::source_view(opt_view(settings_source))),
                ("settings"@, jview(settings)),
                ("authApiKeys"@, JsonView::Object(spec_auth_api_keys(jview_entries(auth@)))),
            ],
        ),
{
    let ghost ms = opt_view(models_source);
    let ghost ss = opt_view(settings_source);
    let ghost sv = jview(settings);
    let keys = auth_api_keys(auth);
    let ghost kv = jview_entries(keys@);
    let mut o: Vec<(String, JsonValue)> = Vec::new();
    o.push(
        (
            to_string("modelsSource"),
            match models_source {
                Some(t) => JsonValue::Str(t),
                None => JsonValue::Null,
            },
        ),
    );
    o.push(
        (
            to_string("settingsSource"),
            match settings_source {
                Some(t) => JsonValue::Str(t),
                None => JsonValue::Null,
            },
        ),
    );
    o.push((to_string("settings"), settings));
    o.push((to_string("authApiKeys"), JsonValue::Object(keys)));
    proof {
        lemma_jview_entries(o@);
        assert(jview_entries(o@) =~= seq![
            ("modelsSource"@, crate::omp_ops::source_view(ms)),
            ("settingsSource"@, crate::omp_ops::source_view(ss)),
            ("settings"@, sv),
            ("authApiKeys"@, JsonView::Object(kv)),
        ]);
    }
    JsonValue::Object(o)
}

/// What restoring a Pi takeover backup does: `models.json` gets
/// `modelsSource` verbatim when the backup has it (a string); otherwise the
/// markers are stripped from the live `models.json` when it exists.
/// `settings.json` gets `settingsSource` verbatim when the backup has it,
/// else it is rewritten from the backup's parsed `settings` when present.
#[derive(Debug)]
pub struct PiSnapshotRestore {
    pub models_source: Option<String>,
    pub strip_markers: bool,
    pub settings_source: Option<String>,
    pub settings: Option<JsonValue>,
}

/// How a Pi takeover backup is restored (see [`PiSnapshotRestore`]).
pub fn write_live_snapshot(snapshot: &JsonValue) -> (r: PiSnapshotRestore)
    ensures
        opt_view(r.models_source) == vstr(vfield(jview(*snapshot), "modelsSource"@)),
        r.strip_markers == vstr(vfield(jview(*snapshot), "modelsSource"@)) is None,
        opt_view(r.settings_source) == vstr(vfield(jview(*snapshot), "settingsSource"@)),
        crate::json::ojview(r.settings) == if vstr(vfield(jview(*snapshot), "settingsSource"@)) is Some {
            None
        } else {
            vfield(jview(*snapshot), "settings"@)
        },
{
    let models_source = match snapshot.get("modelsSource") {
        Some(JsonValue::Str(s)) => Some(s.clone()),
        _ => None,
    };
    let strip_markers = models_source.is_none();
    let settings_source = match snapshot.get("settingsSource") {
        Some(JsonValue::Str(s)) => Some(s.clone()),
        _ => None,
    };
    let settings = if settings_source.is_some() {
        None
    } else {
        match snapshot.get("settings") {
            Some(v) => Some(clone_json(v)),
            None => None,
        }
    };
    PiSnapshotRestore { models_source, strip_markers, settings_source, settings }
}

// ============================================================================
// Proxy takeover
// ============================================================================

/// Some provider of a parsed `models.json` carries the markers.
pub open spec fn spec_models_have_markers(models: JsonView, placeholder: Seq<char>) -> bool {
    match vfield(models, "providers"@) {
        Some(JsonView::Object(ps)) => spec_providers_have_markers(ps, placeholder),
        _ => false,
    }
}

/// Whether any provider of a parsed `models.json` is taken over.
pub fn models_value_has_takeover_markers(models: &JsonValue, placeholder: &str) -> (r: bool)
    ensures
        r == spec_models_have_markers(jview(*models), placeholder@),
{
    match models.get("providers") {
        Some(JsonValue::Object(ps)) => providers_have_takeover_markers(ps, placeholder),
        _ => false,
    }
}

/// Markers of a snapshot (whose `modelsSource`, when it is a string, parses
/// to `parsed_source`) or of a bare provider fragment.
pub open spec fn spec_pi_has_markers(
    value: JsonView,
    placeholder: Seq<char>,
    parsed_source: Option<JsonView>,
) -> bool {
    match vfield(value, "modelsSource"@) {
        Some(s) => s is Str && match parsed_source {
            Some(m) => spec_models_have_markers(m, placeholder),
            None => false,
        },
        None => spec_entry_has_markers(value, placeholder),
    }
}

/// Whether a snapshot or a provider fragment carries takeover markers;
/// `parsed_source` is the snapshot's `modelsSource` parsed as an object
/// (`None` when it does not parse).
pub fn has_takeover_markers(value: &JsonValue, placeholder: &str, parsed_source: Option<&JsonValue>) -> (r:
    bool)
    ensures
        r == spec_pi_has_markers(jview(*value), placeholder@, ref_view(parsed_source)),
{
    match value.get("modelsSource") {
        Some(s) => match s.as_str() {
            Some(_) => match parsed_source {
                Some(m) => models_value_has_takeover_markers(m, placeholder),
                None => false,
            },
            None => false,
        },
        None => entry_has_takeover_markers(value, placeholder),
    }
}

/// `providers.<id>` of a parsed `models.json`.
pub open spec fn spec_entry_of(models: JsonView, id: Seq<char>) -> Option<JsonView> {
    match vfield(models, "providers"@) {
        Some(p) => vfield(p, id),
        None => None,
    }
}

fn entry_of<'a>(models: &'a JsonValue, id: &str) -> (r: Option<&'a JsonValue>)
    ensures
        ref_view(r) == spec_entry_of(jview(*models), id@),
{
    match models.get("providers") {
        Some(p) => p.get(id),
        None => None,
    }
}

/// The selected provider (`defaultProvider`) and its entry, when both exist
/// and the entry is an object.
pub fn selected_provider_entry(settings: &JsonValue, models: &JsonValue) -> (r: Option<(String, JsonValue)>)
    ensures
        match r {
            Some((k, e)) => setting_str(jview(*settings), "defaultProvider"@) == Some(k@)
                && spec_entry_of(jview(*models), k@) == Some(jview(e)) && jview(e) is Object,
            None => match setting_str(jview(*settings), "defaultProvider"@) {
                Some(k) => !(spec_entry_of(jview(*models), k) matches Some(e) && e is Object),
                None => true,
            },
        },
{
    let id = match get_default_provider_id(settings) {
        Some(id) => id,
        None => {
            return None;
        },
    };
    match entry_of(models, id.as_str()) {
        Some(e) => if e.is_object() {
            Some((id, clone_json(e)))
        } else {
            None
        },
        None => None,
    }
}

/// The taken-over entry: the provider entry with `baseUrl` at the proxy and
/// the placeholder as `apiKey`.
pub open spec fn spec_takeover_entry(
    c: PiProviderConfigView,
    existing: Option<JsonView>,
    url: Seq<char>,
    placeholder: Seq<char>,
) -> ObjView {
    vinsert(
        vinsert(spec_provider_entry(c, existing_obj(existing)), "baseUrl"@, JsonView::Str(url)),
        "apiKey"@,
        JsonView::Str(placeholder),
    )
}

/// Takes `id` over for the proxy: returns the previously selected provider
/// and the entry to write as `providers.<id>`, and selects `id` in
/// `settings.json`. `auth.json` is not touched.
pub fn apply_takeover_and_select(
    models: &JsonValue,
    settings: &mut Vec<(String, JsonValue)>,
    id: &str,
    config: &PiProviderConfig,
    proxy_base_url: &str,
    placeholder: &str,
    detected: Option<&str>,
) -> (r: Result<(Option<String>, JsonValue), AppError>)
    ensures
        spec_known_older(dview(detected), MIN_PI_VERSION@) ==> r matches Err(
            AppError::PiIncompatibleVersion(_),
        ),
        !spec_known_older(dview(detected), MIN_PI_VERSION@) && spec_is_managed_provider_id(id@)
            ==> r matches Err(AppError::PiManagedReadonly(_)),
        r is Err ==> final(settings)@ == old(settings)@,
        !spec_known_older(dview(detected), MIN_PI_VERSION@) && !spec_is_managed_provider_id(id@)
            ==> (r matches Ok((prev, entry)) && opt_view(prev) == setting_str(
            JsonView::Object(jview_entries(old(settings)@)),
            "defaultProvider"@,
        ) && jview(entry) == JsonView::Object(
            spec_takeover_entry(
                config@,
                spec_entry_of(jview(*models), id@),
                proxy_base_url@,
                placeholder@,
            ),
        ) && jview_entries(final(settings)@) == spec_write_selection(
            jview_entries(old(settings)@),
            id@,
            spec_pi_default_model_id(config@),
        )),
{
    assert_pi_compatible(detected)?;
    ensure_writable_provider(id)?;
    let default_model = resolve_default_model_id(config);
    let prev = {
        let s = JsonValue::Object(clone_entries(settings));
        get_default_provider_id(&s)
    };
    let entry = provider_to_models_json(config, entry_of(models, id));
    let taken = match entry {
        JsonValue::Object(mut o) => {
            obj_insert(&mut o, to_string("baseUrl"), JsonValue::Str(to_string(proxy_base_url)));
            obj_insert(&mut o, to_string("apiKey"), JsonValue::Str(to_string(placeholder)));
            JsonValue::Object(o)
        },
        other => other,
    };
    write_default_selection(
        settings,
        id,
        match &default_model {
            Some(m) => Some(m.as_str()),
            None => None,
        },
    );
    Ok((prev, taken))
}

/// The entry that reverts a taken-over provider: when `providers.<id>`
/// carries the markers, the provider entry rebuilt from the fragment over
/// the entry with its markers stripped; nothing when there is no such entry
/// or it carries no marker. The caller then stores the fragment's API key.
pub fn revert_provider_takeover(
    models: &JsonValue,
    id: &str,
    config: &PiProviderConfig,
    placeholder: &str,
    detected: Option<&str>,
) -> (r: Result<Option<JsonValue>, AppError>)
    ensures
        spec_known_older(dview(detected), MIN_PI_VERSION@) ==> r matches Err(
            AppError::PiIncompatibleVersion(_),
        ),
        !spec_known_older(dview(detected), MIN_PI_VERSION@) && spec_is_managed_provider_id(id@)
            ==> r matches Err(AppError::PiManagedReadonly(_)),
        !spec_known_older(dview(detected), MIN_PI_VERSION@) && !spec_is_managed_provider_id(id@)
            ==> (r matches Ok(o) && match spec_entry_of(jview(*models), id@) {
            Some(ex) => match spec_strip_markers(ex, placeholder@) {
                Some(stripped) => o matches Some(e) && jview(e) == JsonView::Object(
                    spec_provider_entry(config@, stripped),
                ),
                None => o is None,
            },
            None => o is None,
        }),
{
    assert_pi_compatible(detected)?;
    ensure_writable_provider(id)?;
    let existing = match entry_of(models, id) {
        Some(e) => e,
        None => {
            return Ok(None);
        },
    };
    let stripped = match strip_takeover_markers(existing, placeholder) {
        Some(s) => s,
        None => {
            return Ok(None);
        },
    };
    let base = JsonValue::Object(stripped);
    Ok(Some(provider_to_models_json(config, Some(&base))))
}

/// The entry of `id` with its takeover markers stripped (a provider not
/// managed here); nothing when it carries none.
pub fn remove_provider_takeover_markers(
    models: &JsonValue,
    id: &str,
    placeholder: &str,
    detected: Option<&str>,
) -> (r: Result<Option<JsonValue>, AppError>)
    ensures
        spec_known_older(dview(detected), MIN_PI_VERSION@) <==> r is Err,
        r matches Err(e) ==> e is PiIncompatibleVersion,
        r matches Ok(o) ==> match spec_entry_of(jview(*models), id@) {
            Some(ex) => match spec_strip_markers(ex, placeholder@) {
                Some(stripped) => o matches Some(e) && jview(e) == JsonView::Object(stripped),
                None => o is None,
            },
            None => o is None,
        },
{
    assert_pi_compatible(detected)?;
    let existing = match entry_of(models, id) {
        Some(e) => e,
        None => {
            return Ok(None);
        },
    };
    match strip_takeover_markers(existing, placeholder) {
        Some(s) => Ok(Some(JsonValue::Object(s))),
        None => Ok(None),
    }
}

/// The marked entries with their markers stripped, in order.
pub open spec fn spec_stripped_entries(ps: ObjView, placeholder: Seq<char>) -> ObjView
    decreases ps.len(),
{
    if ps.len() == 0 {
        seq![]
    } else {
        let prev = spec_stripped_entries(ps.drop_last(), placeholder);
        match spec_strip_markers(ps.last().1, placeholder) {
            Some(o) => prev.push((ps.last().0, JsonView::Object(o))),
            None => prev,
        }
    }
}

/// The entries to rewrite to strip the takeover markers of every provider
/// (empty when none is marked).
pub fn remove_takeover_markers_all(models: &JsonValue, placeholder: &str) -> (r: Vec<(String, JsonValue)>)
    ensures
        jview_entries(r@) == match vfield(jview(*models), "providers"@) {
            Some(JsonView::Object(ps)) => spec_stripped_entries(ps, placeholder@),
            _ => seq![],
        },
{
    let mut out: Vec<(String, JsonValue)> = Vec::new();
    proof {
        lemma_jview_entries(out@);
    }
    let ps = match models.get("providers") {
        Some(JsonValue::Object(ps)) => ps,
        _ => {
            return out;
        },
    };
    let ghost pv = jview_entries(ps@);
    proof {
        lemma_jview_entries(ps@);
    }
    let mut i: usize = 0;
    while i < ps.len()
        invariant
            0 <= i <= ps.len(),
            pv == jview_entries(ps@),
            pv.len() == ps.len(),
            forall|j: int| 0 <= j < ps.len() ==> #[trigger] pv[j] == (ps@[j].0@, jview(ps@[j].1)),
            jview_entries(out@) == spec_stripped_entries(pv.subrange(0, i as int), placeholder@),
        decreases ps.len() - i,
    {
        let ghost prev = out@;
        proof {
            let s = pv.subrange(0, i + 1);
            assert(s.drop_last() =~= pv.subrange(0, i as int));
            assert(s.last() == pv[i as int]);
        }
        match strip_takeover_markers(&ps[i].1, placeholder) {
            Some(o) => {
                out.push((ps[i].0.clone(), JsonValue::Object(o)));
                proof {
                    lemma_jview_entries(prev);
                    lemma_jview_entries(out@);
                    assert(jview_entries(out@) =~= jview_entries(prev).push(
                        (pv[i as int].0, jview(out@.last().1)),
                    ));
                }
            },
            None => {},
        }
        i = i + 1;
    }
    assert(pv.subrange(0, ps.len() as int) =~= pv);
    out
}

/// Patches a backup snapshot for provider `id`: returns the pristine entry
/// to write as `providers.<id>` of its `modelsSource` (parsed as `models`),
/// refreshes its API key in `keys`, and selects it in `settings`.
pub fn patch_snapshot_provider(
    models: &JsonValue,
    keys: &mut Vec<(String, JsonValue)>,
    settings: &mut Vec<(String, JsonValue)>,
    id: &str,
    config: &PiProviderConfig,
) -> (entry: JsonValue)
    ensures
        jview(entry) == JsonView::Object(
            spec_provider_entry(config@, existing_obj(spec_entry_of(jview(*models), id@))),
        ),
        jview_entries(final(keys)@) == vset(
            jview_entries(old(keys)@),
            id@,
            ostr(trimmed_nonempty(opt_view(config.api_key))),
        ),
        jview_entries(final(settings)@) == spec_write_selection(
            jview_entries(old(settings)@),
            id@,
            spec_pi_default_model_id(config@),
        ),
{
    let entry = provider_to_models_json(config, entry_of(models, id));
    obj_set(keys, id, opt_str_value(trimmed_opt(&config.api_key)));
    let dm = resolve_default_model_id(config);
    write_default_selection(
        settings,
        id,
        match &dm {
            Some(m) => Some(m.as_str()),
            None => None,
        },
    );
    entry
}

// ============================================================================
// Paths
// ============================================================================

/// `~` expanded against `home`: `~` alone is `home`, `~/x` (or `~\\x`) is
/// `home/x`.
pub open spec fn spec_expand_tilde(path: Seq<char>, home: Seq<char>) -> Seq<char> {
    if path == seq!['~'] {
        home
    } else if starts_with(path, seq!['~', '/']) || starts_with(path, seq!['~', '\\']) {
        crate::kimi_config::spec_path_join(home, path.subrange(2, path.len() as int))
    } else {
        path
    }
}

/// Expands a leading `~`.
pub fn expand_tilde(path: &str, home: &str) -> (r: String)
    ensures
        r@ == spec_expand_tilde(path@, home@),
{
    let v = chars_of(path);
    if v.len() == 1 && v[0] == '~' {
        assert(v@ =~= seq!['~']);
        return to_string(home);
    }
    if v.len() >= 2 && v[0] == '~' && (v[1] == '/' || v[1] == '\\') {
        assert(v@.subrange(0, 2) =~= seq!['~', '/'] || v@.subrange(0, 2) =~= seq!['~', '\\']);
        let rest = string_from(&v, 2, v.len());
        return crate::kimi_config::path_join(home, rest.as_str());
    }
    proof {
        if path@ == seq!['~'] {
            assert(v@.len() == 1);
        }
        if starts_with(path@, seq!['~', '/']) || starts_with(path@, seq!['~', '\\']) {
            assert(v@.subrange(0, 2)[0] == v@[0]);
            assert(v@.subrange(0, 2)[1] == v@[1]);
        }
    }
    to_string(path)
}

/// The Pi agent directory: the configured override, else a non-blank
/// `PI_CODING_AGENT_DIR` (trimmed, `~` expanded), else `<home>/.pi/agent`.
pub open spec fn spec_pi_dir(override_dir: Option<Seq<char>>, env_dir: Option<Seq<char>>, home: Seq<char>) -> Seq<char> {
    match override_dir {
        Some(d) => d,
        None => match trimmed_nonempty(env_dir) {
            Some(e) => spec_expand_tilde(e, home),
            None => crate::kimi_config::spec_path_join(
                crate::kimi_config::spec_path_join(home, ".pi"@),
                "agent"@,
            ),
        },
    }
}

/// Resolves the Pi agent directory.
pub fn get_pi_dir(override_dir: Option<&str>, env_dir: Option<&str>, home: &str) -> (r: String)
    ensures
        r@ == spec_pi_dir(dview(override_dir), dview(env_dir), home@),
{
    match override_dir {
        Some(d) => to_string(d),
        None => {
            let e = match env_dir {
                Some(s) => Some(to_string(s)),
                None => None,
            };
            match trimmed_opt(&e) {
                Some(t) => expand_tilde(t.as_str(), home),
                None => {
                    let p = crate::kimi_config::path_join(home, ".pi");
                    crate::kimi_config::path_join(p.as_str(), "agent")
                },
            }
        },
    }
}

/// `<dir>/settings.json`.
pub fn get_pi_settings_path(dir: &str) -> (r: String)
    ensures
        r@ == crate::kimi_config::spec_path_join(dir@, "settings.json"@),
{
    crate::kimi_config::path_join(dir, "settings.json")
}

/// `<dir>/models.json`.
pub fn get_pi_models_path(dir: &str) -> (r: String)
    ensures
        r@ == crate::kimi_config::spec_path_join(dir@, "models.json"@),
{
    crate::kimi_config::path_join(dir, "models.json")
}

/// `<dir>/auth.json`.
pub fn get_pi_auth_path(dir: &str) -> (r: String)
    ensures
        r@ == crate::kimi_config::spec_path_join(dir@, "auth.json"@),
{
    crate::kimi_config::path_join(dir, "auth.json")
}

/// `<dir>/skills`.
pub fn get_pi_skills_dir(dir: &str) -> (r: String)
    ensures
        r@ == crate::kimi_config::spec_path_join(dir@, "skills"@),
{
    crate::kimi_config::path_join(dir, "skills")
}

/// The sessions directory: `sessionDir` of `settings.json` (trimmed, `~`
/// expanded) when set, else a non-blank `PI_CODING_AGENT_SESSION_DIR`, else
/// `<dir>/sessions`.
pub open spec fn spec_pi_sessions_dir(
    settings: Option<JsonView>,
    env_dir: Option<Seq<char>>,
    dir: Seq<char>,
    home: Seq<char>,
) -> Seq<char> {
    let from_settings = match settings {
        Some(s) => setting_str(s, "sessionDir"@),
        None => None,
    };
    match from_settings {
        Some(d) => spec_expand_tilde(d, home),
        None => match trimmed_nonempty(env_dir) {
            Some(e) => spec_expand_tilde(e, home),
            None => crate::kimi_config::spec_path_join(dir, "sessions"@),
        },
    }
}

/// Resolves the Pi sessions directory (`settings` is `settings.json` when it
/// could be read).
pub fn get_pi_sessions_dir(settings: Option<&JsonValue>, env_dir: Option<&str>, dir: &str, home: &str) -> (r:
    String)
    ensures
        r@ == spec_pi_sessions_dir(ref_view(settings), dview(env_dir), dir@, home@),
{
    let from_settings = match settings {
        Some(s) => {
            let v = crate::omp_config::get_str(s, "sessionDir");
            trimmed_opt(&v)
        },
        None => None,
    };
    match from_settings {
        Some(d) => expand_tilde(d.as_str(), home),
        None => {
            let e = match env_dir {
                Some(s) => Some(to_string(s)),
                None => None,
            };
            match trimmed_opt(&e) {
                Some(t) => expand_tilde(t.as_str(), home),
                None => crate::kimi_config::path_join(dir, "sessions"),
            }
        },
    }
}


// ============================================================================
// Provider operations
// ============================================================================

/// The compatibility gate and the reserved-id check pass.
pub open spec fn pi_write_guard(detected: Option<Seq<char>>, id: Seq<char>) -> bool {
    !spec_known_older(detected, MIN_PI_VERSION@) && !spec_is_managed_provider_id(id)
}

/// Upserts provider `id`: returns the `models.json` entry to write as
/// `providers.<id>` (built over the current one in `models`) and stores its
/// API key in `auth.json` (an OAuth credential is never touched). The
/// selection is not changed.
pub fn set_provider(
    models: &JsonValue,
    auth: &mut Vec<(String, JsonValue)>,
    id: &str,
    config: &PiProviderConfig,
    detected: Option<&str>,
) -> (r: Result<JsonValue, AppError>)
    ensures
        spec_known_older(dview(detected), MIN_PI_VERSION@) ==> r matches Err(
            AppError::PiIncompatibleVersion(_),
        ),
        !spec_known_older(dview(detected), MIN_PI_VERSION@) && spec_is_managed_provider_id(id@)
            ==> r matches Err(AppError::PiManagedReadonly(_)),
        r is Err ==> final(auth)@ == old(auth)@,
        pi_write_guard(dview(detected), id@) ==> (r matches Ok(entry) && jview(entry)
            == JsonView::Object(
            spec_provider_entry(config@, existing_obj(spec_entry_of(jview(*models), id@))),
        ) && jview_entries(final(auth)@) == spec_set_auth_api_key(
            jview_entries(old(auth)@),
            id@,
            opt_view(config.api_key),
        )),
{
    assert_pi_compatible(detected)?;
    ensure_writable_provider(id)?;
    let entry = provider_to_models_json(config, entry_of(models, id));
    set_auth_api_key(
        auth,
        id,
        match &config.api_key {
            Some(k) => Some(k.as_str()),
            None => None,
        },
    );
    Ok(entry)
}

/// Upserts provider `id` (as [`set_provider`]) and selects it as Pi's
/// default.
pub fn upsert_and_select(
    models: &JsonValue,
    auth: &mut Vec<(String, JsonValue)>,
    settings: &mut Vec<(String, JsonValue)>,
    id: &str,
    config: &PiProviderConfig,
    detected: Option<&str>,
) -> (r: Result<JsonValue, AppError>)
    ensures
        spec_known_older(dview(detected), MIN_PI_VERSION@) ==> r matches Err(
            AppError::PiIncompatibleVersion(_),
        ),
        !spec_known_older(dview(detected), MIN_PI_VERSION@) && spec_is_managed_provider_id(id@)
            ==> r matches Err(AppError::PiManagedReadonly(_)),
        r is Err ==> final(auth)@ == old(auth)@ && final(settings)@ == old(settings)@,
        pi_write_guard(dview(detected), id@) ==> (r matches Ok(entry) && jview(entry)
            == JsonView::Object(
            spec_provider_entry(config@, existing_obj(spec_entry_of(jview(*models), id@))),
        ) && jview_entries(final(auth)@) == spec_set_auth_api_key(
            jview_entries(old(auth)@),
            id@,
            opt_view(config.api_key),
        ) && jview_entries(final(settings)@) == spec_write_selection(
            jview_entries(old(settings)@),
            id@,
            spec_pi_default_model_id(config@),
        )),
{
    let entry = set_provider(models, auth, id, config, detected)?;
    let dm = resolve_default_model_id(config);
    write_default_selection(
        settings,
        id,
        match &dm {
            Some(m) => Some(m.as_str()),
            None => None,
        },
    );
    Ok(entry)
}

/// Removes provider `id`'s API key (never an OAuth credential) and clears
/// the selection when it pointed at `id`; returns whether it did. The caller
/// removes `providers.<id>` from `models.json`.
pub fn remove_provider(
    auth: &mut Vec<(String, JsonValue)>,
    settings: &mut Vec<(String, JsonValue)>,
    id: &str,
    detected: Option<&str>,
) -> (r: Result<bool, AppError>)
    ensures
        spec_known_older(dview(detected), MIN_PI_VERSION@) ==> r matches Err(
            AppError::PiIncompatibleVersion(_),
        ),
        !spec_known_older(dview(detected), MIN_PI_VERSION@) && spec_is_managed_provider_id(id@)
            ==> r matches Err(AppError::PiManagedReadonly(_)),
        r is Err ==> final(auth)@ == old(auth)@ && final(settings)@ == old(settings)@,
        pi_write_guard(dview(detected), id@) ==> (r matches Ok(cleared) && jview_entries(
            final(auth)@,
        ) == spec_remove_auth_api_key(jview_entries(old(auth)@), id@) && cleared == (vstr(
            vget(jview_entries(old(settings)@), "defaultProvider"@),
        ) == Some(id@)) && jview_entries(final(settings)@) == if cleared {
            vremove(vremove(jview_entries(old(settings)@), "defaultProvider"@), "defaultModel"@)
        } else {
            jview_entries(old(settings)@)
        }),
{
    assert_pi_compatible(detected)?;
    ensure_writable_provider(id)?;
    remove_auth_api_key(auth, id);
    Ok(clear_selection_of(settings, id))
}

} // verus!
