//! Kimi Code configuration (`config.toml`): additive providers under
//! `[providers.<id>]`, their models under `[models."<provider>/<alias>"]`, and
//! the active selection in `default_model = "<provider>/<alias>"`.
//!
//! The document is held as its tree of tables (a [`JsonValue`] object per
//! table); [`crate::toml_doc`] reads it from the TOML text and writes it
//! back.
use vstd::prelude::*;
use crate::error::AppError;
use crate::json::{
    clone_entries, jview, jview_entries, jview_seq, lemma_jview_entries, lemma_jview_seq,
    lemma_vinsert, lemma_vremove, obj_get, obj_insert, obj_remove, obj_set, ojview, ostr, vget,
    vinsert, vobj, vremove, vset, vstr, JsonNumber, JsonValue, JsonView, NumView, ObjView,
};
use crate::text::{
    chars_of, opt_view, parse_u64, parse_u64_range, starts_with, str_eq, str_starts_with,
    string_from, to_string, trim, trim_str, trimmed_nonempty, trimmed_opt,
};

verus! {

/// A model of a provider (`settingsConfig.models[]`).
#[derive(Debug)]
pub struct KimiCodeModel {
    /// Alias (the part after `<provider>/` in the model key).
    pub id: String,
    /// Model name sent to the API; the alias when empty.
    pub model: Option<String>,
    pub max_context_size: Option<u64>,
    pub max_input_size: Option<u64>,
    pub max_output_size: Option<u64>,
    pub display_name: Option<String>,
    pub capabilities: Option<Vec<String>>,
    pub support_efforts: Option<Vec<String>>,
    pub default_effort: Option<String>,
}

pub struct KimiCodeModelView {
    pub id: Seq<char>,
    pub model: Option<Seq<char>>,
    pub max_context_size: Option<u64>,
    pub max_input_size: Option<u64>,
    pub max_output_size: Option<u64>,
    pub display_name: Option<Seq<char>>,
    pub capabilities: Option<Seq<Seq<char>>>,
    pub support_efforts: Option<Seq<Seq<char>>>,
    pub default_effort: Option<Seq<char>>,
}

pub open spec fn strs_view(v: Seq<String>) -> Seq<Seq<char>> {
    v.map_values(|s: String| s@)
}

pub open spec fn opt_strs_view(o: Option<Vec<String>>) -> Option<Seq<Seq<char>>> {
    match o {
        Some(v) => Some(strs_view(v@)),
        None => None,
    }
}

impl View for KimiCodeModel {
    type V = KimiCodeModelView;

    open spec fn view(&self) -> KimiCodeModelView {
        KimiCodeModelView {
            id: self.id@,
            model: opt_view(self.model),
            max_context_size: self.max_context_size,
            max_input_size: self.max_input_size,
            max_output_size: self.max_output_size,
            display_name: opt_view(self.display_name),
            capabilities: opt_strs_view(self.capabilities),
            support_efforts: opt_strs_view(self.support_efforts),
            default_effort: opt_view(self.default_effort),
        }
    }
}

/// A provider fragment (`settingsConfig`).
#[derive(Debug)]
pub struct KimiCodeProviderConfig {
    /// Protocol type: `kimi`, `openai`, `anthropic`, ...
    pub provider_type: String,
    pub api_key: Option<String>,
    pub base_url: Option<String>,
    pub models: Vec<KimiCodeModel>,
    /// Preferred model alias used for `default_model`.
    pub default_model_id: Option<String>,
    /// Custom HTTP headers, in key order.
    pub custom_headers: Option<Vec<(String, String)>>,
    /// Where a provider read from live config comes from.
    pub _cc_source: Option<String>,
}

pub struct KimiCodeProviderConfigView {
    pub provider_type: Seq<char>,
    pub api_key: Option<Seq<char>>,
    pub base_url: Option<Seq<char>>,
    pub models: Seq<KimiCodeModelView>,
    pub default_model_id: Option<Seq<char>>,
    pub custom_headers: Option<Seq<(Seq<char>, Seq<char>)>>,
    pub cc_source: Option<Seq<char>>,
}

impl View for KimiCodeProviderConfig {
    type V = KimiCodeProviderConfigView;

    open spec fn view(&self) -> KimiCodeProviderConfigView {
        KimiCodeProviderConfigView {
            provider_type: self.provider_type@,
            api_key: opt_view(self.api_key),
            base_url: opt_view(self.base_url),
            models: self.models@.map_values(|m: KimiCodeModel| m@),
            default_model_id: opt_view(self.default_model_id),
            custom_headers: match self.custom_headers {
                Some(h) => Some(h@.map_values(|p: (String, String)| (p.0@, p.1@))),
                None => None,
            },
            cc_source: opt_view(self._cc_source),
        }
    }
}

/// The protocol type of a provider that declares none.
pub fn default_provider_type() -> (s: String)
    ensures
        s@ == "anthropic"@,
{
    to_string("anthropic")
}

fn vec_of_strs(items: &[&str]) -> (r: Vec<String>)
    ensures
        r@.len() == items@.len(),
        forall|i: int| 0 <= i < items@.len() ==> #[trigger] r@[i]@ == items@[i]@,
{
    let mut out: Vec<String> = Vec::new();
    let mut i: usize = 0;
    while i < items.len()
        invariant
            0 <= i <= items@.len(),
            out@.len() == i,
            forall|j: int| 0 <= j < i ==> #[trigger] out@[j]@ == items@[j]@,
        decreases items@.len() - i,
    {
        out.push(to_string(items[i]));
        i = i + 1;
    }
    out
}

impl KimiCodeProviderConfig {
    /// The default fragment: an Anthropic-protocol provider at
    /// `https://api.kimi.com/coding/` with the K3 model.
    pub fn default() -> (c: Self)
        ensures
            c@.provider_type == "anthropic"@,
            c@.api_key is None,
            c@.base_url == Some("https://api.kimi.com/coding/"@),
            c@.models.len() == 1,
            c@.models[0].id == "k3"@,
            c@.models[0].model == Some("k3"@),
            c@.models[0].max_context_size == Some(1048576u64),
            c@.models[0].max_input_size is None,
            c@.models[0].max_output_size is None,
            c@.models[0].display_name == Some("K3"@),
            c@.models[0].capabilities matches Some(caps) && caps.len() == 5 && caps[0]
                == "thinking"@ && caps[1] == "always_thinking"@ && caps[2] == "image_in"@
                && caps[3] == "video_in"@ && caps[4] == "tool_use"@,
            c@.models[0].support_efforts matches Some(e) && e.len() == 3 && e[0] == "low"@ && e[1]
                == "high"@ && e[2] == "max"@,
            c@.models[0].default_effort == Some("high"@),
            c@.default_model_id == Some("k3"@),
            c@.custom_headers is None,
            c@.cc_source is None,
    {
        let caps = vec_of_strs(&["thinking", "always_thinking", "image_in", "video_in", "tool_use"]);
        let efforts = vec_of_strs(&["low", "high", "max"]);
        let mut models: Vec<KimiCodeModel> = Vec::new();
        models.push(
            KimiCodeModel {
                id: to_string("k3"),
                model: Some(to_string("k3")),
                max_context_size: Some(1048576),
                max_input_size: None,
                max_output_size: None,
                display_name: Some(to_string("K3")),
                capabilities: Some(caps),
                support_efforts: Some(efforts),
                default_effort: Some(to_string("high")),
            },
        );
        let c = KimiCodeProviderConfig {
            provider_type: default_provider_type(),
            api_key: None,
            base_url: Some(to_string("https://api.kimi.com/coding/")),
            models,
            default_model_id: Some(to_string("k3")),
            custom_headers: None,
            _cc_source: None,
        };
        assert(c@.models[0] == c.models@[0]@);
        c
    }
}

// ============================================================================
// Reading tables
// ============================================================================

/// `table_string`: a string value, trimmed, when not blank.
pub open spec fn tstr(t: ObjView, k: Seq<char>) -> Option<Seq<char>> {
    trimmed_nonempty(vstr(vget(t, k)))
}

/// `table_u64`: a non-negative integer, or a string holding one.
pub open spec fn tu64(t: ObjView, k: Seq<char>) -> Option<u64> {
    match vget(t, k) {
        Some(JsonView::Number(NumView::PosInt(u))) => Some(u),
        Some(JsonView::Str(s)) => parse_u64(trim(s)),
        _ => None,
    }
}

/// The strings of an array, in order, skipping other items.
pub open spec fn strings_of(a: Seq<JsonView>) -> Seq<Seq<char>>
    decreases a.len(),
{
    if a.len() == 0 {
        seq![]
    } else {
        match a.last() {
            JsonView::Str(s) => strings_of(a.drop_last()).push(s),
            _ => strings_of(a.drop_last()),
        }
    }
}

/// `table_string_array`: the strings of an array value.
pub open spec fn tstrs(t: ObjView, k: Seq<char>) -> Option<Seq<Seq<char>>> {
    match vget(t, k) {
        Some(JsonView::Array(a)) => Some(strings_of(a)),
        _ => None,
    }
}

pub fn table_string(t: &Vec<(String, JsonValue)>, k: &str) -> (r: Option<String>)
    ensures
        opt_view(r) == tstr(jview_entries(t@), k@),
{
    let s = match obj_get(t, k) {
        Some(v) => match v.as_str() {
            Some(s) => Some(s.clone()),
            None => None,
        },
        None => None,
    };
    trimmed_opt(&s)
}

pub fn table_u64(t: &Vec<(String, JsonValue)>, k: &str) -> (r: Option<u64>)
    ensures
        r == tu64(jview_entries(t@), k@),
{
    match obj_get(t, k) {
        Some(JsonValue::Number(JsonNumber::PosInt(u))) => Some(*u),
        Some(JsonValue::Str(s)) => {
            let tr = trim_str(s.as_str());
            let v = chars_of(tr.as_str());
            let r = parse_u64_range(&v, 0, v.len());
            assert(v@.subrange(0, v.len() as int) =~= v@);
            r
        },
        _ => None,
    }
}

pub fn table_string_array(t: &Vec<(String, JsonValue)>, k: &str) -> (r: Option<Vec<String>>)
    ensures
        opt_strs_view(r) == tstrs(jview_entries(t@), k@),
{
    let a = match obj_get(t, k) {
        Some(JsonValue::Array(a)) => a,
        _ => {
            return None;
        },
    };
    proof {
        lemma_jview_seq(a@);
    }
    let ghost av = jview_seq(a@);
    let mut out: Vec<String> = Vec::new();
    let mut i: usize = 0;
    while i < a.len()
        invariant
            0 <= i <= a.len(),
            av == jview_seq(a@),
            av.len() == a.len(),
            forall|j: int| 0 <= j < a.len() ==> #[trigger] av[j] == jview(a@[j]),
            strs_view(out@) == strings_of(av.subrange(0, i as int)),
        decreases a.len() - i,
    {
        let ghost prev = out@;
        proof {
            let s = av.subrange(0, i + 1);
            assert(s.drop_last() =~= av.subrange(0, i as int));
            assert(s.last() == av[i as int]);
        }
        match &a[i] {
            JsonValue::Str(s) => {
                out.push(s.clone());
                assert(strs_view(out@) =~= strs_view(prev).push(s@));
            },
            _ => {},
        }
        i = i + 1;
    }
    assert(av.subrange(0, a.len() as int) =~= av);
    Some(out)
}

// ============================================================================
// Reading providers
// ============================================================================

/// Whether a provider id is an OAuth-managed account (`managed:` prefix).
pub open spec fn spec_is_managed_provider_id(id: Seq<char>) -> bool {
    starts_with(id, "managed:"@)
}

/// Whether a provider id is an OAuth-managed account.
pub fn is_managed_provider_id(id: &str) -> (r: bool)
    ensures
        r == spec_is_managed_provider_id(id@),
{
    str_starts_with(id, "managed:")
}

/// The model read from its table under alias `alias`.
pub open spec fn spec_read_model(alias: Seq<char>, mt: ObjView) -> KimiCodeModelView {
    KimiCodeModelView {
        id: alias,
        model: match tstr(mt, "model"@) {
            Some(m) => Some(m),
            None => Some(alias),
        },
        max_context_size: tu64(mt, "max_context_size"@),
        max_input_size: tu64(mt, "max_input_size"@),
        max_output_size: tu64(mt, "max_output_size"@),
        display_name: tstr(mt, "display_name"@),
        capabilities: tstrs(mt, "capabilities"@),
        support_efforts: tstrs(mt, "support_efforts"@),
        default_effort: tstr(mt, "default_effort"@),
    }
}

/// `<id>/`.
pub open spec fn prefix_of(id: Seq<char>) -> Seq<char> {
    id.push('/')
}

/// A model table belongs to `pid` when its key starts with `<pid>/`, it is
/// a table, and a declared `provider` (if any) is `pid`.
pub open spec fn model_belongs(k: Seq<char>, v: JsonView, pid: Seq<char>) -> bool {
    &&& starts_with(k, prefix_of(pid))
    &&& v is Object
    &&& match tstr(vobj(v), "provider"@) {
        Some(d) => d == pid,
        None => true,
    }
}

/// The models of `pid` in the `[models]` table, in order.
pub open spec fn spec_models_for(ms: ObjView, pid: Seq<char>) -> Seq<KimiCodeModelView>
    decreases ms.len(),
{
    if ms.len() == 0 {
        seq![]
    } else {
        let prev = spec_models_for(ms.drop_last(), pid);
        let k = ms.last().0;
        let v = ms.last().1;
        if model_belongs(k, v, pid) {
            prev.push(spec_read_model(k.subrange(pid.len() + 1int, k.len() as int), vobj(v)))
        } else {
            prev
        }
    }
}

/// The `[models]` table of a document (empty when absent or not a table).
pub open spec fn models_table(doc: ObjView) -> ObjView {
    match vget(doc, "models"@) {
        Some(JsonView::Object(m)) => m,
        _ => seq![],
    }
}

/// The provider `pid` read from its table and the document.
pub open spec fn spec_read_provider(doc: ObjView, pid: Seq<char>, pt: ObjView) -> KimiCodeProviderConfigView {
    let models = spec_models_for(models_table(doc), pid);
    KimiCodeProviderConfigView {
        provider_type: match tstr(pt, "type"@) {
            Some(t) => t,
            None => "anthropic"@,
        },
        api_key: tstr(pt, "api_key"@),
        base_url: tstr(pt, "base_url"@),
        models: models,
        default_model_id: match vstr(vget(doc, "default_model"@)) {
            Some(dm) => if starts_with(dm, prefix_of(pid)) {
                Some(dm.subrange(pid.len() + 1int, dm.len() as int))
            } else if models.len() > 0 {
                Some(models[0].id)
            } else {
                None
            },
            None => if models.len() > 0 {
                Some(models[0].id)
            } else {
                None
            },
        },
        custom_headers: None,
        cc_source: Some(
            if spec_is_managed_provider_id(pid) {
                "managed"@
            } else {
                "user"@
            },
        ),
    }
}

/// Every provider table of `ps`, in order, read against `doc`.
pub open spec fn spec_providers_from(doc: ObjView, ps: ObjView) -> Seq<
    (Seq<char>, KimiCodeProviderConfigView),
>
    decreases ps.len(),
{
    if ps.len() == 0 {
        seq![]
    } else {
        let prev = spec_providers_from(doc, ps.drop_last());
        let (id, v) = ps.last();
        if v is Object {
            prev.push((id, spec_read_provider(doc, id, vobj(v))))
        } else {
            prev
        }
    }
}

/// All providers of a document: the tables under `[providers]`.
pub open spec fn spec_get_providers(doc: ObjView) -> Seq<(Seq<char>, KimiCodeProviderConfigView)> {
    match vget(doc, "providers"@) {
        Some(JsonView::Object(ps)) => spec_providers_from(doc, ps),
        _ => seq![],
    }
}

pub open spec fn kimi_providers_view(v: Seq<(String, KimiCodeProviderConfig)>) -> Seq<
    (Seq<char>, KimiCodeProviderConfigView),
> {
    v.map_values(|p: (String, KimiCodeProviderConfig)| (p.0@, p.1@))
}

fn models_of_provider(models: &Vec<(String, JsonValue)>, pid: &str) -> (r: Vec<KimiCodeModel>)
    ensures
        r@.map_values(|m: KimiCodeModel| m@) == spec_models_for(jview_entries(models@), pid@),
{
    let ghost ms = jview_entries(models@);
    proof {
        lemma_jview_entries(models@);
    }
    let mut prefix = to_string(pid);
    crate::text::push_char(&mut prefix, '/');
    let plen: usize = chars_of(prefix.as_str()).len();
    let mut out: Vec<KimiCodeModel> = Vec::new();
    let mut i: usize = 0;
    while i < models.len()
        invariant
            0 <= i <= models.len(),
            ms == jview_entries(models@),
            ms.len() == models.len(),
            prefix@ == prefix_of(pid@),
            plen == prefix@.len(),
            forall|j: int|
                0 <= j < models.len() ==> #[trigger] ms[j] == (models@[j].0@, jview(models@[j].1)),
            out@.map_values(|m: KimiCodeModel| m@) == spec_models_for(ms.subrange(0, i as int), pid@),
        decreases models.len() - i,
    {
        let ghost prev = out@;
        proof {
            let s = ms.subrange(0, i + 1);
            assert(s.drop_last() =~= ms.subrange(0, i as int));
            assert(s.last() == ms[i as int]);
        }
        let key = &models[i].0;
        if str_starts_with(key.as_str(), prefix.as_str()) {
            match &models[i].1 {
                JsonValue::Object(mt) => {
                    let declared_ok = match table_string(mt, "provider") {
                        Some(d) => str_eq(d.as_str(), pid),
                        None => true,
                    };
                    if declared_ok {
                        let kv = chars_of(key.as_str());
                        let alias = string_from(&kv, plen, kv.len());
                        let m = KimiCodeModel {
                            id: alias.clone(),
                            model: match table_string(mt, "model") {
                                Some(x) => Some(x),
                                None => Some(alias),
                            },
                            max_context_size: table_u64(mt, "max_context_size"),
                            max_input_size: table_u64(mt, "max_input_size"),
                            max_output_size: table_u64(mt, "max_output_size"),
                            display_name: table_string(mt, "display_name"),
                            capabilities: table_string_array(mt, "capabilities"),
                            support_efforts: table_string_array(mt, "support_efforts"),
                            default_effort: table_string(mt, "default_effort"),
                        };
                        out.push(m);
                        assert(out@.map_values(|m: KimiCodeModel| m@) =~= prev.map_values(
                            |m: KimiCodeModel| m@,
                        ).push(out@.last()@));
                    }
                },
                _ => {},
            }
        }
        i = i + 1;
    }
    assert(ms.subrange(0, models.len() as int) =~= ms);
    out
}

/// All providers of the document (the `[providers]` tables, in order), with
/// their models, default model and source (`managed` for `managed:` ids,
/// `user` otherwise).
pub fn get_providers(doc: &Vec<(String, JsonValue)>) -> (r: Vec<(String, KimiCodeProviderConfig)>)
    ensures
        kimi_providers_view(r@) == spec_get_providers(jview_entries(doc@)),
{
    let ghost d = jview_entries(doc@);
    let providers = match obj_get(doc, "providers") {
        Some(JsonValue::Object(p)) => p,
        _ => {
            return Vec::new();
        },
    };
    let empty: Vec<(String, JsonValue)> = Vec::new();
    let models_root: &Vec<(String, JsonValue)> = match obj_get(doc, "models") {
        Some(JsonValue::Object(m)) => m,
        _ => &empty,
    };
    proof {
        lemma_jview_entries(empty@);
    }
    assert(jview_entries(models_root@) == models_table(d));
    let dm: Option<String> = match obj_get(doc, "default_model") {
        Some(v) => match v.as_str() {
            Some(s) => Some(s.clone()),
            None => None,
        },
        None => None,
    };
    let ghost ps = jview_entries(providers@);
    proof {
        lemma_jview_entries(providers@);
    }
    let mut out: Vec<(String, KimiCodeProviderConfig)> = Vec::new();
    let mut i: usize = 0;
    while i < providers.len()
        invariant
            0 <= i <= providers.len(),
            ps == jview_entries(providers@),
            ps.len() == providers.len(),
            jview_entries(models_root@) == models_table(d),
            opt_view(dm) == vstr(vget(d, "default_model"@)),
            forall|j: int|
                0 <= j < providers.len() ==> #[trigger] ps[j] == (providers@[j].0@, jview(
                    providers@[j].1,
                )),
            kimi_providers_view(out@) == spec_providers_from(d, ps.subrange(0, i as int)),
        decreases providers.len() - i,
    {
        let ghost prev = out@;
        proof {
            let s = ps.subrange(0, i + 1);
            assert(s.drop_last() =~= ps.subrange(0, i as int));
            assert(s.last() == ps[i as int]);
        }
        let pid = &providers[i].0;
        match &providers[i].1 {
            JsonValue::Object(pt) => {
                let models = models_of_provider(models_root, pid.as_str());
                let ghost mv = models@.map_values(|m: KimiCodeModel| m@);
                let mut prefix = to_string(pid.as_str());
                crate::text::push_char(&mut prefix, '/');
                let plen: usize = chars_of(prefix.as_str()).len();
                let from_dm: Option<String> = match &dm {
                    Some(s) => {
                        if str_starts_with(s.as_str(), prefix.as_str()) {
                            let sv = chars_of(s.as_str());
                            Some(string_from(&sv, plen, sv.len()))
                        } else {
                            None
                        }
                    },
                    None => None,
                };
                let default_model_id = match from_dm {
                    Some(x) => Some(x),
                    None => if models.len() > 0 {
                        assert(mv[0] == models@[0]@);
                        Some(models[0].id.clone())
                    } else {
                        None
                    },
                };
                let source = if is_managed_provider_id(pid.as_str()) {
                    to_string("managed")
                } else {
                    to_string("user")
                };
                let config = KimiCodeProviderConfig {
                    provider_type: match table_string(pt, "type") {
                        Some(t) => t,
                        None => default_provider_type(),
                    },
                    api_key: table_string(pt, "api_key"),
                    base_url: table_string(pt, "base_url"),
                    models,
                    default_model_id,
                    custom_headers: None,
                    _cc_source: Some(source),
                };
                out.push((pid.clone(), config));
                assert(kimi_providers_view(out@) =~= kimi_providers_view(prev).push(
                    (pid@, out@.last().1@),
                ));
            },
            _ => {},
        }
        i = i + 1;
    }
    assert(ps.subrange(0, providers.len() as int) =~= ps);
    out
}


// ============================================================================
// Writing providers
// ============================================================================

/// A refusal to write a `managed:` provider.
pub fn ensure_writable_provider(id: &str) -> (r: Result<(), AppError>)
    ensures
        r is Ok <==> !spec_is_managed_provider_id(id@),
        r matches Err(e) ==> e matches AppError::KimiManagedReadonly(k) && k@ == id@,
{
    if is_managed_provider_id(id) {
        Err(AppError::KimiManagedReadonly(to_string(id)))
    } else {
        Ok(())
    }
}

/// The TOML integer written for `n` (`n as i64`).
pub open spec fn toml_int(n: u64) -> JsonView {
    if n <= 0x7fff_ffff_ffff_ffffu64 {
        JsonView::Number(NumView::PosInt(n))
    } else {
        JsonView::Number(NumView::NegInt(n as i64))
    }
}

fn toml_int_value(n: u64) -> (r: JsonValue)
    ensures
        jview(r) == toml_int(n),
{
    if n <= 0x7fff_ffff_ffff_ffffu64 {
        JsonValue::Number(JsonNumber::PosInt(n))
    } else {
        JsonValue::Number(JsonNumber::NegInt(#[verifier::truncate] (n as i64)))
    }
}

/// A string array value.
pub open spec fn str_array(v: Seq<Seq<char>>) -> JsonView {
    JsonView::Array(v.map_values(|s: Seq<char>| JsonView::Str(s)))
}

fn str_array_value(v: &Vec<String>) -> (r: JsonValue)
    ensures
        jview(r) == str_array(strs_view(v@)),
{
    let mut out: Vec<JsonValue> = Vec::new();
    let mut i: usize = 0;
    while i < v.len()
        invariant
            0 <= i <= v.len(),
            out@.len() == i,
            forall|j: int| 0 <= j < i ==> #[trigger] jview(out@[j]) == JsonView::Str(v@[j]@),
        decreases v.len() - i,
    {
        out.push(JsonValue::Str(v[i].clone()));
        i = i + 1;
    }
    proof {
        lemma_jview_seq(out@);
        assert(jview_seq(out@) =~= strs_view(v@).map_values(|s: Seq<char>| JsonView::Str(s)));
    }
    JsonValue::Array(out)
}

/// The custom headers table: each header inserted in turn.
pub open spec fn headers_obj(h: Seq<(Seq<char>, Seq<char>)>) -> ObjView
    decreases h.len(),
{
    if h.len() == 0 {
        seq![]
    } else {
        vinsert(headers_obj(h.drop_last()), h.last().0, JsonView::Str(h.last().1))
    }
}

/// `[providers.<id>]` after writing `c` over its previous table `pt`:
/// `type`, `api_key` and `base_url` set (blank ones removed), `oauth`
/// removed, and custom headers replaced when given (removed when empty).
pub open spec fn provider_table_after(pt: ObjView, c: KimiCodeProviderConfigView) -> ObjView {
    let t1 = vinsert(pt, "type"@, JsonView::Str(trim(c.provider_type)));
    let t2 = vset(t1, "api_key"@, ostr(trimmed_nonempty(c.api_key)));
    let t3 = vset(t2, "base_url"@, ostr(trimmed_nonempty(c.base_url)));
    let t4 = vremove(t3, "oauth"@);
    match c.custom_headers {
        Some(h) => if h.len() > 0 {
            vinsert(t4, "custom_headers"@, JsonView::Object(headers_obj(h)))
        } else {
            vremove(t4, "custom_headers"@)
        },
        None => t4,
    }
}

/// `[models."<id>/<alias>"]` after writing model `m` over the table `t`.
pub open spec fn model_table_after(t: ObjView, id: Seq<char>, m: KimiCodeModelView) -> ObjView {
    let alias = trim(m.id);
    let t1 = vinsert(t, "provider"@, JsonView::Str(id));
    let t2 = vinsert(
        t1,
        "model"@,
        JsonView::Str(
            match trimmed_nonempty(m.model) {
                Some(x) => x,
                None => alias,
            },
        ),
    );
    let t3 = vinsert(
        t2,
        "max_context_size"@,
        toml_int(
            match m.max_context_size {
                Some(n) => n,
                None => 262144,
            },
        ),
    );
    let t4 = match m.max_input_size {
        Some(n) => vinsert(t3, "max_input_size"@, toml_int(n)),
        None => t3,
    };
    let t5 = match m.max_output_size {
        Some(n) => vinsert(t4, "max_output_size"@, toml_int(n)),
        None => t4,
    };
    let t6 = vset(t5, "display_name"@, ostr(trimmed_nonempty(m.display_name)));
    let t7 = match m.capabilities {
        Some(c) => if c.len() > 0 {
            vinsert(t6, "capabilities"@, str_array(c))
        } else {
            t6
        },
        None => t6,
    };
    let t8 = match m.support_efforts {
        Some(e) => if e.len() > 0 {
            vinsert(t7, "support_efforts"@, str_array(e))
        } else {
            t7
        },
        None => t7,
    };
    vset(t8, "default_effort"@, ostr(trimmed_nonempty(m.default_effort)))
}

/// The entries of `t` whose key does not start with `prefix`, in order.
pub open spec fn remove_prefixed(t: ObjView, prefix: Seq<char>) -> ObjView
    decreases t.len(),
{
    if t.len() == 0 {
        seq![]
    } else if starts_with(t.last().0, prefix) {
        remove_prefixed(t.drop_last(), prefix)
    } else {
        remove_prefixed(t.drop_last(), prefix).push(t.last())
    }
}

/// The key of a model: `<id>/<alias>`.
pub open spec fn model_key(id: Seq<char>, alias: Seq<char>) -> Seq<char> {
    prefix_of(id) + alias
}

/// The table of an optional value (empty when absent).
pub open spec fn table_or_empty(v: Option<JsonView>) -> ObjView {
    match v {
        Some(JsonView::Object(o)) => o,
        _ => seq![],
    }
}

/// `[models]` after writing the models of `id` in turn (blank aliases
/// skipped; a repeated alias updates the same table).
pub open spec fn models_fold(t: ObjView, id: Seq<char>, ms: Seq<KimiCodeModelView>) -> ObjView
    decreases ms.len(),
{
    if ms.len() == 0 {
        t
    } else {
        let t0 = models_fold(t, id, ms.drop_last());
        let m = ms.last();
        if trim(m.id).len() == 0 {
            t0
        } else {
            let k = model_key(id, trim(m.id));
            vinsert(t0, k, JsonView::Object(model_table_after(table_or_empty(vget(t0, k)), id, m)))
        }
    }
}

/// A value that is present but not a table.
pub open spec fn not_table(v: Option<JsonView>) -> bool {
    v is Some && !(v.unwrap() is Object)
}

/// The document after writing provider `id` from `c`: its provider table
/// and its models (every earlier `<id>/...` model replaced); nothing when
/// `[providers]`, `[providers.<id>]` or `[models]` is not a table.
pub open spec fn spec_apply_provider(doc: ObjView, id: Seq<char>, c: KimiCodeProviderConfigView) -> Option<
    ObjView,
> {
    let pv = vget(doc, "providers"@);
    let ps = table_or_empty(pv);
    let ptv = vget(ps, id);
    let mv = vget(doc, "models"@);
    if not_table(pv) || not_table(ptv) || not_table(mv) {
        None
    } else {
        let ps2 = vinsert(ps, id, JsonView::Object(provider_table_after(table_or_empty(ptv), c)));
        let doc1 = vinsert(doc, "providers"@, JsonView::Object(ps2));
        let mt = remove_prefixed(table_or_empty(mv), prefix_of(id));
        Some(vinsert(doc1, "models"@, JsonView::Object(models_fold(mt, id, c.models))))
    }
}

fn table_of(v: Option<&JsonValue>) -> (r: Result<Vec<(String, JsonValue)>, AppError>)
    ensures
        match r {
            Ok(t) => !not_table(ojview_ref(v)) && jview_entries(t@) == table_or_empty(ojview_ref(v)),
            Err(e) => not_table(ojview_ref(v)) && e is KimiConfigNotTable,
        },
{
    match v {
        Some(JsonValue::Object(o)) => Ok(clone_entries(o)),
        Some(_) => Err(AppError::KimiConfigNotTable),
        None => {
            let e: Vec<(String, JsonValue)> = Vec::new();
            proof {
                lemma_jview_entries(e@);
            }
            Ok(e)
        },
    }
}

pub open spec fn ojview_ref(v: Option<&JsonValue>) -> Option<JsonView> {
    match v {
        Some(x) => Some(jview(*x)),
        None => None,
    }
}

fn headers_table(h: &Vec<(String, String)>) -> (r: Vec<(String, JsonValue)>)
    ensures
        jview_entries(r@) == headers_obj(h@.map_values(|p: (String, String)| (p.0@, p.1@))),
{
    let ghost hv = h@.map_values(|p: (String, String)| (p.0@, p.1@));
    let mut t: Vec<(String, JsonValue)> = Vec::new();
    proof {
        lemma_jview_entries(t@);
    }
    let mut i: usize = 0;
    while i < h.len()
        invariant
            0 <= i <= h.len(),
            hv == h@.map_values(|p: (String, String)| (p.0@, p.1@)),
            jview_entries(t@) == headers_obj(hv.subrange(0, i as int)),
        decreases h.len() - i,
    {
        proof {
            let s = hv.subrange(0, i + 1);
            assert(s.drop_last() =~= hv.subrange(0, i as int));
            assert(s.last() == hv[i as int]);
        }
        obj_insert(&mut t, h[i].0.clone(), JsonValue::Str(h[i].1.clone()));
        i = i + 1;
    }
    assert(hv.subrange(0, h.len() as int) =~= hv);
    t
}

fn write_provider_table(pt: &mut Vec<(String, JsonValue)>, config: &KimiCodeProviderConfig)
    ensures
        jview_entries(final(pt)@) == provider_table_after(jview_entries(old(pt)@), config@),
{
    obj_insert(pt, to_string("type"), JsonValue::Str(trim_str(config.provider_type.as_str())));
    let k = trimmed_opt(&config.api_key);
    obj_set(
        pt,
        "api_key",
        match k {
            Some(x) => Some(JsonValue::Str(x)),
            None => None,
        },
    );
    let b = trimmed_opt(&config.base_url);
    obj_set(
        pt,
        "base_url",
        match b {
            Some(x) => Some(JsonValue::Str(x)),
            None => None,
        },
    );
    obj_remove(pt, "oauth");
    match &config.custom_headers {
        Some(h) => {
            if h.len() > 0 {
                let t = headers_table(h);
                obj_insert(pt, to_string("custom_headers"), JsonValue::Object(t));
            } else {
                obj_remove(pt, "custom_headers");
            }
        },
        None => {},
    }
}

fn opt_str_json(o: Option<String>) -> (r: Option<JsonValue>)
    ensures
        ojview(r) == ostr(opt_view(o)),
{
    match o {
        Some(x) => Some(JsonValue::Str(x)),
        None => None,
    }
}

fn write_model_table(t: &mut Vec<(String, JsonValue)>, id: &str, m: &KimiCodeModel)
    ensures
        jview_entries(final(t)@) == model_table_after(jview_entries(old(t)@), id@, m@),
{
    let alias = trim_str(m.id.as_str());
    obj_insert(t, to_string("provider"), JsonValue::Str(to_string(id)));
    let api_model = match trimmed_opt(&m.model) {
        Some(x) => x,
        None => alias,
    };
    obj_insert(t, to_string("model"), JsonValue::Str(api_model));
    let n = match m.max_context_size {
        Some(n) => n,
        None => 262144,
    };
    obj_insert(t, to_string("max_context_size"), toml_int_value(n));
    match m.max_input_size {
        Some(n) => obj_insert(t, to_string("max_input_size"), toml_int_value(n)),
        None => {},
    }
    match m.max_output_size {
        Some(n) => obj_insert(t, to_string("max_output_size"), toml_int_value(n)),
        None => {},
    }
    obj_set(t, "display_name", opt_str_json(trimmed_opt(&m.display_name)));
    match &m.capabilities {
        Some(c) => if c.len() > 0 {
            obj_insert(t, to_string("capabilities"), str_array_value(c));
        },
        None => {},
    }
    match &m.support_efforts {
        Some(e) => if e.len() > 0 {
            obj_insert(t, to_string("support_efforts"), str_array_value(e));
        },
        None => {},
    }
    obj_set(t, "default_effort", opt_str_json(trimmed_opt(&m.default_effort)));
}

fn remove_prefixed_exec(t: &Vec<(String, JsonValue)>, prefix: &str) -> (r: Vec<(String, JsonValue)>)
    ensures
        jview_entries(r@) == remove_prefixed(jview_entries(t@), prefix@),
{
    let ghost tv = jview_entries(t@);
    proof {
        lemma_jview_entries(t@);
    }
    let mut out: Vec<(String, JsonValue)> = Vec::new();
    proof {
        lemma_jview_entries(out@);
    }
    let mut i: usize = 0;
    while i < t.len()
        invariant
            0 <= i <= t.len(),
            tv == jview_entries(t@),
            tv.len() == t.len(),
            forall|j: int| 0 <= j < t.len() ==> #[trigger] tv[j] == (t@[j].0@, jview(t@[j].1)),
            jview_entries(out@) == remove_prefixed(tv.subrange(0, i as int), prefix@),
        decreases t.len() - i,
    {
        let ghost prev = out@;
        proof {
            let s = tv.subrange(0, i + 1);
            assert(s.drop_last() =~= tv.subrange(0, i as int));
            assert(s.last() == tv[i as int]);
        }
        if !str_starts_with(t[i].0.as_str(), prefix) {
            out.push((t[i].0.clone(), crate::json::clone_json(&t[i].1)));
            proof {
                lemma_jview_entries(prev);
                lemma_jview_entries(out@);
                assert(jview_entries(out@) =~= jview_entries(prev).push(tv[i as int]));
            }
        }
        i = i + 1;
    }
    assert(tv.subrange(0, t.len() as int) =~= tv);
    out
}

/// Every key of `t` that starts with `prefix` holds a table.
pub open spec fn prefixed_are_tables(t: ObjView, prefix: Seq<char>) -> bool {
    forall|k: Seq<char>|
        starts_with(k, prefix) && #[trigger] vget(t, k) is Some ==> vget(t, k).unwrap() is Object
}

proof fn lemma_remove_prefixed_get(t: ObjView, prefix: Seq<char>, k: Seq<char>)
    requires
        starts_with(k, prefix),
    ensures
        vget(remove_prefixed(t, prefix), k) is None,
    decreases t.len(),
{
    if t.len() > 0 {
        lemma_remove_prefixed_get(t.drop_last(), prefix, k);
        let r0 = remove_prefixed(t.drop_last(), prefix);
        if !starts_with(t.last().0, prefix) {
            assert(t.last().0 != k);
            crate::json::lemma_vget_concat(r0, seq![t.last()], k);
            assert(r0.push(t.last()) =~= r0 + seq![t.last()]);
            let one: ObjView = seq![t.last()];
            assert(one.subrange(1, one.len() as int) =~= Seq::<(Seq<char>, JsonView)>::empty());
        }
    }
}

fn write_models(models: &mut Vec<(String, JsonValue)>, id: &str, config: &KimiCodeProviderConfig)
    requires
        prefixed_are_tables(jview_entries(old(models)@), prefix_of(id@)),
    ensures
        jview_entries(final(models)@) == models_fold(
            jview_entries(old(models)@),
            id@,
            config@.models,
        ),
{
    let ghost t0 = jview_entries(models@);
    let ghost ms = config@.models;
    let mut i: usize = 0;
    while i < config.models.len()
        invariant
            0 <= i <= config.models.len(),
            ms == config@.models,
            ms.len() == config.models.len(),
            jview_entries(models@) == models_fold(t0, id@, ms.subrange(0, i as int)),
            prefixed_are_tables(jview_entries(models@), prefix_of(id@)),
        decreases config.models.len() - i,
    {
        let ghost cur = jview_entries(models@);
        proof {
            let s = ms.subrange(0, i + 1);
            assert(s.drop_last() =~= ms.subrange(0, i as int));
            assert(s.last() == ms[i as int]);
            assert(ms[i as int] == config.models@[i as int]@);
        }
        let m = &config.models[i];
        let alias = trim_str(m.id.as_str());
        if !alias.as_str().is_empty() {
            let mut key = to_string(id);
            crate::text::push_char(&mut key, '/');
            crate::text::push_str(&mut key, alias.as_str());
            assert(key@ =~= model_key(id@, trim(m.id@)));
            let mut t: Vec<(String, JsonValue)> = match obj_get(models, key.as_str()) {
                Some(JsonValue::Object(o)) => clone_entries(o),
                _ => {
                    let e: Vec<(String, JsonValue)> = Vec::new();
                    proof {
                        lemma_jview_entries(e@);
                        if vget(cur, key@) is Some {
                            assert(starts_with(key@, prefix_of(id@))) by {
                                assert(key@.subrange(0, prefix_of(id@).len() as int) =~= prefix_of(id@));
                            }
                        }
                    }
                    e
                },
            };
            write_model_table(&mut t, id, m);
            let ghost nt = jview_entries(t@);
            obj_insert(models, key, JsonValue::Object(t));
            proof {
                lemma_vinsert(cur, model_key(id@, trim(m.id@)), JsonView::Object(nt));
            }
        }
        i = i + 1;
    }
    assert(ms.subrange(0, config.models.len() as int) =~= ms);
}

/// Writes `[providers.<id>]` and replaces the `<id>/...` models; refused,
/// with the document unchanged, when a node on the way is not a table.
pub fn apply_provider_to_doc(
    doc: &mut Vec<(String, JsonValue)>,
    id: &str,
    config: &KimiCodeProviderConfig,
) -> (r: Result<(), AppError>)
    ensures
        match spec_apply_provider(jview_entries(old(doc)@), id@, config@) {
            Some(d) => r is Ok && jview_entries(final(doc)@) == d,
            None => r matches Err(e) && e is KimiConfigNotTable && final(doc)@ == old(doc)@,
        },
{
    let ghost d0 = jview_entries(doc@);
    let mut providers = table_of(obj_get(doc, "providers"))?;
    let mut pt = table_of(obj_get(&providers, id))?;
    let models0 = table_of(obj_get(doc, "models"))?;
    write_provider_table(&mut pt, config);
    obj_insert(&mut providers, to_string(id), JsonValue::Object(pt));
    let mut prefix = to_string(id);
    crate::text::push_char(&mut prefix, '/');
    let mut models = remove_prefixed_exec(&models0, prefix.as_str());
    proof {
        assert forall|k: Seq<char>|
            starts_with(k, prefix_of(id@)) && #[trigger] vget(jview_entries(models@), k) is Some
            implies vget(jview_entries(models@), k).unwrap() is Object by {
            lemma_remove_prefixed_get(jview_entries(models0@), prefix_of(id@), k);
        }
    }
    write_models(&mut models, id, config);
    obj_insert(doc, to_string("providers"), JsonValue::Object(providers));
    proof {
        lemma_vinsert(d0, "providers"@, JsonView::Object(jview_entries(providers@)));
    }
    obj_insert(doc, to_string("models"), JsonValue::Object(models));
    Ok(())
}


/// `<provider>/<model>` for the default selection: the trimmed
/// `defaultModelId` when not blank, else the first model's id, else `k3`.
pub open spec fn spec_default_selector(pid: Seq<char>, c: KimiCodeProviderConfigView) -> Seq<char> {
    let m = match trimmed_nonempty(c.default_model_id) {
        Some(d) => d,
        None => if c.models.len() > 0 {
            c.models[0].id
        } else {
            "k3"@
        },
    };
    prefix_of(pid) + m
}

/// The `default_model` selector for provider `pid`.
pub fn resolve_default_model_id(pid: &str, config: &KimiCodeProviderConfig) -> (r: String)
    ensures
        r@ == spec_default_selector(pid@, config@),
{
    let m = match trimmed_opt(&config.default_model_id) {
        Some(d) => d,
        None => if config.models.len() > 0 {
            assert(config@.models[0] == config.models@[0]@);
            config.models[0].id.clone()
        } else {
            to_string("k3")
        },
    };
    let mut out = to_string(pid);
    crate::text::push_char(&mut out, '/');
    crate::text::push_str(&mut out, m.as_str());
    assert(out@ =~= spec_default_selector(pid@, config@));
    out
}

/// Sets `default_model` to the selector of `pid`.
pub fn apply_default_model_to_doc(doc: &mut Vec<(String, JsonValue)>, pid: &str, config: &KimiCodeProviderConfig)
    ensures
        jview_entries(final(doc)@) == vinsert(
            jview_entries(old(doc)@),
            "default_model"@,
            JsonView::Str(spec_default_selector(pid@, config@)),
        ),
{
    let sel = resolve_default_model_id(pid, config);
    obj_insert(doc, to_string("default_model"), JsonValue::Str(sel));
}

/// Upserts provider `id` (its table and models) without changing the
/// default model; `managed:` providers are refused.
pub fn set_provider(doc: &mut Vec<(String, JsonValue)>, id: &str, config: &KimiCodeProviderConfig) -> (r:
    Result<(), AppError>)
    ensures
        spec_is_managed_provider_id(id@) ==> (r matches Err(e) && e is KimiManagedReadonly
            && final(doc)@ == old(doc)@),
        !spec_is_managed_provider_id(id@) ==> match spec_apply_provider(
            jview_entries(old(doc)@),
            id@,
            config@,
        ) {
            Some(d) => r is Ok && jview_entries(final(doc)@) == d,
            None => r matches Err(e) && e is KimiConfigNotTable && final(doc)@ == old(doc)@,
        },
{
    ensure_writable_provider(id)?;
    apply_provider_to_doc(doc, id, config)
}

/// Upserts provider `id` and selects it as `default_model`.
pub fn upsert_and_select(doc: &mut Vec<(String, JsonValue)>, id: &str, config: &KimiCodeProviderConfig) -> (r:
    Result<(), AppError>)
    ensures
        spec_is_managed_provider_id(id@) ==> (r matches Err(e) && e is KimiManagedReadonly
            && final(doc)@ == old(doc)@),
        !spec_is_managed_provider_id(id@) ==> match spec_apply_provider(
            jview_entries(old(doc)@),
            id@,
            config@,
        ) {
            Some(d) => r is Ok && jview_entries(final(doc)@) == vinsert(
                d,
                "default_model"@,
                JsonView::Str(spec_default_selector(id@, config@)),
            ),
            None => r matches Err(e) && e is KimiConfigNotTable && final(doc)@ == old(doc)@,
        },
{
    ensure_writable_provider(id)?;
    apply_provider_to_doc(doc, id, config)?;
    apply_default_model_to_doc(doc, id, config);
    Ok(())
}

/// Retargets `default_model` at provider `pid` (its rows must exist).
pub fn apply_switch_defaults(doc: &mut Vec<(String, JsonValue)>, pid: &str, config: &KimiCodeProviderConfig)
    ensures
        jview_entries(final(doc)@) == vinsert(
            jview_entries(old(doc)@),
            "default_model"@,
            JsonView::Str(spec_default_selector(pid@, config@)),
        ),
{
    apply_default_model_to_doc(doc, pid, config);
}

/// The document after removing provider `id`: its table, its `<id>/...`
/// models, and a `default_model` pointing at it (moved to the first
/// remaining model, or removed when none remains).
pub open spec fn spec_remove_provider(doc: ObjView, id: Seq<char>) -> ObjView {
    let d1 = match vget(doc, "providers"@) {
        Some(JsonView::Object(ps)) => vinsert(doc, "providers"@, JsonView::Object(vremove(ps, id))),
        _ => doc,
    };
    let d2 = match vget(d1, "models"@) {
        Some(JsonView::Object(ms)) => vinsert(
            d1,
            "models"@,
            JsonView::Object(remove_prefixed(ms, prefix_of(id))),
        ),
        _ => d1,
    };
    match vstr(vget(d2, "default_model"@)) {
        Some(dm) => if starts_with(dm, prefix_of(id)) {
            match vget(d2, "models"@) {
                Some(JsonView::Object(ms)) => if ms.len() > 0 {
                    vinsert(d2, "default_model"@, JsonView::Str(ms[0].0))
                } else {
                    vremove(d2, "default_model"@)
                },
                _ => vremove(d2, "default_model"@),
            }
        } else {
            d2
        },
        None => d2,
    }
}

/// Removes user provider `id` and its models (retargeting or removing a
/// `default_model` that pointed at it); `managed:` providers are refused.
pub fn remove_provider(doc: &mut Vec<(String, JsonValue)>, id: &str) -> (r: Result<(), AppError>)
    ensures
        spec_is_managed_provider_id(id@) ==> (r matches Err(e) && e matches AppError::KimiManagedNotRemovable(k)
            && k@ == id@ && final(doc)@ == old(doc)@),
        !spec_is_managed_provider_id(id@) ==> r is Ok && jview_entries(final(doc)@)
            == spec_remove_provider(jview_entries(old(doc)@), id@),
{
    if is_managed_provider_id(id) {
        return Err(AppError::KimiManagedNotRemovable(to_string(id)));
    }
    let mut prefix = to_string(id);
    crate::text::push_char(&mut prefix, '/');
    let ghost d0 = jview_entries(doc@);
    let new_providers: Option<Vec<(String, JsonValue)>> = match obj_get(doc, "providers") {
        Some(JsonValue::Object(ps)) => {
            let mut p2 = clone_entries(ps);
            obj_remove(&mut p2, id);
            Some(p2)
        },
        _ => None,
    };
    match new_providers {
        Some(p2) => obj_insert(doc, to_string("providers"), JsonValue::Object(p2)),
        None => {},
    }
    let ghost d1 = jview_entries(doc@);
    let new_models: Option<Vec<(String, JsonValue)>> = match obj_get(doc, "models") {
        Some(JsonValue::Object(ms)) => Some(remove_prefixed_exec(ms, prefix.as_str())),
        _ => None,
    };
    match new_models {
        Some(m2) => obj_insert(doc, to_string("models"), JsonValue::Object(m2)),
        None => {},
    }
    let ghost d2 = jview_entries(doc@);
    let points_here = match obj_get(doc, "default_model") {
        Some(v) => match v.as_str() {
            Some(dm) => str_starts_with(dm.as_str(), prefix.as_str()),
            None => false,
        },
        None => false,
    };
    if points_here {
        let next: Option<String> = match obj_get(doc, "models") {
            Some(JsonValue::Object(ms)) => if ms.len() > 0 {
                proof {
                    lemma_jview_entries(ms@);
                }
                Some(ms[0].0.clone())
            } else {
                None
            },
            _ => None,
        };
        match next {
            Some(k) => obj_insert(doc, to_string("default_model"), JsonValue::Str(k)),
            None => obj_remove(doc, "default_model"),
        }
    }
    Ok(())
}

/// The `default_model` selector, trimmed, when a non-blank string.
pub open spec fn spec_default_model(doc: ObjView) -> Option<Seq<char>> {
    tstr(doc, "default_model"@)
}

/// The current `default_model`.
pub fn get_default_model(doc: &Vec<(String, JsonValue)>) -> (r: Option<String>)
    ensures
        opt_view(r) == spec_default_model(jview_entries(doc@)),
{
    table_string(doc, "default_model")
}

/// The provider part of a selector: what precedes its first `/`, when not
/// empty.
pub open spec fn selector_provider_id(sel: Seq<char>) -> Option<Seq<char>> {
    let i = crate::text::find_char(sel, '/');
    if i > 0 {
        Some(sel.subrange(0, i))
    } else {
        None
    }
}

/// The provider owning the current `default_model`.
pub fn get_default_provider_id(doc: &Vec<(String, JsonValue)>) -> (r: Option<String>)
    ensures
        opt_view(r) == match spec_default_model(jview_entries(doc@)) {
            Some(dm) => selector_provider_id(dm),
            None => None,
        },
{
    let dm = match get_default_model(doc) {
        Some(d) => d,
        None => {
            return None;
        },
    };
    let v = chars_of(dm.as_str());
    assert(v@.subrange(0, v@.len() as int) =~= v@);
    match crate::text::find_char_in(&v, 0, v.len(), '/') {
        Some(i) => if i > 0 {
            Some(string_from(&v, 0, i))
        } else {
            None
        },
        None => None,
    }
}

// ============================================================================
// MCP servers (`mcp.json`)
// ============================================================================

/// The `mcpServers` object of `mcp.json` (empty when absent or not an
/// object).
pub open spec fn spec_mcp_servers(root: Option<JsonView>) -> ObjView {
    match root {
        Some(r) => match crate::json::vfield(r, "mcpServers"@) {
            Some(JsonView::Object(o)) => o,
            _ => seq![],
        },
        None => seq![],
    }
}

/// The MCP servers of a parsed `mcp.json` (`None` for a missing or blank
/// file).
pub fn get_mcp_servers(root: Option<&JsonValue>) -> (r: Vec<(String, JsonValue)>)
    ensures
        jview_entries(r@) == spec_mcp_servers(ojview_ref(root)),
{
    let e: Vec<(String, JsonValue)> = Vec::new();
    proof {
        lemma_jview_entries(e@);
    }
    match root {
        Some(r) => match r.get("mcpServers") {
            Some(JsonValue::Object(o)) => clone_entries(o),
            _ => e,
        },
        None => e,
    }
}

/// The `mcp.json` document for a set of servers: `{"mcpServers": ...}`.
pub fn write_mcp_servers(servers: Vec<(String, JsonValue)>) -> (r: JsonValue)
    ensures
        jview(r) == JsonView::Object(
            seq![("mcpServers"@, JsonView::Object(jview_entries(servers@)))],
        ),
{
    let mut o: Vec<(String, JsonValue)> = Vec::new();
    o.push((to_string("mcpServers"), JsonValue::Object(servers)));
    proof {
        lemma_jview_entries(o@);
        assert(jview_entries(o@) =~= seq![
            ("mcpServers"@, JsonView::Object(jview_entries(servers@))),
        ]);
    }
    JsonValue::Object(o)
}

/// Adds or replaces server `id`.
pub fn set_mcp_server(servers: &mut Vec<(String, JsonValue)>, id: &str, config: JsonValue)
    ensures
        jview_entries(final(servers)@) == vinsert(jview_entries(old(servers)@), id@, jview(config)),
{
    obj_insert(servers, to_string(id), config);
}

/// Removes server `id`.
pub fn remove_mcp_server(servers: &mut Vec<(String, JsonValue)>, id: &str)
    ensures
        jview_entries(final(servers)@) == vremove(jview_entries(old(servers)@), id@),
{
    obj_remove(servers, id);
}

// ============================================================================
// Paths
// ============================================================================

/// `Path::join` on Unix: an absolute name replaces the base; otherwise one
/// `/` separates the parts (none after an empty base or a trailing `/`).
pub open spec fn spec_path_join(base: Seq<char>, name: Seq<char>) -> Seq<char> {
    if name.len() > 0 && name[0] == '/' {
        name
    } else if base.len() == 0 || base.last() == '/' {
        base + name
    } else {
        base + seq!['/'] + name
    }
}

/// Joins a name to a directory as `Path::join` does.
pub fn path_join(base: &str, name: &str) -> (r: String)
    ensures
        r@ == spec_path_join(base@, name@),
{
    let nv = chars_of(name);
    if nv.len() > 0 && nv[0] == '/' {
        return to_string(name);
    }
    let v = chars_of(base);
    let mut out = to_string(base);
    if v.len() > 0 && v[v.len() - 1] != '/' {
        crate::text::push_char(&mut out, '/');
    }
    crate::text::push_str(&mut out, name);
    out
}

/// The Kimi Code home: the configured override, else a non-blank
/// `KIMI_CODE_HOME` (trimmed), else `<home>/.kimi-code`.
pub open spec fn spec_kimi_code_dir(
    override_dir: Option<Seq<char>>,
    env_home: Option<Seq<char>>,
    home: Seq<char>,
) -> Seq<char> {
    match override_dir {
        Some(d) => d,
        None => match trimmed_nonempty(env_home) {
            Some(e) => e,
            None => spec_path_join(home, ".kimi-code"@),
        },
    }
}

/// Resolves the Kimi Code home directory.
pub fn get_kimi_code_dir(override_dir: Option<&str>, env_home: Option<&str>, home: &str) -> (r: String)
    ensures
        r@ == spec_kimi_code_dir(
            crate::omp_ops::dview(override_dir),
            crate::omp_ops::dview(env_home),
            home@,
        ),
{
    match override_dir {
        Some(d) => to_string(d),
        None => {
            let e = match env_home {
                Some(s) => Some(to_string(s)),
                None => None,
            };
            match trimmed_opt(&e) {
                Some(t) => t,
                None => path_join(home, ".kimi-code"),
            }
        },
    }
}

/// `<dir>/config.toml`.
pub fn get_kimi_code_config_path(dir: &str) -> (r: String)
    ensures
        r@ == spec_path_join(dir@, "config.toml"@),
{
    path_join(dir, "config.toml")
}

/// `<dir>/mcp.json`.
pub fn get_kimi_code_mcp_path(dir: &str) -> (r: String)
    ensures
        r@ == spec_path_join(dir@, "mcp.json"@),
{
    path_join(dir, "mcp.json")
}

/// `<dir>/skills`.
pub fn get_kimi_code_skills_dir(dir: &str) -> (r: String)
    ensures
        r@ == spec_path_join(dir@, "skills"@),
{
    path_join(dir, "skills")
}

/// `<dir>/sessions`.
pub fn get_kimi_code_sessions_dir(dir: &str) -> (r: String)
    ensures
        r@ == spec_path_join(dir@, "sessions"@),
{
    path_join(dir, "sessions")
}

/// `<dir>/session_index.jsonl`.
pub fn get_kimi_code_session_index_path(dir: &str) -> (r: String)
    ensures
        r@ == spec_path_join(dir@, "session_index.jsonl"@),
{
    path_join(dir, "session_index.jsonl")
}

} // verus!
