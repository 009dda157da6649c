//! What holds across the Omp operations: what is read back after a write,
//! what a write keeps, and how the proxy takeover markers behave.
use vstd::prelude::*;
use crate::json::{
    lemma_vget_concat, lemma_vinsert, lemma_vremove, obool, ostr, ou64, vbool, vfield, vget,
    vinsert, vobj, vremove, vstr, vu64, JsonView, ObjView,
};
use crate::omp_config::{
    base_obj, is_provider_entry, lemma_entry_keys, model_entries, model_entry, model_from,
    models_from, opt_entry, owned_key, spec_is_managed_provider, spec_provider_from_entry,
    OmpModelView, OmpProviderConfigView,
};
use crate::omp_ops::{
    is_takeover_entry, spec_entry_has_markers, spec_providers_have_markers, spec_source,
    spec_strip_all, spec_strip_markers, upserted,
};
use crate::text::{lemma_trim_idempotent, trim, trimmed_nonempty};

verus! {

/// A model as it is read back after being written: id, name and api trimmed
/// (blank name and api dropped).
pub open spec fn normalized_model(m: OmpModelView) -> OmpModelView {
    OmpModelView {
        id: trim(m.id),
        name: trimmed_nonempty(m.name),
        api: trimmed_nonempty(m.api),
        reasoning: m.reasoning,
        context_window: m.context_window,
        max_tokens: m.max_tokens,
    }
}

/// The models read back after a write: those with a non-blank id, in order,
/// normalized.
pub open spec fn normalized_models(ms: Seq<OmpModelView>) -> Seq<OmpModelView>
    decreases ms.len(),
{
    if ms.len() == 0 {
        seq![]
    } else if trim(ms.last().id).len() > 0 {
        normalized_models(ms.drop_last()).push(normalized_model(ms.last()))
    } else {
        normalized_models(ms.drop_last())
    }
}

/// A provider fragment as it is read back after being written.
pub open spec fn normalized_config(c: OmpProviderConfigView) -> OmpProviderConfigView {
    OmpProviderConfigView {
        api: if trim(c.api).len() > 0 {
            trim(c.api)
        } else {
            "openai-completions"@
        },
        api_key: trimmed_nonempty(c.api_key),
        base_url: trimmed_nonempty(c.base_url),
        models: normalized_models(c.models),
        default_model_id: None,
        display_name: trimmed_nonempty(c.display_name),
        auth_header: c.auth_header,
        cc_source: Some("managed"@),
    }
}

proof fn lemma_opt_entry_get(k: Seq<char>, v: Option<JsonView>, k2: Seq<char>)
    ensures
        vget(opt_entry(k, v), k2) == if k2 == k {
            v
        } else {
            None
        },
{
    let o = opt_entry(k, v);
    if o.len() > 0 {
        assert(o.subrange(1, o.len() as int) =~= Seq::<(Seq<char>, JsonView)>::empty());
    }
}

proof fn lemma_model_entry_get(m: OmpModelView)
    ensures
        vget(model_entry(m), "id"@) == Some(JsonView::Str(trim(m.id))),
        vget(model_entry(m), "name"@) == ostr(trimmed_nonempty(m.name)),
        vget(model_entry(m), "api"@) == ostr(trimmed_nonempty(m.api)),
        vget(model_entry(m), "reasoning"@) == obool(m.reasoning),
        vget(model_entry(m), "contextWindow"@) == ou64(m.context_window),
        vget(model_entry(m), "maxTokens"@) == ou64(m.max_tokens),
{
    lemma_entry_keys();
    let p0: ObjView = seq![("id"@, JsonView::Str(trim(m.id)))];
    let a = opt_entry("name"@, ostr(trimmed_nonempty(m.name)));
    let b = opt_entry("api"@, ostr(trimmed_nonempty(m.api)));
    let c = opt_entry("reasoning"@, obool(m.reasoning));
    let d = opt_entry("contextWindow"@, ou64(m.context_window));
    let e = opt_entry("maxTokens"@, ou64(m.max_tokens));
    assert(model_entry(m) == p0 + a + b + c + d + e);
    assert forall|k: Seq<char>| #[trigger] vget(model_entry(m), k) == if vget(p0, k) is Some {
        vget(p0, k)
    } else if vget(a, k) is Some {
        vget(a, k)
    } else if vget(b, k) is Some {
        vget(b, k)
    } else if vget(c, k) is Some {
        vget(c, k)
    } else if vget(d, k) is Some {
        vget(d, k)
    } else {
        vget(e, k)
    } by {
        lemma_vget_concat(p0, a, k);
        lemma_vget_concat(p0 + a, b, k);
        lemma_vget_concat(p0 + a + b, c, k);
        lemma_vget_concat(p0 + a + b + c, d, k);
        lemma_vget_concat(p0 + a + b + c + d, e, k);
    }
    assert forall|k: Seq<char>| #[trigger] vget(p0, k) == if k == "id"@ {
        Some(JsonView::Str(trim(m.id)))
    } else {
        None
    } by {
        assert(p0.subrange(1, p0.len() as int) =~= Seq::<(Seq<char>, JsonView)>::empty());
    }
    assert forall|k: Seq<char>| true implies #[trigger] vget(a, k) == (if k == "name"@ {
        ostr(trimmed_nonempty(m.name))
    } else {
        None
    }) && vget(b, k) == (if k == "api"@ {
        ostr(trimmed_nonempty(m.api))
    } else {
        None
    }) && vget(c, k) == (if k == "reasoning"@ {
        obool(m.reasoning)
    } else {
        None
    }) && vget(d, k) == (if k == "contextWindow"@ {
        ou64(m.context_window)
    } else {
        None
    }) && vget(e, k) == (if k == "maxTokens"@ {
        ou64(m.max_tokens)
    } else {
        None
    }) by {
        lemma_opt_entry_get("name"@, ostr(trimmed_nonempty(m.name)), k);
        lemma_opt_entry_get("api"@, ostr(trimmed_nonempty(m.api)), k);
        lemma_opt_entry_get("reasoning"@, obool(m.reasoning), k);
        lemma_opt_entry_get("contextWindow"@, ou64(m.context_window), k);
        lemma_opt_entry_get("maxTokens"@, ou64(m.max_tokens), k);
    }
    assert(vget(model_entry(m), "id"@) == Some(JsonView::Str(trim(m.id))));
    assert(vget(model_entry(m), "name"@) == ostr(trimmed_nonempty(m.name)));
    assert(vget(model_entry(m), "api"@) == ostr(trimmed_nonempty(m.api)));
    assert(vget(model_entry(m), "reasoning"@) == obool(m.reasoning));
    assert(vget(model_entry(m), "contextWindow"@) == ou64(m.context_window));
    assert(vget(model_entry(m), "maxTokens"@) == ou64(m.max_tokens));
}

/// A written model entry reads back as the normalized model.
pub proof fn law_model_roundtrip(m: OmpModelView)
    requires
        trim(m.id).len() > 0,
    ensures
        model_from(JsonView::Object(model_entry(m))) == Some(normalized_model(m)),
{
    lemma_model_entry_get(m);
    lemma_trim_idempotent(m.id);
    match m.name {
        Some(n) => lemma_trim_idempotent(n),
        None => {},
    }
}

/// Written model entries read back as the normalized models.
pub proof fn law_models_roundtrip(ms: Seq<OmpModelView>)
    ensures
        models_from(model_entries(ms)) == normalized_models(ms),
    decreases ms.len(),
{
    if ms.len() > 0 {
        law_models_roundtrip(ms.drop_last());
        if trim(ms.last().id).len() > 0 {
            law_model_roundtrip(ms.last());
            let a = model_entries(ms);
            assert(a.drop_last() =~= model_entries(ms.drop_last()));
        }
    }
}

/// A provider entry written from `c` reads back as the normalized fragment,
/// marked `managed`.
pub proof fn law_provider_roundtrip(e: JsonView, c: OmpProviderConfigView, base: ObjView)
    requires
        is_provider_entry(e, c, base),
    ensures
        spec_provider_from_entry(e, "managed"@) == normalized_config(c),
        spec_is_managed_provider(e),
{
    law_models_roundtrip(c.models);
    lemma_entry_keys();
    if model_entries(c.models).len() == 0 {
        assert(models_from(model_entries(c.models)) =~= Seq::<OmpModelView>::empty());
    }
}

/// After an upsert, the entry of `id` reads back (whatever the OAuth state)
/// as the normalized fragment with source `managed`.
pub proof fn law_upsert_reads_back(
    before: ObjView,
    after: ObjView,
    id: Seq<char>,
    c: OmpProviderConfigView,
    has_oauth: bool,
)
    requires
        upserted(before, after, id, c),
    ensures
        spec_source(vget(after, id).unwrap(), has_oauth) == "managed"@,
        spec_provider_from_entry(
            vget(after, id).unwrap(),
            spec_source(vget(after, id).unwrap(), has_oauth),
        ) == normalized_config(c),
{
    law_provider_roundtrip(vget(after, id).unwrap(), c, base_obj(vget(before, id)));
}

/// An upsert keeps every other provider, and every key of the previous entry
/// that is not owned here.
pub proof fn law_upsert_preserves_unowned(
    before: ObjView,
    after: ObjView,
    id: Seq<char>,
    c: OmpProviderConfigView,
)
    requires
        upserted(before, after, id, c),
    ensures
        forall|k: Seq<char>| k != id ==> #[trigger] vget(after, k) == vget(before, k),
        forall|k: Seq<char>|
            !owned_key(k) ==> #[trigger] vfield(vget(after, id).unwrap(), k) == vget(
                base_obj(vget(before, id)),
                k,
            ),
{
    lemma_vinsert(before, id, vget(after, id).unwrap());
}

/// A taken-over entry carries the markers.
pub proof fn law_takeover_marks_entry(
    e: JsonView,
    c: OmpProviderConfigView,
    base: ObjView,
    url: Seq<char>,
    placeholder: Seq<char>,
)
    requires
        is_takeover_entry(e, c, base, url, placeholder),
    ensures
        spec_entry_has_markers(e, placeholder),
        vfield(e, "baseUrl"@) == Some(JsonView::Str(url)),
        spec_is_managed_provider(e),
{
    let e0 = choose|e0: JsonView|
        #![trigger is_provider_entry(e0, c, base)]
        is_provider_entry(e0, c, base) && e == JsonView::Object(
            vinsert(
                vinsert(vobj(e0), "baseUrl"@, JsonView::Str(url)),
                "apiKey"@,
                JsonView::Str(placeholder),
            ),
        );
    let o1 = vinsert(vobj(e0), "baseUrl"@, JsonView::Str(url));
    lemma_vinsert(vobj(e0), "baseUrl"@, JsonView::Str(url));
    lemma_vinsert(o1, "apiKey"@, JsonView::Str(placeholder));
    lemma_entry_keys();
}

/// Only the placeholder `apiKey` marks an entry: an entry whose `apiKey` is
/// not the placeholder is never taken over, whatever its `baseUrl`.
pub proof fn law_loopback_base_url_is_no_marker(entry: JsonView, placeholder: Seq<char>)
    requires
        vstr(vfield(entry, "apiKey"@)) != Some(placeholder),
    ensures
        !spec_entry_has_markers(entry, placeholder),
        spec_strip_markers(entry, placeholder) is None,
{

}

/// Stripping leaves no marker behind.
pub proof fn law_stripped_entry_has_no_markers(entry: JsonView, placeholder: Seq<char>)
    requires
        spec_strip_markers(entry, placeholder) is Some,
    ensures
        !spec_entry_has_markers(
            JsonView::Object(spec_strip_markers(entry, placeholder).unwrap()),
            placeholder,
        ),
{
    let o = vremove(vobj(entry), "apiKey"@);
    lemma_vremove(vobj(entry), "apiKey"@);
    lemma_vremove(o, "baseUrl"@);
    lemma_entry_keys();
}

/// After stripping every entry, no entry carries the markers.
pub proof fn law_strip_all_leaves_no_markers(p: ObjView, placeholder: Seq<char>)
    ensures
        !spec_providers_have_markers(spec_strip_all(p, placeholder), placeholder),
{
    assert forall|i: int| 0 <= i < spec_strip_all(p, placeholder).len() implies !spec_entry_has_markers(
        #[trigger] spec_strip_all(p, placeholder)[i].1,
        placeholder,
    ) by {
        if spec_strip_markers(p[i].1, placeholder) is Some {
            law_stripped_entry_has_no_markers(p[i].1, placeholder);
        }
    }
}

/// Stripping every entry changes nothing when no entry is marked.
pub proof fn law_strip_all_without_markers_is_identity(p: ObjView, placeholder: Seq<char>)
    requires
        !spec_providers_have_markers(p, placeholder),
    ensures
        spec_strip_all(p, placeholder) == p,
{
    assert forall|i: int| 0 <= i < p.len() implies #[trigger] spec_strip_all(p, placeholder)[i]
        == p[i] by {
        assert(!spec_entry_has_markers(p[i].1, placeholder));
    }
    assert(spec_strip_all(p, placeholder) =~= p);
}

/// Reverting a taken-over entry with the same fragment restores the
/// configured `baseUrl` and `apiKey` and keeps it managed.
pub proof fn law_revert_restores_config(
    taken: JsonView,
    reverted: JsonView,
    c: OmpProviderConfigView,
    base: ObjView,
    url: Seq<char>,
    placeholder: Seq<char>,
)
    requires
        is_takeover_entry(taken, c, base, url, placeholder),
        spec_strip_markers(taken, placeholder) matches Some(stripped) && is_provider_entry(
            reverted,
            c,
            stripped,
        ),
    ensures
        spec_strip_markers(taken, placeholder) is Some,
        vfield(reverted, "baseUrl"@) == ostr(trimmed_nonempty(c.base_url)),
        vfield(reverted, "apiKey"@) == ostr(trimmed_nonempty(c.api_key)),
        spec_is_managed_provider(reverted),
{
    law_takeover_marks_entry(taken, c, base, url, placeholder);
    lemma_entry_keys();
}

} // verus!
