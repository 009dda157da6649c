//! What holds across the Kimi Code document operations.
use vstd::prelude::*;
use crate::json::{
    lemma_vget_concat, lemma_vinsert, lemma_vremove, lemma_vset, vget, vinsert, vremove, vstr,
    JsonView, ObjView,
};
use crate::kimi_config::{
    model_key, models_fold, prefix_of, provider_table_after, remove_prefixed, spec_apply_provider,
    spec_default_model, spec_default_selector, spec_remove_provider, table_or_empty, tstr,
    KimiCodeModelView, KimiCodeProviderConfigView,
};
use crate::text::{lemma_trim_idempotent, starts_with, trim, trimmed_nonempty};

verus! {

proof fn lemma_table_keys()
    ensures
        "type"@ != "api_key"@,
        "type"@ != "base_url"@,
        "type"@ != "oauth"@,
        "type"@ != "custom_headers"@,
        "api_key"@ != "base_url"@,
        "api_key"@ != "oauth"@,
        "api_key"@ != "custom_headers"@,
        "base_url"@ != "oauth"@,
        "base_url"@ != "custom_headers"@,
        "oauth"@ != "custom_headers"@,
        "providers"@ != "models"@,
        "providers"@ != "default_model"@,
        "models"@ != "default_model"@,
{
    reveal_strlit("type");
    reveal_strlit("api_key");
    reveal_strlit("base_url");
    reveal_strlit("oauth");
    reveal_strlit("custom_headers");
    reveal_strlit("providers");
    reveal_strlit("models");
    reveal_strlit("default_model");
    assert("type"@.len() != "api_key"@.len());
    assert("type"@.len() != "base_url"@.len());
    assert("type"@[0] != "oauth"@[0]);
    assert("type"@.len() != "custom_headers"@.len());
    assert("api_key"@.len() != "base_url"@.len());
    assert("api_key"@.len() != "oauth"@.len());
    assert("api_key"@.len() != "custom_headers"@.len());
    assert("base_url"@.len() != "oauth"@.len());
    assert("base_url"@.len() != "custom_headers"@.len());
    assert("oauth"@.len() != "custom_headers"@.len());
    assert("providers"@.len() != "models"@.len());
    assert("providers"@.len() != "default_model"@.len());
    assert("models"@.len() != "default_model"@.len());
}

proof fn lemma_trimmed_twice(o: Option<Seq<char>>)
    ensures
        trimmed_nonempty(trimmed_nonempty(o)) == trimmed_nonempty(o),
{
    match o {
        Some(s) => lemma_trim_idempotent(s),
        None => {},
    }
}

/// The fields of a provider table written from `c`.
pub proof fn law_provider_table_fields(pt: ObjView, c: KimiCodeProviderConfigView)
    ensures
        tstr(provider_table_after(pt, c), "type"@) == trimmed_nonempty(Some(c.provider_type)),
        tstr(provider_table_after(pt, c), "api_key"@) == trimmed_nonempty(c.api_key),
        tstr(provider_table_after(pt, c), "base_url"@) == trimmed_nonempty(c.base_url),
        vget(provider_table_after(pt, c), "oauth"@) is None,
{
    lemma_table_keys();
    let t1 = vinsert(pt, "type"@, JsonView::Str(trim(c.provider_type)));
    let t2 = crate::json::vset(t1, "api_key"@, crate::json::ostr(trimmed_nonempty(c.api_key)));
    let t3 = crate::json::vset(t2, "base_url"@, crate::json::ostr(trimmed_nonempty(c.base_url)));
    let t4 = vremove(t3, "oauth"@);
    lemma_vinsert(pt, "type"@, JsonView::Str(trim(c.provider_type)));
    lemma_vset(t1, "api_key"@, crate::json::ostr(trimmed_nonempty(c.api_key)));
    lemma_vset(t2, "base_url"@, crate::json::ostr(trimmed_nonempty(c.base_url)));
    lemma_vremove(t3, "oauth"@);
    match c.custom_headers {
        Some(h) => if h.len() > 0 {
            lemma_vinsert(t4, "custom_headers"@, JsonView::Object(crate::kimi_config::headers_obj(h)));
        } else {
            lemma_vremove(t4, "custom_headers"@);
        },
        None => {},
    }
    lemma_trim_idempotent(c.provider_type);
    lemma_trimmed_twice(c.api_key);
    lemma_trimmed_twice(c.base_url);
}

/// After writing provider `id`, its table is present and reads back the
/// written type, key and base URL (trimmed, blank ones absent).
pub proof fn law_kimi_upsert_reads_back(doc: ObjView, id: Seq<char>, c: KimiCodeProviderConfigView)
    requires
        spec_apply_provider(doc, id, c) is Some,
    ensures
        ({
            let d = spec_apply_provider(doc, id, c).unwrap();
            let ps = table_or_empty(vget(d, "providers"@));
            let ptv = vget(ps, id);
            &&& vget(d, "providers"@) matches Some(JsonView::Object(_))
            &&& ptv matches Some(JsonView::Object(_))
            &&& tstr(table_or_empty(ptv), "type"@) == trimmed_nonempty(Some(c.provider_type))
            &&& tstr(table_or_empty(ptv), "api_key"@) == trimmed_nonempty(c.api_key)
            &&& tstr(table_or_empty(ptv), "base_url"@) == trimmed_nonempty(c.base_url)
        }),
{
    lemma_table_keys();
    let ps0 = table_or_empty(vget(doc, "providers"@));
    let pt0 = table_or_empty(vget(ps0, id));
    let ps2 = vinsert(ps0, id, JsonView::Object(provider_table_after(pt0, c)));
    let doc1 = vinsert(doc, "providers"@, JsonView::Object(ps2));
    lemma_vinsert(ps0, id, JsonView::Object(provider_table_after(pt0, c)));
    lemma_vinsert(doc, "providers"@, JsonView::Object(ps2));
    let d = spec_apply_provider(doc, id, c).unwrap();
    let mt = remove_prefixed(table_or_empty(vget(doc, "models"@)), prefix_of(id));
    lemma_vinsert(
        doc1,
        "models"@,
        JsonView::Object(crate::kimi_config::models_fold(mt, id, c.models)),
    );
    law_provider_table_fields(pt0, c);
}

/// Selecting a provider writes its selector as `default_model`.
pub proof fn law_kimi_select_sets_default(doc: ObjView, pid: Seq<char>, c: KimiCodeProviderConfigView)
    ensures
        vstr(
            vget(
                vinsert(doc, "default_model"@, JsonView::Str(spec_default_selector(pid, c))),
                "default_model"@,
            ),
        ) == Some(spec_default_selector(pid, c)),
{
    lemma_vinsert(doc, "default_model"@, JsonView::Str(spec_default_selector(pid, c)));
}

proof fn lemma_remove_prefixed_keys(t: ObjView, prefix: Seq<char>)
    ensures
        forall|i: int|
            0 <= i < remove_prefixed(t, prefix).len() ==> !starts_with(
                #[trigger] remove_prefixed(t, prefix)[i].0,
                prefix,
            ),
    decreases t.len(),
{
    if t.len() > 0 {
        lemma_remove_prefixed_keys(t.drop_last(), prefix);
        let r0 = remove_prefixed(t.drop_last(), prefix);
        let r = remove_prefixed(t, prefix);
        if !starts_with(t.last().0, prefix) {
            assert forall|i: int| 0 <= i < r.len() implies !starts_with(#[trigger] r[i].0, prefix) by {
                if i < r0.len() {
                    assert(r[i] == r0[i]);
                }
            }
        }
    }
}

proof fn lemma_remove_prefixed_get(t: ObjView, prefix: Seq<char>, k: Seq<char>)
    requires
        starts_with(k, prefix),
    ensures
        vget(remove_prefixed(t, prefix), k) is None,
{
    let r = remove_prefixed(t, prefix);
    lemma_remove_prefixed_keys(t, prefix);
    crate::json::lemma_vindex(r, k);
}

/// After removing provider `id`: its table is gone, no `<id>/...` model
/// remains, and `default_model` no longer points at it.
pub proof fn law_kimi_remove_clears_provider(doc: ObjView, id: Seq<char>)
    ensures
        ({
            let d = spec_remove_provider(doc, id);
            &&& vget(table_or_empty(vget(d, "providers"@)), id) is None
            &&& forall|k: Seq<char>|
                starts_with(k, prefix_of(id)) ==> #[trigger] vget(
                    table_or_empty(vget(d, "models"@)),
                    k,
                ) is None
            &&& match vstr(vget(d, "default_model"@)) {
                Some(dm) => !starts_with(dm, prefix_of(id)),
                None => true,
            }
        }),
{
    lemma_table_keys();
    let d1 = match vget(doc, "providers"@) {
        Some(JsonView::Object(ps)) => vinsert(doc, "providers"@, JsonView::Object(vremove(ps, id))),
        _ => doc,
    };
    match vget(doc, "providers"@) {
        Some(JsonView::Object(ps)) => {
            lemma_vinsert(doc, "providers"@, JsonView::Object(vremove(ps, id)));
            lemma_vremove(ps, id);
        },
        _ => {},
    }
    let d2 = match vget(d1, "models"@) {
        Some(JsonView::Object(ms)) => vinsert(
            d1,
            "models"@,
            JsonView::Object(remove_prefixed(ms, prefix_of(id))),
        ),
        _ => d1,
    };
    match vget(d1, "models"@) {
        Some(JsonView::Object(ms)) => {
            lemma_vinsert(d1, "models"@, JsonView::Object(remove_prefixed(ms, prefix_of(id))));
            assert forall|k: Seq<char>| starts_with(k, prefix_of(id)) implies #[trigger] vget(
                remove_prefixed(ms, prefix_of(id)),
                k,
            ) is None by {
                lemma_remove_prefixed_get(ms, prefix_of(id), k);
            }
            lemma_remove_prefixed_keys(ms, prefix_of(id));
        },
        _ => {},
    }
    match vstr(vget(d2, "default_model"@)) {
        Some(dm) => if starts_with(dm, prefix_of(id)) {
            match vget(d2, "models"@) {
                Some(JsonView::Object(ms)) => if ms.len() > 0 {
                    lemma_vinsert(d2, "default_model"@, JsonView::Str(ms[0].0));
                } else {
                    lemma_vremove(d2, "default_model"@);
                },
                _ => {
                    lemma_vremove(d2, "default_model"@);
                },
            }
        },
        None => {},
    }
}


proof fn lemma_vget_push(t: ObjView, x: (Seq<char>, JsonView), k: Seq<char>)
    ensures
        vget(t.push(x), k) == if vget(t, k) is Some {
            vget(t, k)
        } else if x.0 == k {
            Some(x.1)
        } else {
            None
        },
{
    let one: ObjView = seq![x];
    assert(t.push(x) =~= t + one);
    lemma_vget_concat(t, one, k);
    let e: ObjView = seq![];
    assert(one.subrange(1, 1) =~= e);
    assert(crate::json::vindex(e, k) == -1);
}

/// Removing the `p`-prefixed keys: exactly those keys lose their value.
proof fn lemma_remove_prefixed(t: ObjView, p: Seq<char>, k: Seq<char>)
    ensures
        vget(remove_prefixed(t, p), k) == if starts_with(k, p) {
            None
        } else {
            vget(t, k)
        },
    decreases t.len(),
{
    if t.len() == 0 {
        let e: ObjView = seq![];
        assert(remove_prefixed(t, p) == e);
        assert(crate::json::vindex(e, k) == -1);
        assert(crate::json::vindex(t, k) == -1);
    } else {
        let t0 = t.drop_last();
        let x = t.last();
        assert(t =~= t0.push(x));
        lemma_remove_prefixed(t0, p, k);
        lemma_vget_push(t0, x, k);
        if !starts_with(x.0, p) {
            lemma_vget_push(remove_prefixed(t0, p), x, k);
        }
    }
}

proof fn lemma_model_key_prefixed(id: Seq<char>, a: Seq<char>)
    ensures
        starts_with(model_key(id, a), prefix_of(id)),
{
    assert(model_key(id, a).subrange(0, prefix_of(id).len() as int) =~= prefix_of(id));
}

/// Writing the models of `id`: keys outside `<id>/` keep their value; a key
/// under `<id>/` has a value exactly when it had one or is the key of a
/// written model (non-blank alias).
proof fn lemma_models_fold(t: ObjView, id: Seq<char>, ms: Seq<KimiCodeModelView>, k: Seq<char>)
    ensures
        !starts_with(k, prefix_of(id)) ==> vget(models_fold(t, id, ms), k) == vget(t, k),
        starts_with(k, prefix_of(id)) ==> (vget(models_fold(t, id, ms), k) is Some <==> (vget(t, k) is Some
            || exists|i: int|
            0 <= i < ms.len() && trim(#[trigger] ms[i].id).len() > 0 && k == model_key(
                id,
                trim(ms[i].id),
            ))),
    decreases ms.len(),
{
    if ms.len() > 0 {
        let m0 = ms.drop_last();
        let m = ms.last();
        lemma_models_fold(t, id, m0, k);
        let t0 = models_fold(t, id, m0);
        if trim(m.id).len() > 0 {
            let mk = model_key(id, trim(m.id));
            lemma_model_key_prefixed(id, trim(m.id));
            lemma_vinsert(
                t0,
                mk,
                JsonView::Object(
                    crate::kimi_config::model_table_after(table_or_empty(vget(t0, mk)), id, m),
                ),
            );
        }
        if starts_with(k, prefix_of(id)) {
            if exists|i: int|
                0 <= i < m0.len() && trim(#[trigger] m0[i].id).len() > 0 && k == model_key(id, trim(m0[i].id)) {
                let i = choose|i: int|
                    0 <= i < m0.len() && trim(#[trigger] m0[i].id).len() > 0 && k == model_key(
                        id,
                        trim(m0[i].id),
                    );
                assert(ms[i] == m0[i]);
            }
            if exists|i: int|
                0 <= i < ms.len() && trim(#[trigger] ms[i].id).len() > 0 && k == model_key(id, trim(ms[i].id)) {
                let i = choose|i: int|
                    0 <= i < ms.len() && trim(#[trigger] ms[i].id).len() > 0 && k == model_key(
                        id,
                        trim(ms[i].id),
                    );
                if i < m0.len() {
                    assert(m0[i] == ms[i]);
                }
            }
        }
    }
}

/// Writing provider `id` changes nothing but its own provider table and its
/// own models: every other top-level item, every other provider and every
/// model outside `<id>/` is kept; the provider table is rebuilt from `c`;
/// the models under `<id>/` are exactly those written from `c` (non-blank
/// aliases).
pub proof fn law_kimi_upsert_changes_only_its_provider(
    doc: ObjView,
    id: Seq<char>,
    c: KimiCodeProviderConfigView,
    k: Seq<char>,
)
    requires
        spec_apply_provider(doc, id, c) is Some,
    ensures
        ({
            let d = spec_apply_provider(doc, id, c).unwrap();
            let ps0 = table_or_empty(vget(doc, "providers"@));
            let ps = table_or_empty(vget(d, "providers"@));
            let ms0 = table_or_empty(vget(doc, "models"@));
            let ms = table_or_empty(vget(d, "models"@));
            &&& k != "providers"@ && k != "models"@ ==> vget(d, k) == vget(doc, k)
            &&& k != id ==> vget(ps, k) == vget(ps0, k)
            &&& vget(ps, id) == Some(
                JsonView::Object(provider_table_after(table_or_empty(vget(ps0, id)), c)),
            )
            &&& !starts_with(k, prefix_of(id)) ==> vget(ms, k) == vget(ms0, k)
            &&& starts_with(k, prefix_of(id)) ==> (vget(ms, k) is Some <==> exists|i: int|
                0 <= i < c.models.len() && trim(#[trigger] c.models[i].id).len() > 0 && k
                    == model_key(id, trim(c.models[i].id)))
        }),
{
    lemma_table_keys();
    let ps0 = table_or_empty(vget(doc, "providers"@));
    let pt0 = table_or_empty(vget(ps0, id));
    let ps2 = vinsert(ps0, id, JsonView::Object(provider_table_after(pt0, c)));
    let doc1 = vinsert(doc, "providers"@, JsonView::Object(ps2));
    lemma_vinsert(ps0, id, JsonView::Object(provider_table_after(pt0, c)));
    lemma_vinsert(doc, "providers"@, JsonView::Object(ps2));
    let mt = remove_prefixed(table_or_empty(vget(doc, "models"@)), prefix_of(id));
    lemma_vinsert(doc1, "models"@, JsonView::Object(models_fold(mt, id, c.models)));
    lemma_remove_prefixed(table_or_empty(vget(doc, "models"@)), prefix_of(id), k);
    lemma_models_fold(mt, id, c.models, k);
}

/// Removing provider `id` when `default_model` points at one of its models
/// (`<id>/...`) moves `default_model` to the first model that remains (the
/// first key of the `[models]` table after the removal) and removes it only
/// when no model remains; a `default_model` pointing elsewhere is kept.
pub proof fn law_kimi_remove_retargets_default(doc: ObjView, id: Seq<char>)
    ensures
        ({
            let d = spec_remove_provider(doc, id);
            let ms = table_or_empty(vget(d, "models"@));
            let points = match vstr(vget(doc, "default_model"@)) {
                Some(dm) => starts_with(dm, prefix_of(id)),
                None => false,
            };
            &&& match vget(doc, "models"@) {
                Some(JsonView::Object(m0)) => ms == remove_prefixed(m0, prefix_of(id)),
                _ => true,
            }
            &&& points && ms.len() > 0 ==> vget(d, "default_model"@) == Some(JsonView::Str(ms[0].0))
            &&& points && ms.len() == 0 ==> vget(d, "default_model"@) is None
            &&& !points ==> vget(d, "default_model"@) == vget(doc, "default_model"@)
        }),
{
    lemma_table_keys();
    let d1 = match vget(doc, "providers"@) {
        Some(JsonView::Object(ps)) => vinsert(doc, "providers"@, JsonView::Object(vremove(ps, id))),
        _ => doc,
    };
    match vget(doc, "providers"@) {
        Some(JsonView::Object(ps)) => {
            lemma_vinsert(doc, "providers"@, JsonView::Object(vremove(ps, id)));
        },
        _ => {},
    }
    assert(vget(d1, "models"@) == vget(doc, "models"@));
    assert(vget(d1, "default_model"@) == vget(doc, "default_model"@));
    let d2 = match vget(d1, "models"@) {
        Some(JsonView::Object(ms)) => vinsert(
            d1,
            "models"@,
            JsonView::Object(remove_prefixed(ms, prefix_of(id))),
        ),
        _ => d1,
    };
    match vget(d1, "models"@) {
        Some(JsonView::Object(ms)) => {
            lemma_vinsert(d1, "models"@, JsonView::Object(remove_prefixed(ms, prefix_of(id))));
        },
        _ => {},
    }
    assert(vget(d2, "default_model"@) == vget(doc, "default_model"@));
    let d = spec_remove_provider(doc, id);
    match vstr(vget(d2, "default_model"@)) {
        Some(dm) => if starts_with(dm, prefix_of(id)) {
            match vget(d2, "models"@) {
                Some(JsonView::Object(ms)) => if ms.len() > 0 {
                    lemma_vinsert(d2, "default_model"@, JsonView::Str(ms[0].0));
                } else {
                    lemma_vremove(d2, "default_model"@);
                },
                _ => {
                    lemma_vremove(d2, "default_model"@);
                },
            }
            assert(vget(d, "models"@) == vget(d2, "models"@));
        } else {
            assert(d == d2);
        },
        None => {
            assert(d == d2);
        },
    }
}

} // verus!
