//! Which model a selection points at: the Omp role selector, Pi's
//! `defaultModel` and Kimi Code's `default_model`.
use vstd::prelude::*;
use crate::json::{varr, vfield, vstr, JsonView};
use crate::omp_config::{lemma_role_index, role_get, role_index, selector, OmpProviderConfigView, RolesView};
use crate::omp_ops::{roles_after_select, spec_default_model_id, spec_first_model_id};
use crate::text::{trim, trimmed_nonempty};
use crate::pi_config::{spec_pi_default_model_id, PiProviderConfigView};
use crate::kimi_config::{spec_default_selector, KimiCodeProviderConfigView};

verus! {

/// After pointing `role` at `sel`, the role reads back as `sel`.
pub proof fn law_select_reads_back(r: RolesView, role: Seq<char>, sel: Seq<char>)
    ensures
        vstr(role_get(roles_after_select(r, role, sel), role)) == Some(sel),
{
    if vstr(role_get(r, role)) != Some(sel) {
        lemma_role_index(r, role);
        let i = role_index(r, role);
        if 0 <= i < r.len() {
            let r2 = r.update(i, (JsonView::Str(role), JsonView::Str(sel)));
            lemma_role_index(r2, role);
            assert(r2[i].0 == JsonView::Str(role));
            assert forall|j: int| 0 <= j < i implies r2[j].0 != JsonView::Str(role) by {
                assert(r2[j] == r[j]);
            }
        } else {
            let r2 = r.push((JsonView::Str(role), JsonView::Str(sel)));
            lemma_role_index(r2, role);
            assert(r2[r.len() as int].0 == JsonView::Str(role));
            assert forall|j: int| 0 <= j < r.len() implies r2[j].0 != JsonView::Str(role) by {
                assert(r2[j] == r[j]);
            }
        }
    }
}

/// The model a selection points at: the configured `defaultModelId`
/// (trimmed) whenever it is not blank; the first model's id (trimmed) only
/// when it is absent or blank; none when that is blank too.
pub proof fn law_default_model_prefers_configured(c: OmpProviderConfigView)
    ensures
        trimmed_nonempty(c.default_model_id) is Some ==> spec_default_model_id(c) == trimmed_nonempty(
            c.default_model_id,
        ),
        trimmed_nonempty(c.default_model_id) is None && c.models.len() > 0 && trim(c.models[0].id).len()
            > 0 ==> spec_default_model_id(c) == Some(trim(c.models[0].id)),
        trimmed_nonempty(c.default_model_id) is None && (c.models.len() == 0 || trim(
            c.models[0].id,
        ).len() == 0) ==> spec_default_model_id(c) is None,
{
}

/// Selecting a provider whose config names a non-blank `defaultModelId` `d`
/// points the role at `<id>/<trim(d)>`, whatever its models are.
pub proof fn law_select_writes_configured_default(
    r: RolesView,
    role: Seq<char>,
    id: Seq<char>,
    c: OmpProviderConfigView,
    d: Seq<char>,
)
    requires
        c.default_model_id == Some(d),
        trim(d).len() > 0,
    ensures
        spec_default_model_id(c) == Some(trim(d)),
        vstr(role_get(roles_after_select(r, role, selector(id, trim(d))), role)) == Some(
            id + seq!['/'] + trim(d),
        ),
{
    law_select_reads_back(r, role, selector(id, trim(d)));
}

/// The model of a live entry that a role is set to: the trimmed id of the
/// first element of its `models` array, whatever the later elements hold.
pub proof fn law_first_model_is_first_element(entry: JsonView, a: Seq<JsonView>, s: Seq<char>)
    requires
        varr(vfield(entry, "models"@)) == Some(a),
        a.len() > 0,
        vstr(vfield(a[0], "id"@)) == Some(s),
        trim(s).len() > 0,
    ensures
        spec_first_model_id(entry) == Some(trim(s)),
{
}

/// Setting `role` to provider `pid` whose live entry's first model has id
/// `s` points the role at `<pid>/<trim(s)>`.
pub proof fn law_set_role_writes_first_model(
    r: RolesView,
    role: Seq<char>,
    pid: Seq<char>,
    entry: JsonView,
    a: Seq<JsonView>,
    s: Seq<char>,
)
    requires
        varr(vfield(entry, "models"@)) == Some(a),
        a.len() > 0,
        vstr(vfield(a[0], "id"@)) == Some(s),
        trim(s).len() > 0,
    ensures
        match spec_first_model_id(entry) {
            Some(m) => vstr(role_get(roles_after_select(r, role, selector(pid, m)), role)) == Some(
                pid + seq!['/'] + trim(s),
            ),
            None => false,
        },
{
    law_first_model_is_first_element(entry, a, s);
    law_select_reads_back(r, role, selector(pid, trim(s)));
}

/// Pi's `defaultModel` for a selected provider: the configured
/// `defaultModelId` (trimmed) whenever it is not blank; the first model's
/// id (trimmed) only when it is absent or blank.
pub proof fn law_pi_default_model_prefers_configured(c: PiProviderConfigView)
    ensures
        trimmed_nonempty(c.default_model_id) is Some ==> spec_pi_default_model_id(c)
            == trimmed_nonempty(c.default_model_id),
        trimmed_nonempty(c.default_model_id) is None && c.models.len() > 0 && trim(c.models[0].id).len()
            > 0 ==> spec_pi_default_model_id(c) == Some(trim(c.models[0].id)),
        trimmed_nonempty(c.default_model_id) is None && (c.models.len() == 0 || trim(
            c.models[0].id,
        ).len() == 0) ==> spec_pi_default_model_id(c) is None,
{
}

/// Kimi Code's `default_model` for a selected provider `pid`:
/// `<pid>/<trimmed defaultModelId>` whenever it is not blank; else
/// `<pid>/<first model's id>`; `<pid>/k3` when it has no model.
pub proof fn law_kimi_default_selector_prefers_configured(pid: Seq<char>, c: KimiCodeProviderConfigView)
    ensures
        trimmed_nonempty(c.default_model_id) matches Some(d) ==> spec_default_selector(pid, c) == pid
            + seq!['/'] + d,
        trimmed_nonempty(c.default_model_id) is None && c.models.len() > 0 ==> spec_default_selector(
            pid,
            c,
        ) == pid + seq!['/'] + c.models[0].id,
        trimmed_nonempty(c.default_model_id) is None && c.models.len() == 0 ==> spec_default_selector(
            pid,
            c,
        ) == pid + seq!['/'] + "k3"@,
{
    let p = pid.push('/');
    assert(p =~= pid + seq!['/']);
}

} // verus!
