//! What holds across the Pi operations: `models.json` edits never leave a
//! trailing comma and keep sibling members, Pi's OAuth credentials are never
//! touched, and nothing of them leaves through the diagnostic view or the
//! takeover backup.
use vstd::prelude::*;
use crate::json::{
    lemma_vinsert, lemma_vremove, lemma_vset, ostr, vfield, vget, vinsert, vremove, vstr, JsonView,
    ObjView,
};
use crate::pi_config::{
    redacted_oauth, spec_auth_api_keys, spec_auth_type, spec_redact, spec_remove_auth_api_key,
    spec_set_auth_api_key, spec_write_selection,
};
use crate::pi_jsonc::{
    key_name, lemma_pair_index, new_pair, pair_index, spec_remove_pairs, spec_upsert_pairs,
    PairView, RtView,
};

verus! {

/// A member followed by a comma.
pub open spec fn has_comma(p: PairView) -> bool {
    p.ctx matches Some(c) && c.after_comma is Some
}

/// Every member but the last is followed by a comma, and the last is not:
/// the object prints as strict JSON (no trailing comma).
pub open spec fn commas_ok(ps: Seq<PairView>) -> bool {
    &&& forall|i: int| 0 <= i < ps.len() - 1 ==> #[trigger] has_comma(ps[i])
    &&& ps.len() > 0 ==> !has_comma(ps.last())
}

/// Upserting a member keeps an object free of trailing commas.
pub proof fn law_upsert_keeps_commas(
    ps: Seq<PairView>,
    ws: Option<Seq<char>>,
    key: Seq<char>,
    value: RtView,
)
    requires
        commas_ok(ps),
    ensures
        commas_ok(spec_upsert_pairs(ps, ws, key, value).0),
{
    let r = spec_upsert_pairs(ps, ws, key, value).0;
    let i = pair_index(ps, key);
    lemma_pair_index(ps, key);
    if i >= 0 {
        assert(r.len() == ps.len());
        assert forall|j: int| 0 <= j < r.len() - 1 implies #[trigger] has_comma(r[j]) by {
            assert(r[j].ctx == ps[j].ctx);
            assert(has_comma(ps[j]));
        }
        assert(r.last().ctx == ps.last().ctx);
    } else if ps.len() > 0 {
        assert forall|j: int| 0 <= j < r.len() - 1 implies #[trigger] has_comma(r[j]) by {
            if j < ps.len() - 1 {
                assert(r[j] == ps[j]);
            }
        }
    }
}

/// Removing a member keeps an object free of trailing commas.
pub proof fn law_remove_keeps_commas(ps: Seq<PairView>, key: Seq<char>)
    requires
        commas_ok(ps),
    ensures
        commas_ok(spec_remove_pairs(ps, key)),
{
    let i = pair_index(ps, key);
    lemma_pair_index(ps, key);
    if i >= 0 {
        let rest = ps.remove(i);
        let r = spec_remove_pairs(ps, key);
        if i == ps.len() - 1 && rest.len() > 0 {
            assert forall|j: int| 0 <= j < r.len() - 1 implies #[trigger] has_comma(r[j]) by {
                assert(r[j] == ps[j]);
            }
        } else {
            assert forall|j: int| 0 <= j < r.len() - 1 implies #[trigger] has_comma(r[j]) by {
                if j < i {
                    assert(r[j] == ps[j]);
                } else {
                    assert(r[j] == ps[j + 1]);
                }
            }
            if r.len() > 0 {
                assert(r.last() == ps.last());
            }
        }
    }
}

/// After an upsert the member is present with the new value, and every
/// other member keeps its key and value, in place.
pub proof fn law_upsert_sets_member(
    ps: Seq<PairView>,
    ws: Option<Seq<char>>,
    key: Seq<char>,
    value: RtView,
)
    ensures
        ({
            let r = spec_upsert_pairs(ps, ws, key, value).0;
            &&& pair_index(r, key) >= 0
            &&& r[pair_index(r, key)].value == value
            &&& r.len() >= ps.len()
            &&& forall|j: int|
                0 <= j < ps.len() && j != pair_index(ps, key) ==> #[trigger] r[j].key == ps[j].key
                    && r[j].value == ps[j].value
        }),
{
    let r = spec_upsert_pairs(ps, ws, key, value).0;
    lemma_pair_index(ps, key);
    lemma_pair_index(r, key);
    let i = pair_index(ps, key);
    if i >= 0 {
        assert(key_name(r[i].key) == Some(key));
        if pair_index(r, key) != i {
            if pair_index(r, key) >= 0 && pair_index(r, key) < i {
                assert(r[pair_index(r, key)].key == ps[pair_index(r, key)].key);
            }
        }
    } else {
        assert(key_name(r[ps.len() as int].key) == Some(key));
        if pair_index(r, key) >= 0 && pair_index(r, key) < ps.len() {
            assert(r[pair_index(r, key)].key == ps[pair_index(r, key)].key);
        }
    }
}

/// Member names are unique.
pub open spec fn names_unique(ps: Seq<PairView>) -> bool {
    forall|a: int, b: int|
        0 <= a < b < ps.len() && key_name(ps[a].key) is Some ==> key_name(#[trigger] ps[a].key)
            != key_name(#[trigger] ps[b].key)
}

/// With unique names, a removed member is gone, and every other member is
/// kept with its value, in order.
pub proof fn law_remove_drops_member(ps: Seq<PairView>, key: Seq<char>)
    requires
        names_unique(ps),
    ensures
        pair_index(spec_remove_pairs(ps, key), key) < 0,
        pair_index(ps, key) < 0 ==> spec_remove_pairs(ps, key) == ps,
        pair_index(ps, key) >= 0 ==> ({
            let i = pair_index(ps, key);
            let r = spec_remove_pairs(ps, key);
            &&& r.len() == ps.len() - 1
            &&& forall|j: int|
                0 <= j < r.len() ==> #[trigger] r[j].key == (if j < i {
                    ps[j]
                } else {
                    ps[j + 1]
                }).key && r[j].value == (if j < i {
                    ps[j]
                } else {
                    ps[j + 1]
                }).value
        }),
{
    lemma_pair_index(ps, key);
    let i = pair_index(ps, key);
    let r = spec_remove_pairs(ps, key);
    if i >= 0 {
        let rest = ps.remove(i);
        assert forall|j: int| 0 <= j < r.len() implies #[trigger] r[j].key == (if j < i {
            ps[j]
        } else {
            ps[j + 1]
        }).key && r[j].value == (if j < i {
            ps[j]
        } else {
            ps[j + 1]
        }).value by {
            assert(r[j].key == rest[j].key);
        }
        lemma_pair_index(r, key);
        if pair_index(r, key) >= 0 {
            let m = pair_index(r, key);
            if m < i {
                assert(r[m].key == ps[m].key);
            } else {
                assert(r[m].key == ps[m + 1].key);
                assert(key_name(ps[i].key) == key_name(ps[m + 1].key));
            }
        }
    }
}

/// Storing an API key never changes an OAuth entry.
pub proof fn law_set_auth_keeps_oauth(auth: ObjView, pid: Seq<char>, key: Option<Seq<char>>, k: Seq<char>)
    requires
        spec_auth_type(auth, k) == Some("oauth"@),
    ensures
        vget(spec_set_auth_api_key(auth, pid, key), k) == vget(auth, k),
{
    reveal_strlit("oauth");
    reveal_strlit("api_key");
    match crate::text::trimmed_nonempty(key) {
        Some(v) => lemma_vinsert(auth, pid, crate::pi_config::api_key_entry(v)),
        None => lemma_vremove(auth, pid),
    }
}

/// Removing an API key never changes an OAuth entry, and removes nothing
/// but an `api_key` entry.
pub proof fn law_remove_auth_keeps_oauth(auth: ObjView, pid: Seq<char>, k: Seq<char>)
    ensures
        spec_auth_type(auth, k) != Some("api_key"@) ==> vget(spec_remove_auth_api_key(auth, pid), k)
            == vget(auth, k),
{
    lemma_vremove(auth, pid);
}

/// The diagnostic view holds no OAuth credential: every OAuth entry is
/// replaced by its redacted form, every other entry is kept.
pub proof fn law_redaction_hides_oauth(auth: ObjView)
    ensures
        spec_redact(auth).len() == auth.len(),
        forall|i: int|
            0 <= i < auth.len() ==> (#[trigger] spec_redact(auth)[i]).0 == auth[i].0 && if vstr(
                vfield(auth[i].1, "type"@),
            ) == Some("oauth"@) {
                spec_redact(auth)[i].1 == redacted_oauth()
            } else {
                spec_redact(auth)[i].1 == auth[i].1
            },
{
}

/// The takeover backup holds API keys only: every id in it has an
/// `api_key` entry in `auth.json`.
pub proof fn law_snapshot_keys_are_api_keys(auth: ObjView, k: Seq<char>)
    ensures
        vget(spec_auth_api_keys(auth), k) is Some ==> exists|i: int|
            0 <= i < auth.len() && (#[trigger] auth[i]).0 == k && vstr(vfield(auth[i].1, "type"@))
                == Some("api_key"@),
    decreases auth.len(),
{
    if auth.len() > 0 {
        let prev = spec_auth_api_keys(auth.drop_last());
        law_snapshot_keys_are_api_keys(auth.drop_last(), k);
        let (id, e) = auth.last();
        if vstr(vfield(e, "type"@)) == Some("api_key"@) {
            match vstr(vfield(e, "key"@)) {
                Some(key) => lemma_vinsert(prev, id, JsonView::Str(key)),
                None => {},
            }
        }
        if vget(spec_auth_api_keys(auth), k) is Some {
            if k == id && vstr(vfield(e, "type"@)) == Some("api_key"@) {
                assert(auth[auth.len() - 1] == auth.last());
            } else {
                let i = choose|i: int|
                    0 <= i < auth.drop_last().len() && (#[trigger] auth.drop_last()[i]).0 == k && vstr(
                        vfield(auth.drop_last()[i].1, "type"@),
                    ) == Some("api_key"@);
                assert(auth[i] == auth.drop_last()[i]);
            }
        }
    }
}


/// Selecting a provider writes `defaultProvider` and `defaultModel` (the
/// latter removed when there is no model) and keeps every other setting.
pub proof fn law_selection_keeps_other_settings(
    settings: ObjView,
    pid: Seq<char>,
    model: Option<Seq<char>>,
    k: Seq<char>,
)
    ensures
        vget(spec_write_selection(settings, pid, model), "defaultProvider"@) == Some(
            JsonView::Str(pid),
        ),
        vget(spec_write_selection(settings, pid, model), "defaultModel"@) == ostr(model),
        k != "defaultProvider"@ && k != "defaultModel"@ ==> vget(
            spec_write_selection(settings, pid, model),
            k,
        ) == vget(settings, k),
{
    let s1 = vinsert(settings, "defaultProvider"@, JsonView::Str(pid));
    lemma_vinsert(settings, "defaultProvider"@, JsonView::Str(pid));
    lemma_vset(s1, "defaultModel"@, ostr(model));
    reveal_strlit("defaultProvider");
    reveal_strlit("defaultModel");
    assert("defaultProvider"@.len() != "defaultModel"@.len());
}

} // verus!
