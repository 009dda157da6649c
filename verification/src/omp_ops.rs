//! Omp provider operations on the in-memory `providers:` mapping of
//! `models.yml` and the `modelRoles` mapping of `config.yml`, plus the proxy
//! takeover markers.
//!
//! Reading and writing the two files (and the YAML text of a section) is the
//! caller's part; what every operation does to the two mappings, and when it
//! refuses, is stated here.
use vstd::prelude::*;
use crate::error::AppError;
use crate::json::{
    jview, jview_entries, lemma_jview_entries, lemma_vinsert, lemma_vremove, obj_get, obj_insert,
    obj_remove, vfield, vget, vinsert, vobj, vremove, vstr, JsonValue, JsonView, ObjView,
};
use crate::omp_config::{
    assert_omp_compatible, get_str, is_managed_provider, is_provider_entry, base_obj,
    provider_from_entry, provider_to_entry, rview, role_get, role_set, selector,
    set_role_selector, spec_is_managed_provider, spec_provider_from_entry, valid_provider_key,
    valid_role, validate_provider_key, validate_role, OmpProviderConfig, OmpProviderConfigView,
    MIN_OMP_VERSION,
};
use crate::text::{
    chars_of, opt_view, range_starts_with, str_eq, str_starts_with, string_from, to_string, trim,
    trim_str, trimmed_nonempty, trimmed_opt,
};
use crate::version::spec_known_older;

verus! {

/// An optional borrowed string as an optional sequence of characters.
pub open spec fn dview(d: Option<&str>) -> Option<Seq<char>> {
    match d {
        Some(s) => Some(s@),
        None => None,
    }
}

/// The model used in a role selector: `defaultModelId` when not blank, else
/// the first model's id, both trimmed; nothing when both are blank.
pub open spec fn spec_default_model_id(c: OmpProviderConfigView) -> Option<Seq<char>> {
    match trimmed_nonempty(c.default_model_id) {
        Some(d) => Some(d),
        None => if c.models.len() > 0 && trim(c.models[0].id).len() > 0 {
            Some(trim(c.models[0].id))
        } else {
            None
        },
    }
}

/// The model id that a role selector for `config` points at.
pub fn resolve_default_model_id(config: &OmpProviderConfig) -> (r: Option<String>)
    ensures
        opt_view(r) == spec_default_model_id(config@),
{
    match trimmed_opt(&config.default_model_id) {
        Some(d) => Some(d),
        None => {
            if config.models.len() == 0 {
                return None;
            }
            assert(config@.models[0] == config.models@[0]@);
            let t = trim_str(config.models[0].id.as_str());
            if t.as_str().is_empty() {
                None
            } else {
                Some(t)
            }
        },
    }
}

// ============================================================================
// Reading providers
// ============================================================================

/// Where a live entry comes from: `managed` when stamped so, `oauth` when
/// omp holds an OAuth credential for it, `user` otherwise.
pub open spec fn spec_source(entry: JsonView, has_oauth: bool) -> Seq<char> {
    if spec_is_managed_provider(entry) {
        "managed"@
    } else if has_oauth {
        "oauth"@
    } else {
        "user"@
    }
}

/// The providers reported from a live `providers:` mapping: every entry that
/// is an object, in order, read with its source; `oauth` holds the keys that
/// have an OAuth credential.
pub open spec fn spec_get_providers(p: ObjView, oauth: Seq<Seq<char>>) -> Seq<
    (Seq<char>, OmpProviderConfigView),
>
    decreases p.len(),
{
    if p.len() == 0 {
        seq![]
    } else {
        let prev = spec_get_providers(p.drop_last(), oauth);
        let (id, e) = p.last();
        if e is Object {
            prev.push((id, spec_provider_from_entry(e, spec_source(e, oauth.contains(id)))))
        } else {
            prev
        }
    }
}

pub open spec fn strings_view(v: Seq<String>) -> Seq<Seq<char>> {
    v.map_values(|s: String| s@)
}

pub open spec fn providers_view(v: Seq<(String, OmpProviderConfig)>) -> Seq<
    (Seq<char>, OmpProviderConfigView),
> {
    v.map_values(|p: (String, OmpProviderConfig)| (p.0@, p.1@))
}

/// Whether `s` is one of `v`.
pub fn contains_str(v: &Vec<String>, s: &str) -> (b: bool)
    ensures
        b == strings_view(v@).contains(s@),
{
    let mut i: usize = 0;
    while i < v.len()
        invariant
            0 <= i <= v.len(),
            forall|j: int| 0 <= j < i ==> v@[j]@ != s@,
        decreases v.len() - i,
    {
        if str_eq(v[i].as_str(), s) {
            assert(strings_view(v@)[i as int] == s@);
            return true;
        }
        i = i + 1;
    }
    proof {
        if strings_view(v@).contains(s@) {
            let j = choose|j: int| 0 <= j < strings_view(v@).len() && strings_view(v@)[j] == s@;
            assert(v@[j]@ == s@);
        }
    }
    false
}

/// The source of a live entry.
pub fn classify_source(entry: &JsonValue, has_oauth: bool) -> (r: &'static str)
    ensures
        r@ == spec_source(jview(*entry), has_oauth),
{
    if is_managed_provider(entry) {
        "managed"
    } else if has_oauth {
        "oauth"
    } else {
        "user"
    }
}

/// All providers of a live `providers:` mapping, read as fragments and
/// marked with their source. `oauth_ids` holds the keys for which omp's
/// credential store has an OAuth credential. Entries that are not objects
/// are skipped.
pub fn get_providers(providers: &Vec<(String, JsonValue)>, oauth_ids: &Vec<String>) -> (r: Vec<
    (String, OmpProviderConfig),
>)
    ensures
        providers_view(r@) == spec_get_providers(jview_entries(providers@), strings_view(oauth_ids@)),
{
    let ghost p = jview_entries(providers@);
    let ghost oauth = strings_view(oauth_ids@);
    proof {
        lemma_jview_entries(providers@);
    }
    let mut out: Vec<(String, OmpProviderConfig)> = Vec::new();
    let mut i: usize = 0;
    while i < providers.len()
        invariant
            0 <= i <= providers.len(),
            p == jview_entries(providers@),
            oauth == strings_view(oauth_ids@),
            p.len() == providers.len(),
            forall|j: int|
                0 <= j < providers.len() ==> #[trigger] p[j] == (providers@[j].0@, jview(
                    providers@[j].1,
                )),
            providers_view(out@) == spec_get_providers(p.subrange(0, i as int), oauth),
        decreases providers.len() - i,
    {
        let ghost prev = out@;
        proof {
            let t = p.subrange(0, i + 1);
            assert(t.drop_last() =~= p.subrange(0, i as int));
            assert(t.last() == p[i as int]);
        }
        let entry = &providers[i].1;
        if entry.is_object() {
            let has_oauth = contains_str(oauth_ids, providers[i].0.as_str());
            let source = classify_source(entry, has_oauth);
            let config = provider_from_entry(entry, source);
            out.push((providers[i].0.clone(), config));
            assert(providers_view(out@) =~= providers_view(prev).push(
                (providers@[i as int].0@, out@.last().1@),
            ));
        }
        i = i + 1;
    }
    assert(p.subrange(0, providers.len() as int) =~= p);
    out
}

// ============================================================================
// Proxy takeover markers
// ============================================================================

/// An entry is taken over when its `apiKey` is exactly the placeholder; a
/// local `baseUrl` alone never counts.
pub open spec fn spec_entry_has_markers(entry: JsonView, placeholder: Seq<char>) -> bool {
    vstr(vfield(entry, "apiKey"@)) == Some(placeholder)
}

/// Whether a provider entry carries the takeover placeholder as `apiKey`.
pub fn entry_has_takeover_markers(entry: &JsonValue, placeholder: &str) -> (r: bool)
    ensures
        r == spec_entry_has_markers(jview(*entry), placeholder@),
{
    match get_str(entry, "apiKey") {
        Some(k) => str_eq(k.as_str(), placeholder),
        None => false,
    }
}

/// The hosts that count as the local machine.
pub open spec fn loopback_host_prefix(rest: Seq<char>) -> bool {
    ||| crate::text::starts_with(rest, "127.0.0.1"@)
    ||| crate::text::starts_with(rest, "localhost"@)
    ||| crate::text::starts_with(rest, "0.0.0.0"@)
    ||| crate::text::starts_with(rest, "[::1]"@)
    ||| crate::text::starts_with(rest, "[::]"@)
    ||| crate::text::starts_with(rest, "::1"@)
    ||| crate::text::starts_with(rest, "::"@)
}

/// A trimmed `http://` URL whose host part starts like a loopback address.
pub open spec fn spec_is_loopback_url(url: Seq<char>) -> bool {
    let u = trim(url);
    crate::text::starts_with(u, "http://"@) && loopback_host_prefix(
        u.subrange("http://"@.len() as int, u.len() as int),
    )
}

/// Whether `url` is a plain-HTTP URL of the local machine.
pub fn is_loopback_url(url: &str) -> (r: bool)
    ensures
        r == spec_is_loopback_url(url@),
{
    let t = trim_str(url);
    let v = chars_of(t.as_str());
    let p = chars_of("http://");
    assert(v@.subrange(0, v@.len() as int) =~= v@);
    if !range_starts_with(&v, 0, v.len(), &p) {
        return false;
    }
    let rest = string_from(&v, p.len(), v.len());
    let r = str_starts_with(rest.as_str(), "127.0.0.1") || str_starts_with(rest.as_str(), "localhost")
        || str_starts_with(rest.as_str(), "0.0.0.0") || str_starts_with(rest.as_str(), "[::1]")
        || str_starts_with(rest.as_str(), "[::]") || str_starts_with(rest.as_str(), "::1")
        || str_starts_with(rest.as_str(), "::");
    r
}

/// Some entry of the mapping carries the placeholder.
pub open spec fn spec_providers_have_markers(p: ObjView, placeholder: Seq<char>) -> bool {
    exists|i: int| 0 <= i < p.len() && spec_entry_has_markers(#[trigger] p[i].1, placeholder)
}

/// Whether any entry of a `providers:` mapping is taken over.
pub fn providers_have_takeover_markers(providers: &Vec<(String, JsonValue)>, placeholder: &str) -> (r:
    bool)
    ensures
        r == spec_providers_have_markers(jview_entries(providers@), placeholder@),
{
    let ghost p = jview_entries(providers@);
    proof {
        lemma_jview_entries(providers@);
    }
    let mut i: usize = 0;
    while i < providers.len()
        invariant
            0 <= i <= providers.len(),
            p == jview_entries(providers@),
            p.len() == providers.len(),
            forall|j: int|
                0 <= j < providers.len() ==> #[trigger] p[j] == (providers@[j].0@, jview(
                    providers@[j].1,
                )),
            forall|j: int| 0 <= j < i ==> !spec_entry_has_markers(#[trigger] p[j].1, placeholder@),
        decreases providers.len() - i,
    {
        if entry_has_takeover_markers(&providers[i].1, placeholder) {
            assert(spec_entry_has_markers(p[i as int].1, placeholder@));
            return true;
        }
        i = i + 1;
    }
    false
}

/// Markers of a value that is either a live snapshot (with `modelsSource`,
/// whose parsed `providers:` mapping is `source_providers`) or a bare
/// provider fragment: a snapshot is taken over when its source is a string
/// and some entry of it is; a fragment when its own `apiKey` is the
/// placeholder.
pub open spec fn spec_has_takeover_markers(
    value: JsonView,
    placeholder: Seq<char>,
    source_providers: ObjView,
) -> bool {
    match vfield(value, "modelsSource"@) {
        Some(s) => s is Str && spec_providers_have_markers(source_providers, placeholder),
        None => spec_entry_has_markers(value, placeholder),
    }
}

/// Whether a snapshot or a provider fragment carries takeover markers.
/// `source_providers` is the `providers:` mapping parsed from the snapshot's
/// `modelsSource` (empty where it does not parse).
pub fn has_takeover_markers(
    value: &JsonValue,
    placeholder: &str,
    source_providers: &Vec<(String, JsonValue)>,
) -> (r: bool)
    ensures
        r == spec_has_takeover_markers(
            jview(*value),
            placeholder@,
            jview_entries(source_providers@),
        ),
{
    match value.get("modelsSource") {
        Some(s) => match s.as_str() {
            Some(_) => providers_have_takeover_markers(source_providers, placeholder),
            None => false,
        },
        None => entry_has_takeover_markers(value, placeholder),
    }
}

/// An entry without its takeover markers: the placeholder `apiKey` removed,
/// and the `baseUrl` too when it is a loopback URL. Nothing when the entry
/// carries no marker.
pub open spec fn spec_strip_markers(entry: JsonView, placeholder: Seq<char>) -> Option<ObjView> {
    if !spec_entry_has_markers(entry, placeholder) {
        None
    } else {
        let o = vremove(vobj(entry), "apiKey"@);
        match vstr(vget(o, "baseUrl"@)) {
            Some(u) => if spec_is_loopback_url(u) {
                Some(vremove(o, "baseUrl"@))
            } else {
                Some(o)
            },
            None => Some(o),
        }
    }
}

/// Strips the takeover markers of an entry (see [`spec_strip_markers`]).
pub fn strip_takeover_markers(entry: &JsonValue, placeholder: &str) -> (r: Option<
    Vec<(String, JsonValue)>,
>)
    ensures
        match r {
            Some(o) => spec_strip_markers(jview(*entry), placeholder@) == Some(jview_entries(o@)),
            None => spec_strip_markers(jview(*entry), placeholder@) is None,
        },
{
    if !entry_has_takeover_markers(entry, placeholder) {
        return None;
    }
    let mut stripped = match entry.as_object() {
        Some(o) => crate::json::clone_entries(o),
        None => Vec::new(),
    };
    obj_remove(&mut stripped, "apiKey");
    let loopback = match obj_get(&stripped, "baseUrl") {
        Some(v) => match v.as_str() {
            Some(u) => is_loopback_url(u.as_str()),
            None => false,
        },
        None => false,
    };
    if loopback {
        obj_remove(&mut stripped, "baseUrl");
    }
    Some(stripped)
}


// ============================================================================
// Provider operations
// ============================================================================

/// `after` is `before` with `providers.<id>` rebuilt from `c` over the
/// previous entry (same position when present, appended otherwise).
pub open spec fn upserted(before: ObjView, after: ObjView, id: Seq<char>, c: OmpProviderConfigView) -> bool {
    &&& vget(after, id) is Some
    &&& after == vinsert(before, id, vget(after, id).unwrap())
    &&& is_provider_entry(vget(after, id).unwrap(), c, base_obj(vget(before, id)))
}

/// The compatibility gate and the key check pass.
pub open spec fn omp_key_guard(detected: Option<Seq<char>>, id: Seq<char>) -> bool {
    !spec_known_older(detected, MIN_OMP_VERSION@) && valid_provider_key(id)
}

fn upsert_entry(providers: &mut Vec<(String, JsonValue)>, id: &str, config: &OmpProviderConfig)
    ensures
        upserted(jview_entries(old(providers)@), jview_entries(final(providers)@), id@, config@),
{
    let ghost before = jview_entries(providers@);
    let entry = provider_to_entry(config, obj_get(providers, id));
    let ghost e = jview(entry);
    obj_insert(providers, to_string(id), entry);
    proof {
        lemma_vinsert(before, id@, e);
    }
}

/// Upserts `providers.<id>` from `config` (no role changes). Refused, with
/// nothing changed, when the installed omp is too old or the key is invalid.
pub fn set_provider(
    providers: &mut Vec<(String, JsonValue)>,
    id: &str,
    config: &OmpProviderConfig,
    detected: Option<&str>,
) -> (r: Result<(), AppError>)
    ensures
        spec_known_older(dview(detected), MIN_OMP_VERSION@) ==> r matches Err(
            AppError::OmpIncompatibleVersion(_),
        ),
        !spec_known_older(dview(detected), MIN_OMP_VERSION@) && !valid_provider_key(id@) ==> r matches Err(
            AppError::OmpInvalidKey(_),
        ),
        r is Err ==> final(providers)@ == old(providers)@,
        omp_key_guard(dview(detected), id@) ==> r is Ok && upserted(
            jview_entries(old(providers)@),
            jview_entries(final(providers)@),
            id@,
            config@,
        ),
{
    assert_omp_compatible(detected)?;
    validate_provider_key(id)?;
    upsert_entry(providers, id, config);
    Ok(())
}

/// Roles after pointing `role` at `sel`, unchanged when it already does.
pub open spec fn roles_after_select(r: crate::omp_config::RolesView, role: Seq<char>, sel: Seq<char>) -> crate::omp_config::RolesView {
    if vstr(role_get(r, role)) == Some(sel) {
        r
    } else {
        role_set(r, role, sel)
    }
}

/// Upserts `providers.<id>` and points `role` at `<id>/<default model>`.
/// The provider is written even when it has no model; the role selection is
/// then refused with [`AppError::OmpNoModels`].
pub fn upsert_and_select(
    providers: &mut Vec<(String, JsonValue)>,
    roles: &mut Vec<(JsonValue, JsonValue)>,
    id: &str,
    config: &OmpProviderConfig,
    role: &str,
    detected: Option<&str>,
) -> (r: Result<(), AppError>)
    ensures
        spec_known_older(dview(detected), MIN_OMP_VERSION@) ==> r matches Err(
            AppError::OmpIncompatibleVersion(_),
        ),
        !spec_known_older(dview(detected), MIN_OMP_VERSION@) && !valid_provider_key(id@) ==> r matches Err(
            AppError::OmpInvalidKey(_),
        ),
        omp_key_guard(dview(detected), id@) && !valid_role(role@) ==> r matches Err(
            AppError::OmpInvalidRole(_),
        ),
        !(omp_key_guard(dview(detected), id@) && valid_role(role@)) ==> final(providers)@ == old(providers)@ && final(roles)@ == old(roles)@,
        omp_key_guard(dview(detected), id@) && valid_role(role@) ==> {
            &&& upserted(
                jview_entries(old(providers)@),
                jview_entries(final(providers)@),
                id@,
                config@,
            )
            &&& match spec_default_model_id(config@) {
                Some(m) => r is Ok && rview(final(roles)@) == roles_after_select(
                    rview(old(roles)@),
                    role@,
                    selector(id@, m),
                ),
                None => r matches Err(AppError::OmpNoModels(k)) && k@ == id@ && final(roles)@
                    == old(roles)@,
            }
        },
{
    assert_omp_compatible(detected)?;
    validate_provider_key(id)?;
    validate_role(role)?;
    let default_model = resolve_default_model_id(config);
    upsert_entry(providers, id, config);
    match default_model {
        Some(m) => {
            set_role_selector(roles, role, id, m.as_str());
            Ok(())
        },
        None => Err(AppError::OmpNoModels(to_string(id))),
    }
}

/// The first model id of a live entry, trimmed, when not blank.
pub open spec fn spec_first_model_id(entry: JsonView) -> Option<Seq<char>> {
    match crate::json::varr(vfield(entry, "models"@)) {
        Some(a) => if a.len() > 0 {
            trimmed_nonempty(vstr(vfield(a[0], "id"@)))
        } else {
            None
        },
        None => None,
    }
}

fn first_model_id(entry: &JsonValue) -> (r: Option<String>)
    ensures
        opt_view(r) == spec_first_model_id(jview(*entry)),
{
    let models = match entry.get("models") {
        Some(v) => match v.as_array() {
            Some(a) => a,
            None => {
                return None;
            },
        },
        None => {
            return None;
        },
    };
    if models.len() == 0 {
        return None;
    }
    proof {
        crate::json::lemma_jview_seq(models@);
    }
    let id = get_str(&models[0], "id");
    trimmed_opt(&id)
}

/// Points `role` at `<provider_id>/<first model>` of the live entry.
pub fn set_model_role(
    providers: &Vec<(String, JsonValue)>,
    roles: &mut Vec<(JsonValue, JsonValue)>,
    role: &str,
    provider_id: &str,
    detected: Option<&str>,
) -> (r: Result<(), AppError>)
    ensures
        spec_known_older(dview(detected), MIN_OMP_VERSION@) ==> r matches Err(
            AppError::OmpIncompatibleVersion(_),
        ),
        !spec_known_older(dview(detected), MIN_OMP_VERSION@) && !valid_role(role@) ==> r matches Err(
            AppError::OmpInvalidRole(_),
        ),
        !spec_known_older(dview(detected), MIN_OMP_VERSION@) && valid_role(role@)
            && !valid_provider_key(provider_id@) ==> r matches Err(AppError::OmpInvalidKey(_)),
        r is Err ==> final(roles)@ == old(roles)@,
        omp_key_guard(dview(detected), provider_id@) && valid_role(role@) ==> match vget(
            jview_entries(providers@),
            provider_id@,
        ) {
            None => r matches Err(AppError::OmpProviderNotFound(k)) && k@ == provider_id@,
            Some(e) => match spec_first_model_id(e) {
                None => r matches Err(AppError::OmpNoModels(k)) && k@ == provider_id@,
                Some(m) => r is Ok && rview(final(roles)@) == roles_after_select(
                    rview(old(roles)@),
                    role@,
                    selector(provider_id@, m),
                ),
            },
        },
{
    assert_omp_compatible(detected)?;
    validate_role(role)?;
    validate_provider_key(provider_id)?;
    let entry = match obj_get(providers, provider_id) {
        Some(e) => e,
        None => {
            return Err(AppError::OmpProviderNotFound(to_string(provider_id)));
        },
    };
    match first_model_id(entry) {
        Some(m) => {
            set_role_selector(roles, role, provider_id, m.as_str());
            Ok(())
        },
        None => Err(AppError::OmpNoModels(to_string(provider_id))),
    }
}

/// Clears `modelRoles.<role>` (`Mapping::remove`), after the compatibility
/// gate and the role check.
pub fn clear_model_role(
    roles: &mut Vec<(JsonValue, JsonValue)>,
    role: &str,
    detected: Option<&str>,
) -> (r: Result<(), AppError>)
    ensures
        spec_known_older(dview(detected), MIN_OMP_VERSION@) ==> r matches Err(
            AppError::OmpIncompatibleVersion(_),
        ),
        r is Err ==> final(roles)@ == old(roles)@,
        !spec_known_older(dview(detected), MIN_OMP_VERSION@) && !valid_role(role@) ==> (r matches Err(
            AppError::OmpInvalidRole(k),
        ) && k@ == role@),
        !spec_known_older(dview(detected), MIN_OMP_VERSION@) && valid_role(role@) ==> r is Ok && rview(
            final(roles)@,
        ) == if crate::omp_config::role_index(rview(old(roles)@), role@) >= 0 {
            crate::omp_config::swap_remove(
                rview(old(roles)@),
                crate::omp_config::role_index(rview(old(roles)@), role@),
            )
        } else {
            rview(old(roles)@)
        },
{
    assert_omp_compatible(detected)?;
    validate_role(role)?;
    crate::omp_config::clear_role(roles, role);
    Ok(())
}

/// Removes `providers.<id>` and every role whose selector starts with
/// `<id>/`. Entries with other keys are never touched.
pub fn remove_provider(
    providers: &mut Vec<(String, JsonValue)>,
    roles: &mut Vec<(JsonValue, JsonValue)>,
    id: &str,
    detected: Option<&str>,
) -> (r: Result<(), AppError>)
    ensures
        spec_known_older(dview(detected), MIN_OMP_VERSION@) ==> r matches Err(
            AppError::OmpIncompatibleVersion(_),
        ),
        !spec_known_older(dview(detected), MIN_OMP_VERSION@) && !valid_provider_key(id@) ==> r matches Err(
            AppError::OmpInvalidKey(_),
        ),
        r is Err ==> final(providers)@ == old(providers)@ && final(roles)@ == old(roles)@,
        omp_key_guard(dview(detected), id@) ==> {
            &&& r is Ok
            &&& jview_entries(final(providers)@) == vremove(jview_entries(old(providers)@), id@)
            &&& rview(final(roles)@) == crate::omp_config::remove_keys(
                rview(old(roles)@),
                crate::omp_config::stale_keys(rview(old(roles)@), id@.push('/')),
            )
        },
{
    assert_omp_compatible(detected)?;
    validate_provider_key(id)?;
    obj_remove(providers, id);
    crate::omp_config::strip_roles_for_provider(roles, id);
    Ok(())
}


// ============================================================================
// Proxy takeover
// ============================================================================

/// A taken-over entry: the provider entry for `c` over `base`, with
/// `baseUrl` pointing at the proxy and the placeholder as `apiKey`.
pub open spec fn is_takeover_entry(
    e: JsonView,
    c: OmpProviderConfigView,
    base: ObjView,
    url: Seq<char>,
    placeholder: Seq<char>,
) -> bool {
    exists|e0: JsonView|
        #![trigger is_provider_entry(e0, c, base)]
        is_provider_entry(e0, c, base) && e == JsonView::Object(
            vinsert(
                vinsert(vobj(e0), "baseUrl"@, JsonView::Str(url)),
                "apiKey"@,
                JsonView::Str(placeholder),
            ),
        )
}

/// Takes `id` over for the proxy: its entry is rebuilt from `config` with
/// `baseUrl` set to `proxy_base_url` and `apiKey` set to the placeholder.
/// Roles are not touched; the provider previously selected by the `default`
/// role is returned.
pub fn apply_takeover_and_select(
    providers: &mut Vec<(String, JsonValue)>,
    roles: &Vec<(JsonValue, JsonValue)>,
    id: &str,
    config: &OmpProviderConfig,
    proxy_base_url: &str,
    placeholder: &str,
    detected: Option<&str>,
) -> (r: Result<Option<String>, AppError>)
    ensures
        spec_known_older(dview(detected), MIN_OMP_VERSION@) ==> r matches Err(
            AppError::OmpIncompatibleVersion(_),
        ),
        !spec_known_older(dview(detected), MIN_OMP_VERSION@) && !valid_provider_key(id@) ==> r matches Err(
            AppError::OmpInvalidKey(_),
        ),
        r is Err ==> final(providers)@ == old(providers)@,
        omp_key_guard(dview(detected), id@) ==> {
            let before = jview_entries(old(providers)@);
            let after = jview_entries(final(providers)@);
            &&& r matches Ok(prev) && opt_view(prev) == match vstr(
                role_get(rview(roles@), "default"@),
            ) {
                Some(sel) => crate::omp_config::selector_provider(sel),
                None => None,
            }
            &&& vget(after, id@) is Some
            &&& after == vinsert(before, id@, vget(after, id@).unwrap())
            &&& is_takeover_entry(
                vget(after, id@).unwrap(),
                config@,
                base_obj(vget(before, id@)),
                proxy_base_url@,
                placeholder@,
            )
        },
{
    assert_omp_compatible(detected)?;
    validate_provider_key(id)?;
    let previous = crate::omp_config::get_default_role_provider_id(roles);
    let ghost before = jview_entries(providers@);
    let entry = provider_to_entry(config, obj_get(providers, id));
    let ghost e0 = jview(entry);
    let taken = match entry {
        JsonValue::Object(mut o) => {
            obj_insert(&mut o, to_string("baseUrl"), JsonValue::Str(to_string(proxy_base_url)));
            obj_insert(&mut o, to_string("apiKey"), JsonValue::Str(to_string(placeholder)));
            JsonValue::Object(o)
        },
        other => other,
    };
    let ghost e = jview(taken);
    assert(is_provider_entry(e0, config@, base_obj(vget(before, id@))));
    obj_insert(providers, to_string(id), taken);
    proof {
        lemma_vinsert(before, id@, e);
    }
    Ok(previous)
}

/// Reverts a taken-over entry: when `providers.<id>` carries the markers it
/// is rebuilt from `config` over the entry with its markers stripped;
/// otherwise nothing changes.
pub fn revert_provider_takeover(
    providers: &mut Vec<(String, JsonValue)>,
    id: &str,
    config: &OmpProviderConfig,
    placeholder: &str,
    detected: Option<&str>,
) -> (r: Result<(), AppError>)
    ensures
        spec_known_older(dview(detected), MIN_OMP_VERSION@) ==> r matches Err(
            AppError::OmpIncompatibleVersion(_),
        ),
        !spec_known_older(dview(detected), MIN_OMP_VERSION@) && !valid_provider_key(id@) ==> r matches Err(
            AppError::OmpInvalidKey(_),
        ),
        r is Err ==> final(providers)@ == old(providers)@,
        omp_key_guard(dview(detected), id@) ==> r is Ok && {
            let before = jview_entries(old(providers)@);
            let after = jview_entries(final(providers)@);
            match vget(before, id@) {
                Some(ex) => match spec_strip_markers(ex, placeholder@) {
                    Some(stripped) => {
                        &&& vget(after, id@) is Some
                        &&& after == vinsert(before, id@, vget(after, id@).unwrap())
                        &&& is_provider_entry(vget(after, id@).unwrap(), config@, stripped)
                    },
                    None => after == before,
                },
                None => after == before,
            }
        },
{
    assert_omp_compatible(detected)?;
    validate_provider_key(id)?;
    let ghost before = jview_entries(providers@);
    let stripped = match obj_get(providers, id) {
        Some(existing) => match strip_takeover_markers(existing, placeholder) {
            Some(s) => s,
            None => {
                return Ok(());
            },
        },
        None => {
            return Ok(());
        },
    };
    let base = JsonValue::Object(stripped);
    let entry = provider_to_entry(config, Some(&base));
    let ghost e = jview(entry);
    obj_insert(providers, to_string(id), entry);
    proof {
        lemma_vinsert(before, id@, e);
    }
    Ok(())
}

/// Strips the takeover markers of `providers.<id>` without rebuilding it
/// (a provider not managed here); nothing changes when it carries none.
pub fn remove_provider_takeover_markers(
    providers: &mut Vec<(String, JsonValue)>,
    id: &str,
    placeholder: &str,
    detected: Option<&str>,
) -> (r: Result<(), AppError>)
    ensures
        spec_known_older(dview(detected), MIN_OMP_VERSION@) <==> r is Err,
        r matches Err(e) ==> e is OmpIncompatibleVersion,
        r is Err ==> final(providers)@ == old(providers)@,
        r is Ok ==> jview_entries(final(providers)@) == match vget(
            jview_entries(old(providers)@),
            id@,
        ) {
            Some(ex) => match spec_strip_markers(ex, placeholder@) {
                Some(stripped) => vinsert(
                    jview_entries(old(providers)@),
                    id@,
                    JsonView::Object(stripped),
                ),
                None => jview_entries(old(providers)@),
            },
            None => jview_entries(old(providers)@),
        },
{
    assert_omp_compatible(detected)?;
    let stripped = match obj_get(providers, id) {
        Some(existing) => match strip_takeover_markers(existing, placeholder) {
            Some(s) => s,
            None => {
                return Ok(());
            },
        },
        None => {
            return Ok(());
        },
    };
    obj_insert(providers, to_string(id), JsonValue::Object(stripped));
    Ok(())
}

/// Every entry with its takeover markers stripped (entries without markers
/// unchanged).
pub open spec fn spec_strip_all(p: ObjView, placeholder: Seq<char>) -> ObjView {
    Seq::new(
        p.len(),
        |i: int|
            match spec_strip_markers(p[i].1, placeholder) {
                Some(o) => (p[i].0, JsonView::Object(o)),
                None => p[i],
            },
    )
}

/// Strips the takeover markers of every entry; returns whether any entry
/// carried them.
pub fn remove_takeover_markers_all(providers: &mut Vec<(String, JsonValue)>, placeholder: &str) -> (changed:
    bool)
    ensures
        changed == spec_providers_have_markers(jview_entries(old(providers)@), placeholder@),
        jview_entries(final(providers)@) == spec_strip_all(
            jview_entries(old(providers)@),
            placeholder@,
        ),
{
    let ghost p0 = jview_entries(providers@);
    proof {
        lemma_jview_entries(providers@);
    }
    let mut changed = false;
    let mut i: usize = 0;
    while i < providers.len()
        invariant
            0 <= i <= providers.len(),
            p0.len() == providers.len(),
            forall|j: int|
                0 <= j < i ==> (#[trigger] providers@[j].0@, jview(providers@[j].1)) == spec_strip_all(
                    p0,
                    placeholder@,
                )[j],
            forall|j: int|
                i <= j < providers.len() ==> (#[trigger] providers@[j].0@, jview(providers@[j].1))
                    == p0[j],
            changed == exists|j: int|
                0 <= j < i && spec_entry_has_markers(#[trigger] p0[j].1, placeholder@),
        decreases providers.len() - i,
    {
        let ghost cur = p0[i as int];
        let ghost prev = providers@;
        assert((providers@[i as int].0@, jview(providers@[i as int].1)) == p0[i as int]);
        match strip_takeover_markers(&providers[i].1, placeholder) {
            Some(o) => {
                let k = providers[i].0.clone();
                providers.set(i, (k, JsonValue::Object(o)));
                changed = true;
            },
            None => {},
        }
        proof {
            assert(spec_entry_has_markers(cur.1, placeholder@) == spec_strip_markers(
                cur.1,
                placeholder@,
            ) is Some);
            assert((providers@[i as int].0@, jview(providers@[i as int].1)) == spec_strip_all(
                p0,
                placeholder@,
            )[i as int]);
            assert forall|j: int| 0 <= j < providers.len() && j != i implies #[trigger] providers@[j]
                == prev[j] by {}
            assert forall|j: int| 0 <= j < i + 1 implies (#[trigger] providers@[j].0@, jview(
                providers@[j].1,
            )) == spec_strip_all(p0, placeholder@)[j] by {
                if j < i {
                    assert(providers@[j] == prev[j]);
                    assert((prev[j].0@, jview(prev[j].1)) == spec_strip_all(p0, placeholder@)[j]);
                }
            }
            assert forall|j: int| i + 1 <= j < providers.len() implies (
            #[trigger] providers@[j].0@, jview(providers@[j].1)) == p0[j] by {
                assert(providers@[j] == prev[j]);
                assert((prev[j].0@, jview(prev[j].1)) == p0[j]);
            }
            if spec_entry_has_markers(cur.1, placeholder@) {
                assert(0 <= i < i + 1 && spec_entry_has_markers(p0[i as int].1, placeholder@));
            } else {
                assert forall|j: int| 0 <= j < i + 1 && spec_entry_has_markers(
                    #[trigger] p0[j].1,
                    placeholder@,
                ) implies j < i by {}
            }
        }
        i = i + 1;
    }
    proof {
        lemma_jview_entries(providers@);
        assert(jview_entries(providers@) =~= spec_strip_all(p0, placeholder@));
    }
    changed
}

/// Patches a snapshot's providers (parsed from its `modelsSource`) with the
/// pristine entry of `id` built from `config`.
pub fn patch_snapshot_provider(
    providers: &mut Vec<(String, JsonValue)>,
    id: &str,
    config: &OmpProviderConfig,
) -> (r: Result<(), AppError>)
    ensures
        !valid_provider_key(id@) ==> (r matches Err(AppError::OmpInvalidKey(k)) && k@ == id@
            && final(providers)@ == old(providers)@),
        valid_provider_key(id@) ==> r is Ok && upserted(
            jview_entries(old(providers)@),
            jview_entries(final(providers)@),
            id@,
            config@,
        ),
{
    validate_provider_key(id)?;
    upsert_entry(providers, id, config);
    Ok(())
}

/// The provider entry referenced by the `default` role, when both the
/// selector and an object entry exist.
pub fn selected_provider_entry(
    roles: &Vec<(JsonValue, JsonValue)>,
    providers: &Vec<(String, JsonValue)>,
) -> (r: Option<(String, JsonValue)>)
    ensures
        match r {
            Some((k, e)) => {
                &&& vstr(role_get(rview(roles@), "default"@)) matches Some(sel)
                &&& crate::omp_config::selector_provider(sel) == Some(k@)
                &&& vget(jview_entries(providers@), k@) == Some(jview(e))
                &&& jview(e) is Object
            },
            None => match vstr(role_get(rview(roles@), "default"@)) {
                Some(sel) => match crate::omp_config::selector_provider(sel) {
                    Some(k) => !(vget(jview_entries(providers@), k) matches Some(e) && e is Object),
                    None => true,
                },
                None => true,
            },
        },
{
    let id = match crate::omp_config::get_default_role_provider_id(roles) {
        Some(id) => id,
        None => {
            return None;
        },
    };
    match obj_get(providers, id.as_str()) {
        Some(e) => {
            if e.is_object() {
                Some((id, crate::json::clone_json(e)))
            } else {
                None
            }
        },
        None => None,
    }
}


// ============================================================================
// Documents: sections and optimistic concurrency
// ============================================================================

/// What to do with a document that was read as `as_read`, is now
/// `current` on disk, and would be written as `next`.
#[derive(Debug, Clone, Copy, PartialEq, Eq, Structural)]
pub enum WriteDecision {
    /// The file changed on disk since it was read: refuse.
    Conflict,
    /// Nothing to write.
    Unchanged,
    /// Write `next`.
    Write,
}

/// A changed file is a conflict; a blank result for a missing file, or a
/// result equal to what is on disk, is not written.
pub open spec fn spec_write_decision(
    as_read: Option<Seq<char>>,
    current: Option<Seq<char>>,
    next: Seq<char>,
) -> WriteDecision {
    if current != as_read {
        WriteDecision::Conflict
    } else if trim(next).len() == 0 && current is None {
        WriteDecision::Unchanged
    } else if current == Some(next) {
        WriteDecision::Unchanged
    } else {
        WriteDecision::Write
    }
}

fn opt_str_eq(a: Option<&str>, b: Option<&str>) -> (r: bool)
    ensures
        r == (dview(a) == dview(b)),
{
    match (a, b) {
        (Some(x), Some(y)) => str_eq(x, y),
        (None, None) => true,
        _ => false,
    }
}

/// The optimistic-concurrency decision for a document write.
pub fn write_decision(as_read: Option<&str>, current: Option<&str>, next: &str) -> (r: WriteDecision)
    ensures
        r == spec_write_decision(dview(as_read), dview(current), next@),
{
    if !opt_str_eq(current, as_read) {
        return WriteDecision::Conflict;
    }
    let t = trim_str(next);
    if t.as_str().is_empty() && current.is_none() {
        return WriteDecision::Unchanged;
    }
    match current {
        Some(c) => if str_eq(c, next) {
            WriteDecision::Unchanged
        } else {
            WriteDecision::Write
        },
        None => WriteDecision::Write,
    }
}

/// The `providers:` mapping of a parsed `providers:` section (`doc` is the
/// section read as a document, nothing when the file has no such section):
/// empty for an absent section, nothing when a present section holds no
/// mapping.
pub open spec fn spec_section_mapping(doc: Option<JsonView>, key: Seq<char>) -> Option<ObjView> {
    match doc {
        Some(d) => match vfield(d, key) {
            Some(JsonView::Object(m)) => Some(m),
            _ => None,
        },
        None => Some(seq![]),
    }
}

/// Reads the `providers:` mapping out of its parsed section: an absent
/// section (a missing or blank file too) gives no providers; a present
/// section that does not hold a mapping of plain data is refused.
pub fn parse_providers_section(doc: Option<&JsonValue>) -> (r: Result<Vec<(String, JsonValue)>, AppError>)
    ensures
        match r {
            Ok(m) => spec_section_mapping(
                match doc {
                    Some(d) => Some(jview(*d)),
                    None => None,
                },
                "providers"@,
            ) == Some(jview_entries(m@)),
            Err(e) => e is OmpModelsInvalid && spec_section_mapping(
                match doc {
                    Some(d) => Some(jview(*d)),
                    None => None,
                },
                "providers"@,
            ) is None,
        },
        doc is None ==> (r matches Ok(m) && m@.len() == 0),
{
    match doc {
        Some(d) => match d.get("providers") {
            Some(v) => match v.as_object() {
                Some(m) => Ok(crate::json::clone_entries(m)),
                None => Err(AppError::OmpModelsInvalid),
            },
            None => Err(AppError::OmpModelsInvalid),
        },
        None => {
            let m: Vec<(String, JsonValue)> = Vec::new();
            proof {
                crate::json::lemma_jview_entries(m@);
                assert(jview_entries(m@) =~= seq![]);
            }
            Ok(m)
        },
    }
}


/// Splices the providers back into `raw`: an empty mapping removes every
/// `providers:` section; otherwise `text`, the serialized `providers:`
/// section, replaces the first one (or is appended).
pub fn splice_providers_section(raw: &str, providers: &Vec<(String, JsonValue)>, text: &str) -> (r: String)
    ensures
        r@ == if providers.len() == 0 {
            crate::yaml_section::spec_remove_all_sections(raw@, "providers"@)
        } else {
            crate::yaml_section::spec_replace_section(raw@, "providers"@, text@)
        },
{
    if providers.len() == 0 {
        crate::yaml_section::remove_all_sections(raw, "providers")
    } else {
        crate::yaml_section::replace_yaml_section(raw, "providers", text)
    }
}

/// Splices the role mapping back into `raw` (`config.yml`), in the same way
/// for the `modelRoles:` section.
pub fn splice_model_roles_section(raw: &str, roles: &Vec<(JsonValue, JsonValue)>, text: &str) -> (r:
    String)
    ensures
        r@ == if roles.len() == 0 {
            crate::yaml_section::spec_remove_all_sections(raw@, "modelRoles"@)
        } else {
            crate::yaml_section::spec_replace_section(raw@, "modelRoles"@, text@)
        },
{
    if roles.len() == 0 {
        crate::yaml_section::remove_all_sections(raw, "modelRoles")
    } else {
        crate::yaml_section::replace_yaml_section(raw, "modelRoles", text)
    }
}

/// The diagnostic view of the live configuration:
/// `{config: <config.yml>, models: <providers mapping>}`.
pub fn read_live_settings(config: JsonValue, models: Vec<(String, JsonValue)>) -> (r: JsonValue)
    ensures
        jview(r) == JsonView::Object(
            seq![("config"@, jview(config)), ("models"@, JsonView::Object(jview_entries(models@)))],
        ),
{
    let mut o: Vec<(String, JsonValue)> = Vec::new();
    o.push((to_string("config"), config));
    o.push((to_string("models"), JsonValue::Object(models)));
    proof {
        lemma_jview_entries(o@);
        assert(jview_entries(o@) =~= seq![
            ("config"@, jview(config)),
            ("models"@, JsonView::Object(jview_entries(models@))),
        ]);
    }
    JsonValue::Object(o)
}

pub open spec fn source_view(s: Option<Seq<char>>) -> JsonView {
    match s {
        Some(t) => JsonView::Str(t),
        None => JsonView::Null,
    }
}

fn source_value(s: Option<String>) -> (r: JsonValue)
    ensures
        jview(r) == source_view(opt_view(s)),
{
    match s {
        Some(t) => JsonValue::Str(t),
        None => JsonValue::Null,
    }
}

/// The takeover backup: the raw text of `models.yml` and `config.yml`
/// (`null` for a missing file).
pub fn read_live_snapshot(models_source: Option<String>, config_source: Option<String>) -> (r:
    JsonValue)
    ensures
        jview(r) == JsonView::Object(
            seq![
                ("modelsSource"@, source_view(opt_view(models_source))),
                ("configSource"@, source_view(opt_view(config_source))),
            ],
        ),
{
    let ghost ms = opt_view(models_source);
    let ghost cs = opt_view(config_source);
    let mut o: Vec<(String, JsonValue)> = Vec::new();
    o.push((to_string("modelsSource"), source_value(models_source)));
    o.push((to_string("configSource"), source_value(config_source)));
    proof {
        lemma_jview_entries(o@);
        assert(jview_entries(o@) =~= seq![
            ("modelsSource"@, source_view(ms)),
            ("configSource"@, source_view(cs)),
        ]);
    }
    JsonValue::Object(o)
}

/// What restoring a takeover backup does: `models.yml` gets `modelsSource`
/// verbatim when the backup has it (a string); otherwise the markers are
/// stripped from the live `models.yml` when it exists. `config.yml` gets
/// `configSource` verbatim when the backup has it.
#[derive(Debug)]
pub struct SnapshotRestore {
    pub models_source: Option<String>,
    pub strip_markers: bool,
    pub config_source: Option<String>,
}

fn str_field_of(v: &JsonValue, k: &str) -> (r: Option<String>)
    ensures
        opt_view(r) == vstr(vfield(jview(*v), k@)),
{
    match v.get(k) {
        Some(JsonValue::Str(s)) => Some(s.clone()),
        _ => None,
    }
}

/// How a takeover backup is restored (see [`SnapshotRestore`]).
pub fn write_live_snapshot(snapshot: &JsonValue) -> (r: SnapshotRestore)
    ensures
        opt_view(r.models_source) == vstr(vfield(jview(*snapshot), "modelsSource"@)),
        r.strip_markers == vstr(vfield(jview(*snapshot), "modelsSource"@)) is None,
        opt_view(r.config_source) == vstr(vfield(jview(*snapshot), "configSource"@)),
{
    let models_source = str_field_of(snapshot, "modelsSource");
    let strip_markers = models_source.is_none();
    SnapshotRestore { models_source, strip_markers, config_source: str_field_of(snapshot, "configSource") }
}


// ============================================================================
// Paths
// ============================================================================

/// The omp agent directory: the configured override, else a non-blank
/// `PI_CODING_AGENT_DIR` (trimmed, `~` expanded), else `<home>/.omp/agent`.
pub open spec fn spec_omp_dir(override_dir: Option<Seq<char>>, env_dir: Option<Seq<char>>, home: Seq<char>) -> Seq<char> {
    match override_dir {
        Some(d) => d,
        None => match trimmed_nonempty(env_dir) {
            Some(e) => crate::pi_config::spec_expand_tilde(e, home),
            None => crate::kimi_config::spec_path_join(
                crate::kimi_config::spec_path_join(home, ".omp"@),
                "agent"@,
            ),
        },
    }
}

/// Resolves the omp agent directory.
pub fn get_omp_dir(override_dir: Option<&str>, env_dir: Option<&str>, home: &str) -> (r: String)
    ensures
        r@ == spec_omp_dir(dview(override_dir), dview(env_dir), home@),
{
    match override_dir {
        Some(d) => to_string(d),
        None => {
            let e = match env_dir {
                Some(s) => Some(to_string(s)),
                None => None,
            };
            match trimmed_opt(&e) {
                Some(t) => crate::pi_config::expand_tilde(t.as_str(), home),
                None => {
                    let p = crate::kimi_config::path_join(home, ".omp");
                    crate::kimi_config::path_join(p.as_str(), "agent")
                },
            }
        },
    }
}

/// `<dir>/models.yml`.
pub fn get_omp_models_path(dir: &str) -> (r: String)
    ensures
        r@ == crate::kimi_config::spec_path_join(dir@, "models.yml"@),
{
    crate::kimi_config::path_join(dir, "models.yml")
}

/// `<dir>/config.yml`.
pub fn get_omp_config_path(dir: &str) -> (r: String)
    ensures
        r@ == crate::kimi_config::spec_path_join(dir@, "config.yml"@),
{
    crate::kimi_config::path_join(dir, "config.yml")
}

/// `<dir>/agent.db` (omp's credential store, only ever read).
pub fn get_omp_auth_db_path(dir: &str) -> (r: String)
    ensures
        r@ == crate::kimi_config::spec_path_join(dir@, "agent.db"@),
{
    crate::kimi_config::path_join(dir, "agent.db")
}

/// `<dir>/skills`.
pub fn get_omp_skills_dir(dir: &str) -> (r: String)
    ensures
        r@ == crate::kimi_config::spec_path_join(dir@, "skills"@),
{
    crate::kimi_config::path_join(dir, "skills")
}

/// `<dir>/sessions`.
pub fn get_omp_sessions_dir(dir: &str) -> (r: String)
    ensures
        r@ == crate::kimi_config::spec_path_join(dir@, "sessions"@),
{
    crate::kimi_config::path_join(dir, "sessions")
}

} // verus!
