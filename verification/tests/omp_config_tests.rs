use cc_switch_agents::error::AppError;
use cc_switch_agents::json::{JsonNumber, JsonValue};
use cc_switch_agents::omp_config::{
    get_default_role_provider_id, get_model_roles, is_managed_provider, provider_from_entry,
    validate_provider_key, validate_role, OmpModel, OmpProviderConfig, OMP_ROLES,
};
use cc_switch_agents::omp_ops::{
    apply_takeover_and_select, get_providers, has_takeover_markers, parse_providers_section,
    patch_snapshot_provider, read_live_settings, read_live_snapshot, remove_provider,
    remove_takeover_markers_all, revert_provider_takeover, selected_provider_entry, set_model_role,
    set_provider, splice_model_roles_section, splice_providers_section, upsert_and_select,
    write_decision, write_live_snapshot, WriteDecision,
};
use cc_switch_agents::version::{extract_omp_version, parse_version};

fn to_jv(v: &serde_json::Value) -> JsonValue {
    match v {
        serde_json::Value::Null => JsonValue::Null,
        serde_json::Value::Bool(b) => JsonValue::Bool(*b),
        serde_json::Value::Number(n) => {
            if let Some(u) = n.as_u64() {
                JsonValue::Number(JsonNumber::PosInt(u))
            } else if let Some(i) = n.as_i64() {
                JsonValue::Number(JsonNumber::NegInt(i))
            } else {
                let f = n.as_f64().unwrap_or(0.0);
                JsonValue::Number(JsonNumber::Float(n.to_string(), f as u64))
            }
        }
        serde_json::Value::String(s) => JsonValue::Str(s.clone()),
        serde_json::Value::Array(a) => JsonValue::Array(a.iter().map(to_jv).collect()),
        serde_json::Value::Object(o) => {
            JsonValue::Object(o.iter().map(|(k, v)| (k.clone(), to_jv(v))).collect())
        }
    }
}

fn from_jv(v: &JsonValue) -> serde_json::Value {
    match v {
        JsonValue::Null => serde_json::Value::Null,
        JsonValue::Bool(b) => serde_json::Value::Bool(*b),
        JsonValue::Number(JsonNumber::PosInt(u)) => serde_json::Value::from(*u),
        JsonValue::Number(JsonNumber::NegInt(i)) => serde_json::Value::from(*i),
        JsonValue::Number(JsonNumber::Float(s, _)) => serde_json::from_str(s).unwrap(),
        JsonValue::Number(JsonNumber::Decimal(s)) => serde_json::from_str(s).unwrap(),
        JsonValue::Str(s) => serde_json::Value::String(s.clone()),
        JsonValue::Array(a) => serde_json::Value::Array(a.iter().map(from_jv).collect()),
        JsonValue::Object(o) => {
            let mut m = serde_json::Map::new();
            for (k, v) in o {
                m.insert(k.clone(), from_jv(v));
            }
            serde_json::Value::Object(m)
        }
    }
}

fn j(text: &str) -> JsonValue {
    to_jv(&serde_json::from_str(text).unwrap())
}

/// The providers of a `models.yml` text, as the app reads them.
fn providers_of(yaml: &str) -> Vec<(String, JsonValue)> {
    let doc: serde_json::Value = serde_yaml::from_str(yaml).unwrap();
    parse_providers_section(Some(&to_jv(&doc))).unwrap()
}

/// The `providers:` section text for a map of entries, as the app writes it.
fn providers_text(providers: &[(String, JsonValue)]) -> String {
    let mut inner = serde_json::Map::new();
    for (k, v) in providers {
        inner.insert(k.clone(), from_jv(v));
    }
    let mut outer = serde_json::Map::new();
    outer.insert("providers".to_string(), serde_json::Value::Object(inner));
    serde_yaml::to_string(&serde_json::Value::Object(outer)).unwrap()
}

fn roles_text(roles: &[(JsonValue, JsonValue)]) -> String {
    let mut inner = serde_json::Map::new();
    for (k, v) in roles {
        if let JsonValue::Str(k) = k {
            inner.insert(k.clone(), from_jv(v));
        }
    }
    let mut outer = serde_json::Map::new();
    outer.insert("modelRoles".to_string(), serde_json::Value::Object(inner));
    serde_yaml::to_string(&serde_json::Value::Object(outer)).unwrap()
}

fn roles_of(yaml: &str) -> Vec<(JsonValue, JsonValue)> {
    let doc: serde_yaml::Value = serde_yaml::from_str(yaml).unwrap();
    let mut out = Vec::new();
    if let Some(m) = doc.get("modelRoles").and_then(|v| v.as_mapping()) {
        for (k, v) in m {
            let k: serde_json::Value = serde_json::to_value(k).unwrap();
            let v: serde_json::Value = serde_json::to_value(v).unwrap();
            out.push((to_jv(&k), to_jv(&v)));
        }
    }
    out
}

fn entry<'a>(providers: &'a [(String, JsonValue)], id: &str) -> Option<&'a JsonValue> {
    providers.iter().find(|(k, _)| k == id).map(|(_, v)| v)
}

fn str_at<'a>(v: &'a JsonValue, k: &str) -> Option<&'a str> {
    v.get(k).and_then(|x| x.as_str()).map(|s| s.as_str())
}

fn role<'a>(roles: &'a [(String, String)], name: &str) -> Option<&'a str> {
    roles.iter().find(|(k, _)| k == name).map(|(_, v)| v.as_str())
}

fn sample_config() -> OmpProviderConfig {
    let mut c = OmpProviderConfig::default();
    c.api = "openai-completions".to_string();
    c.api_key = Some("sk-test".to_string());
    c.base_url = Some("http://localhost:11434/v1".to_string());
    c.models = vec![OmpModel {
        id: "minimax-m3".to_string(),
        name: Some("MiniMax M3".to_string()),
        api: None,
        reasoning: Some(false),
        context_window: Some(100_000),
        max_tokens: Some(32_000),
    }];
    c.default_model_id = Some("minimax-m3".to_string());
    c
}

#[test]
fn omp_config_version_parse() {
    assert_eq!(parse_version("17.2.2"), Some((17, 2, 2)));
    assert_eq!(parse_version("v17.0.0"), Some((17, 0, 0)));
    assert_eq!(parse_version("17.0.0-beta.3"), Some((17, 0, 0)));
    assert_eq!(parse_version("garbage"), None);
    assert_eq!(extract_omp_version("omp/17.2.2"), Some("17.2.2".into()));
    assert_eq!(extract_omp_version("omp/17.2.2\n"), Some("17.2.2".into()));
    assert_eq!(extract_omp_version("17.2.2"), Some("17.2.2".into()));
    assert_eq!(extract_omp_version("garbage"), None);
}

#[test]
fn provider_key_validation() {
    assert!(validate_provider_key("spark").is_ok());
    assert!(validate_provider_key("a.b_c-d9").is_ok());
    assert!(validate_provider_key("0").is_ok());
    assert!(validate_provider_key("").is_err());
    assert!(validate_provider_key("Spark").is_err());
    assert!(validate_provider_key("a/b").is_err());
    assert!(validate_provider_key("a:b").is_err());
    assert!(validate_provider_key("-a").is_err());
    assert!(validate_provider_key(".a").is_err());
    assert!(validate_provider_key("managed:anthropic").is_err());
}

#[test]
fn role_validation() {
    for role in OMP_ROLES {
        assert!(validate_role(role).is_ok(), "role {role} should be valid");
    }
    assert!(validate_role("bogus").is_err());
    assert!(validate_role("").is_err());
    assert!(validate_role("Default").is_err());
}

#[test]
fn omp_config_set_and_get_provider_roundtrip() {
    let mut providers: Vec<(String, JsonValue)> = Vec::new();
    let mut roles: Vec<(JsonValue, JsonValue)> = Vec::new();
    upsert_and_select(&mut providers, &mut roles, "local-ollama", &sample_config(), "default", None)
        .unwrap();

    let listed = get_providers(&providers, &Vec::new());
    let (_, entry) = listed.iter().find(|(k, _)| k == "local-ollama").unwrap();
    assert_eq!(entry.api, "openai-completions");
    assert_eq!(entry.base_url.as_deref(), Some("http://localhost:11434/v1"));
    assert_eq!(entry.api_key.as_deref(), Some("sk-test"));
    assert_eq!(entry.models[0].id, "minimax-m3");
    assert_eq!(entry.models[0].context_window, Some(100_000));
    assert_eq!(entry._cc_source.as_deref(), Some("managed"));

    let r = get_model_roles(&roles);
    assert_eq!(role(&r, "default"), Some("local-ollama/minimax-m3"));
}

#[test]
fn legacy_type_alias_is_accepted_on_read() {
    let config = provider_from_entry(
        &j(r#"{"type": "anthropic-messages", "baseUrl": "https://example.com"}"#),
        "user",
    );
    assert_eq!(config.api, "anthropic-messages");
}

#[test]
fn section_splice_preserves_outside_bytes_and_comments() {
    let source = "# top comment\nproviders:\n  hand-written:\n    baseUrl: https://example.com\n    apiKey: $HAND_KEY\notherTopLevel: true  # trailing comment\n";
    let mut providers = providers_of(source);
    set_provider(&mut providers, "local-ollama", &sample_config(), None).unwrap();
    let text = splice_providers_section(source, &providers, &providers_text(&providers));

    assert!(
        text.starts_with("# top comment\nproviders:\n"),
        "bytes before the section body must be preserved: {text}"
    );
    assert!(
        text.ends_with("otherTopLevel: true  # trailing comment\n"),
        "bytes after the section must be preserved: {text}"
    );
    assert!(text.contains("hand-written"), "user entry kept: {text}");
    assert!(text.contains("$HAND_KEY"), "user entry fields kept: {text}");
    assert!(text.contains("local-ollama"), "new entry inserted: {text}");
    assert!(text.contains("_ccSource: managed"), "managed marker stamped: {text}");
    let reread = providers_of(&text);
    assert!(!is_managed_provider(entry(&reread, "hand-written").unwrap()));
    assert!(is_managed_provider(entry(&reread, "local-ollama").unwrap()));
}

#[test]
fn managed_entry_upsert_preserves_unknown_fields() {
    let source = "providers:\n  local-ollama:\n    baseUrl: http://old:1/v1\n    customField: keep-me\n    _ccSource: managed\n";
    let mut providers = providers_of(source);
    set_provider(&mut providers, "local-ollama", &sample_config(), None).unwrap();
    let text = splice_providers_section(source, &providers, &providers_text(&providers));

    let reread = providers_of(&text);
    let e = entry(&reread, "local-ollama").unwrap();
    assert_eq!(str_at(e, "baseUrl"), Some("http://localhost:11434/v1"));
    assert_eq!(str_at(e, "customField"), Some("keep-me"), "unowned key preserved");
    assert_eq!(str_at(e, "_ccSource"), Some("managed"));
}

#[test]
fn remove_provider_keeps_user_entries_and_strips_roles() {
    let mut providers = providers_of("providers:\n  hand-written:\n    baseUrl: https://example.com\n");
    let mut roles: Vec<(JsonValue, JsonValue)> = Vec::new();
    upsert_and_select(&mut providers, &mut roles, "tmp", &sample_config(), "default", None).unwrap();
    set_provider(&mut providers, "second", &sample_config(), None).unwrap();
    set_model_role(&providers, &mut roles, "plan", "second", None).unwrap();

    let r = get_model_roles(&roles);
    assert_eq!(role(&r, "plan"), Some("second/minimax-m3"));

    remove_provider(&mut providers, &mut roles, "second", None).unwrap();
    assert!(entry(&providers, "second").is_none());
    assert!(
        entry(&providers, "hand-written").is_some(),
        "user entry survives removal of another provider"
    );
    let r = get_model_roles(&roles);
    assert!(role(&r, "plan").is_none(), "stale role stripped");
    assert_eq!(role(&r, "default"), Some("tmp/minimax-m3"));

    remove_provider(&mut providers, &mut roles, "tmp", None).unwrap();
    let r = get_model_roles(&roles);
    assert!(r.is_empty(), "all roles stripped");
    // The emptied modelRoles section is removed from config.yml entirely.
    let config_text = splice_model_roles_section("theme: dark\nmodelRoles:\n  default: tmp/minimax-m3\n", &roles, "");
    let parsed: serde_yaml::Value = serde_yaml::from_str(&config_text).unwrap();
    assert!(parsed.get("modelRoles").is_none());
}

#[test]
fn model_roles_set_clear_and_other_keys_untouched() {
    let raw = "theme: dark\nmodelRoles:\n  default: other/model-x\nwebSearchOrder:\n  - google\n";
    let mut providers: Vec<(String, JsonValue)> = Vec::new();
    set_provider(&mut providers, "local-ollama", &sample_config(), None).unwrap();

    let mut roles = roles_of(raw);
    set_model_role(&providers, &mut roles, "default", "local-ollama", None).unwrap();
    let r = get_model_roles(&roles);
    assert_eq!(role(&r, "default"), Some("local-ollama/minimax-m3"));

    let text = splice_model_roles_section(raw, &roles, &roles_text(&roles));
    assert!(text.contains("theme: dark"), "other keys untouched: {text}");
    assert!(text.contains("webSearchOrder:\n  - google\n"), "trailing keys untouched: {text}");

    let mut roles = roles_of(&text);
    cc_switch_agents::omp_ops::clear_model_role(&mut roles, "default", None).unwrap();
    assert!(get_model_roles(&roles).is_empty());
    let text = splice_model_roles_section(&text, &roles, &roles_text(&roles));
    assert!(text.contains("theme: dark"), "other keys still there: {text}");
    assert!(!text.contains("modelRoles"), "empty section removed: {text}");

    // Clearing an absent role is a no-op success.
    cc_switch_agents::omp_ops::clear_model_role(&mut roles, "smol", None).unwrap();
    // Invalid roles are rejected before any write.
    assert!(set_model_role(&providers, &mut roles, "bogus", "local-ollama", None).is_err());
    assert!(cc_switch_agents::omp_ops::clear_model_role(&mut roles, "bogus", None).is_err());
    // Unknown provider cannot be assigned.
    assert!(set_model_role(&providers, &mut roles, "default", "missing", None).is_err());
}

#[test]
fn invalid_provider_key_is_rejected() {
    let mut providers: Vec<(String, JsonValue)> = Vec::new();
    let mut roles: Vec<(JsonValue, JsonValue)> = Vec::new();
    assert!(set_provider(&mut providers, "managed:anthropic", &sample_config(), None).is_err());
    assert!(set_provider(&mut providers, "a/b", &sample_config(), None).is_err());
    assert!(remove_provider(&mut providers, &mut roles, "a/b", None).is_err());
}

#[test]
fn optimistic_concurrency_conflict_is_reported() {
    let source = "providers: {}\n";
    let on_disk = "providers:\n  other: {}\n";
    let mut providers = providers_of(source);
    providers.push(("x".to_string(), j("{}")));
    let next = splice_providers_section(source, &providers, &providers_text(&providers));
    assert_eq!(
        write_decision(Some(source), Some(on_disk), &next),
        WriteDecision::Conflict,
        "must refuse to clobber"
    );
    let err = AppError::OmpModelsChangedOnDisk;
    assert_eq!(err.key(), "provider.omp.models.changed_on_disk");
    assert!(
        err.message_en().contains("changed on disk") || err.message_zh().contains("已被修改"),
        "unexpected error: {}",
        err.message_en()
    );
    assert!(err.message_zh().contains("已被修改"));
}

#[test]
fn omp_config_takeover_snapshot_roundtrip_restores_verbatim() {
    let mut providers: Vec<(String, JsonValue)> = Vec::new();
    let mut roles: Vec<(JsonValue, JsonValue)> = Vec::new();
    upsert_and_select(&mut providers, &mut roles, "local-ollama", &sample_config(), "default", None)
        .unwrap();
    set_provider(&mut providers, "second", &sample_config(), None).unwrap();
    let before = splice_providers_section("", &providers, &providers_text(&providers));

    let snapshot = read_live_snapshot(Some(before.clone()), None);
    assert_eq!(str_at(&snapshot, "modelsSource"), Some(before.as_str()));

    let previous = apply_takeover_and_select(
        &mut providers,
        &roles,
        "local-ollama",
        &sample_config(),
        "http://127.0.0.1:15721/omp",
        "PROXY_MANAGED",
        None,
    )
    .unwrap();
    assert_eq!(previous.as_deref(), Some("local-ollama"));
    let text = splice_providers_section(&before, &providers, &providers_text(&providers));
    let reread = providers_of(&text);
    let e = entry(&reread, "local-ollama").unwrap();
    assert_eq!(str_at(e, "baseUrl"), Some("http://127.0.0.1:15721/omp"));
    assert_eq!(str_at(e, "apiKey"), Some("PROXY_MANAGED"));

    // modelRoles untouched by takeover.
    let r = get_model_roles(&roles);
    assert_eq!(role(&r, "default"), Some("local-ollama/minimax-m3"));

    // Pre-takeover snapshot has no markers; post-takeover does.
    assert!(!has_takeover_markers(&snapshot, "PROXY_MANAGED", &providers_of(&before)));
    let taken_over = read_live_snapshot(Some(text.clone()), None);
    assert!(has_takeover_markers(&taken_over, "PROXY_MANAGED", &reread));

    // Restoring writes the snapshot's source back as it was.
    let restored = str_at(&snapshot, "modelsSource").unwrap();
    assert_eq!(restored, before, "restore must be verbatim");
}

#[test]
fn takeover_revert_restores_db_config() {
    let mut providers: Vec<(String, JsonValue)> = Vec::new();
    let mut roles: Vec<(JsonValue, JsonValue)> = Vec::new();
    upsert_and_select(&mut providers, &mut roles, "local-ollama", &sample_config(), "default", None)
        .unwrap();
    apply_takeover_and_select(
        &mut providers,
        &roles,
        "local-ollama",
        &sample_config(),
        "http://127.0.0.1:15721/omp",
        "PROXY_MANAGED",
        None,
    )
    .unwrap();

    revert_provider_takeover(&mut providers, "local-ollama", &sample_config(), "PROXY_MANAGED", None)
        .unwrap();
    let e = entry(&providers, "local-ollama").unwrap();
    assert_eq!(str_at(e, "baseUrl"), Some("http://localhost:11434/v1"));
    assert_eq!(str_at(e, "apiKey"), Some("sk-test"));
    assert_eq!(str_at(e, "_ccSource"), Some("managed"));

    // Revert without markers is a no-op.
    revert_provider_takeover(&mut providers, "local-ollama", &sample_config(), "PROXY_MANAGED", None)
        .unwrap();
    assert_eq!(str_at(entry(&providers, "local-ollama").unwrap(), "apiKey"), Some("sk-test"));
}

#[test]
fn loopback_baseurl_alone_is_not_a_takeover_marker() {
    let mut providers: Vec<(String, JsonValue)> = Vec::new();
    let mut roles: Vec<(JsonValue, JsonValue)> = Vec::new();
    upsert_and_select(&mut providers, &mut roles, "user-ollama", &sample_config(), "default", None)
        .unwrap();
    let source = splice_providers_section("", &providers, &providers_text(&providers));
    let snapshot = read_live_snapshot(Some(source.clone()), None);
    assert!(
        !has_takeover_markers(&snapshot, "PROXY_MANAGED", &providers_of(&source)),
        "user's loopback baseUrl must not be misread as a takeover marker"
    );

    let changed = remove_takeover_markers_all(&mut providers, "PROXY_MANAGED");
    assert!(!changed, "no entries should be touched");

    let listed = get_providers(&providers, &Vec::new());
    let (_, e) = listed.iter().find(|(k, _)| k == "user-ollama").unwrap();
    assert_eq!(e.base_url.as_deref(), Some("http://localhost:11434/v1"));
    assert_eq!(e.api_key.as_deref(), Some("sk-test"));
}

#[test]
fn omp_config_remove_takeover_markers_all_strips_every_marked_entry() {
    let mut providers: Vec<(String, JsonValue)> = Vec::new();
    let mut roles: Vec<(JsonValue, JsonValue)> = Vec::new();
    upsert_and_select(&mut providers, &mut roles, "local-ollama", &sample_config(), "default", None)
        .unwrap();
    set_provider(&mut providers, "second", &sample_config(), None).unwrap();
    for id in ["local-ollama", "second"] {
        apply_takeover_and_select(
            &mut providers,
            &roles,
            id,
            &sample_config(),
            "http://127.0.0.1:15721/omp",
            "PROXY_MANAGED",
            None,
        )
        .unwrap();
    }

    let changed = remove_takeover_markers_all(&mut providers, "PROXY_MANAGED");
    assert!(changed);
    let source = splice_providers_section("", &providers, &providers_text(&providers));
    let snapshot = read_live_snapshot(Some(source.clone()), None);
    assert!(!has_takeover_markers(&snapshot, "PROXY_MANAGED", &providers_of(&source)));
    assert!(entry(&providers, "local-ollama").is_some());
    assert!(entry(&providers, "second").is_some());
}

#[test]
fn patch_snapshot_provider_updates_entry() {
    let mut providers: Vec<(String, JsonValue)> = Vec::new();
    let mut roles: Vec<(JsonValue, JsonValue)> = Vec::new();
    upsert_and_select(&mut providers, &mut roles, "local-ollama", &sample_config(), "default", None)
        .unwrap();
    set_provider(&mut providers, "second", &sample_config(), None).unwrap();
    let source = splice_providers_section("", &providers, &providers_text(&providers));

    let mut snap_providers = providers_of(&source);
    let mut edited = sample_config();
    edited.base_url = Some("https://edited.example.com/v1".into());
    edited.api_key = Some("sk-edited".into());
    patch_snapshot_provider(&mut snap_providers, "second", &edited).unwrap();
    let patched = splice_providers_section(&source, &snap_providers, &providers_text(&snap_providers));

    let reread = providers_of(&patched);
    let e = entry(&reread, "second").unwrap();
    assert_eq!(str_at(e, "baseUrl"), Some("https://edited.example.com/v1"));
    assert_eq!(str_at(e, "apiKey"), Some("sk-edited"));
    assert!(entry(&reread, "local-ollama").is_some());
}

#[test]
fn read_live_settings_shape() {
    let mut providers: Vec<(String, JsonValue)> = Vec::new();
    let mut roles: Vec<(JsonValue, JsonValue)> = Vec::new();
    upsert_and_select(&mut providers, &mut roles, "local-ollama", &sample_config(), "plan", None)
        .unwrap();
    let config_text = splice_model_roles_section("", &roles, &roles_text(&roles));
    let config: serde_json::Value = serde_yaml::from_str(&config_text).unwrap();

    let live = read_live_settings(to_jv(&config), providers);
    let plan = live.get("config").and_then(|c| c.get("modelRoles")).and_then(|m| m.get("plan"));
    assert_eq!(plan.and_then(|p| p.as_str()).map(|s| s.as_str()), Some("local-ollama/minimax-m3"));
    let base = live
        .get("models")
        .and_then(|m| m.get("local-ollama"))
        .and_then(|e| e.get("baseUrl"));
    assert_eq!(base.and_then(|b| b.as_str()).map(|s| s.as_str()), Some("http://localhost:11434/v1"));
}

#[test]
fn default_role_selects_provider_entry() {
    let mut providers: Vec<(String, JsonValue)> = Vec::new();
    let mut roles: Vec<(JsonValue, JsonValue)> = Vec::new();
    upsert_and_select(&mut providers, &mut roles, "local-ollama", &sample_config(), "default", None)
        .unwrap();
    assert_eq!(get_default_role_provider_id(&roles).as_deref(), Some("local-ollama"));
    let (k, e) = selected_provider_entry(&roles, &providers).unwrap();
    assert_eq!(k, "local-ollama");
    assert_eq!(str_at(&e, "baseUrl"), Some("http://localhost:11434/v1"));
}

#[test]
fn old_omp_is_refused_before_any_change() {
    let mut providers: Vec<(String, JsonValue)> = Vec::new();
    let r = set_provider(&mut providers, "local-ollama", &sample_config(), Some("16.9.9"));
    assert!(matches!(r, Err(AppError::OmpIncompatibleVersion(_))));
    assert!(providers.is_empty());
    assert!(set_provider(&mut providers, "local-ollama", &sample_config(), Some("17.0.0")).is_ok());
}

#[test]
fn restoring_a_snapshot_writes_sources_verbatim() {
    let snapshot = read_live_snapshot(Some("providers: {}\n".to_string()), Some("theme: dark\n".to_string()));
    let plan = write_live_snapshot(&snapshot);
    assert_eq!(plan.models_source.as_deref(), Some("providers: {}\n"));
    assert!(!plan.strip_markers);
    assert_eq!(plan.config_source.as_deref(), Some("theme: dark\n"));
    let empty = read_live_snapshot(None, None);
    let plan = write_live_snapshot(&empty);
    assert_eq!(plan.models_source, None);
    assert!(plan.strip_markers);
    assert_eq!(plan.config_source, None);
}

#[test]
fn clearing_a_role_on_an_old_omp_is_refused() {
    let mut roles = roles_of("modelRoles:\n  default: a/m\n");
    let r = cc_switch_agents::omp_ops::clear_model_role(&mut roles, "default", Some("16.0.0"));
    assert!(matches!(r, Err(AppError::OmpIncompatibleVersion(_))));
    assert_eq!(r.unwrap_err().key(), "provider.omp.incompatible_version");
    assert_eq!(get_model_roles(&roles).len(), 1);
    cc_switch_agents::omp_ops::clear_model_role(&mut roles, "default", Some("17.0.0")).unwrap();
    assert!(get_model_roles(&roles).is_empty());
}

#[test]
fn absent_providers_section_lists_no_providers() {
    let providers = parse_providers_section(None).unwrap();
    assert!(providers.is_empty());
}

#[test]
fn providers_section_without_a_mapping_is_refused() {
    let scalar = j(r#"{"providers": "nope"}"#);
    let err = parse_providers_section(Some(&scalar)).unwrap_err();
    assert_eq!(err.key(), "provider.omp.models.invalid");
    assert!(err.message_en().contains("must be a YAML mapping"));
    let null = j(r#"{"providers": null}"#);
    assert!(parse_providers_section(Some(&null)).is_err());
}

#[test]
fn error_messages_name_their_input() {
    let e = AppError::OmpNoModels("p".to_string());
    assert_eq!(e.message_en(), "Omp provider 'p' has no models; cannot build a role selector");
    assert_eq!(e.message_zh(), "Omp 供应商 'p' 没有可用模型，无法生成角色选择器");
    let v = AppError::OmpIncompatibleVersion("16.0.0".to_string());
    assert_eq!(
        v.message_en(),
        "Omp version 16.0.0 is below the minimum supported 17.0.0; config writes are blocked. Please upgrade Omp."
    );
    assert_eq!(AppError::McpValidation("bad".to_string()).message_en(), "bad");
}

#[test]
fn default_role_provider_matches_the_listed_default_selector() {
    let roles: Vec<(JsonValue, JsonValue)> = vec![
        (JsonValue::Str("smol".to_string()), JsonValue::Str("other/x".to_string())),
        (JsonValue::Str("default".to_string()), JsonValue::Str("local-ollama/minimax-m3".to_string())),
    ];
    let listed = get_model_roles(&roles);
    let sel = listed.iter().find(|(k, _)| k == "default").map(|(_, v)| v.clone());
    assert_eq!(sel.as_deref(), Some("local-ollama/minimax-m3"));
    assert_eq!(get_default_role_provider_id(&roles).as_deref(), Some("local-ollama"));
    let no_slash = vec![(JsonValue::Str("default".to_string()), JsonValue::Str("plain".to_string()))];
    assert_eq!(get_default_role_provider_id(&no_slash), None);
}
