use cc_switch_agents::error::AppError;
use cc_switch_agents::json::{JsonNumber, JsonValue};
use cc_switch_agents::pi_config::{
    apply_takeover_and_select, auth_api_keys, get_default_model, get_default_provider_id,
    get_providers, has_takeover_markers, models_value_has_takeover_markers, patch_snapshot_provider,
    provider_has_oauth_credential, read_live_snapshot, remove_auth_api_key, remove_provider,
    remove_takeover_markers_all, revert_provider_takeover, set_auth_api_key, set_provider,
    upsert_and_select, write_default_selection, write_live_snapshot, clear_selection_of, PiModel, PiProviderConfig,
};
use cc_switch_agents::version::parse_version;

fn to_jv(v: &serde_json::Value) -> JsonValue {
    match v {
        serde_json::Value::Null => JsonValue::Null,
        serde_json::Value::Bool(b) => JsonValue::Bool(*b),
        serde_json::Value::Number(n) => {
            if let Some(u) = n.as_u64() {
                JsonValue::Number(JsonNumber::PosInt(u))
            } else if let Some(i) = n.as_i64() {
                JsonValue::Number(JsonNumber::NegInt(i))
            } else {
                let f = n.as_f64().unwrap_or(0.0);
                JsonValue::Number(JsonNumber::Float(n.to_string(), f as u64))
            }
        }
        serde_json::Value::String(s) => JsonValue::Str(s.clone()),
        serde_json::Value::Array(a) => JsonValue::Array(a.iter().map(to_jv).collect()),
        serde_json::Value::Object(o) => {
            JsonValue::Object(o.iter().map(|(k, v)| (k.clone(), to_jv(v))).collect())
        }
    }
}
fn from_jv(v: &JsonValue) -> serde_json::Value {
    match v {
        JsonValue::Null => serde_json::Value::Null,
        JsonValue::Bool(b) => serde_json::Value::Bool(*b),
        JsonValue::Number(JsonNumber::PosInt(u)) => serde_json::Value::from(*u),
        JsonValue::Number(JsonNumber::NegInt(i)) => serde_json::Value::from(*i),
        JsonValue::Number(JsonNumber::Float(s, _)) => serde_json::from_str(s).unwrap(),
        JsonValue::Number(JsonNumber::Decimal(s)) => serde_json::from_str(s).unwrap(),
        JsonValue::Str(s) => serde_json::Value::String(s.clone()),
        JsonValue::Array(a) => serde_json::Value::Array(a.iter().map(from_jv).collect()),
        JsonValue::Object(o) => {
            let mut m = serde_json::Map::new();
            for (k, v) in o {
                m.insert(k.clone(), from_jv(v));
            }
            serde_json::Value::Object(m)
        }
    }
}

fn jv(text: &str) -> JsonValue {
    to_jv(&serde_json::from_str(text).unwrap())
}

fn entries(text: &str) -> Vec<(String, JsonValue)> {
    match jv(text) {
        JsonValue::Object(o) => o,
        _ => panic!("not an object"),
    }
}

fn get<'a>(entries: &'a [(String, JsonValue)], k: &str) -> Option<&'a JsonValue> {
    entries.iter().find(|(key, _)| key == k).map(|(_, v)| v)
}

fn str_at<'a>(v: &'a JsonValue, k: &str) -> Option<&'a str> {
    v.get(k).and_then(|x| x.as_str()).map(|s| s.as_str())
}

/// Writes `providers.<id>` of an in-memory `models.json`, as the caller does.
fn put(models: &mut JsonValue, id: &str, entry: JsonValue) {
    if let JsonValue::Object(root) = models {
        if !root.iter().any(|(k, _)| k == "providers") {
            root.push(("providers".to_string(), JsonValue::Object(Vec::new())));
        }
        for (k, v) in root.iter_mut() {
            if k == "providers" {
                if let JsonValue::Object(ps) = v {
                    match ps.iter_mut().find(|(k, _)| k == id) {
                        Some(slot) => slot.1 = entry,
                        None => ps.push((id.to_string(), entry)),
                    }
                }
                return;
            }
        }
    }
}

fn take(models: &mut JsonValue, id: &str) {
    if let JsonValue::Object(root) = models {
        for (k, v) in root.iter_mut() {
            if k == "providers" {
                if let JsonValue::Object(ps) = v {
                    ps.retain(|(k, _)| k != id);
                }
            }
        }
    }
}

fn provider<'a>(models: &'a JsonValue, id: &str) -> Option<&'a JsonValue> {
    models.get("providers").and_then(|p| p.get(id))
}

fn sample_config() -> PiProviderConfig {
    let mut c = PiProviderConfig::default();
    c.provider_type = "openai-completions".to_string();
    c.api_key = Some("sk-test".to_string());
    c.base_url = Some("http://localhost:11434/v1".to_string());
    c.models = vec![PiModel {
        id: "llama3.1:8b".to_string(),
        name: Some("Llama 3.1".to_string()),
        api: None,
        reasoning: Some(false),
        input: Some(vec!["text".to_string()]),
        cost: None,
        context_window: Some(128_000),
        max_tokens: Some(4096),
        compat: None,
        thinking_level_map: None,
    }];
    c.default_model_id = Some("llama3.1:8b".to_string());
    c
}

struct Live {
    models: JsonValue,
    auth: Vec<(String, JsonValue)>,
    settings: Vec<(String, JsonValue)>,
}

impl Live {
    fn new() -> Self {
        Live { models: jv(r#"{"providers": {}}"#), auth: Vec::new(), settings: Vec::new() }
    }
    fn upsert_and_select(&mut self, id: &str, config: &PiProviderConfig) {
        let e = upsert_and_select(&self.models, &mut self.auth, &mut self.settings, id, config, None).unwrap();
        put(&mut self.models, id, e);
    }
    fn set_provider(&mut self, id: &str, config: &PiProviderConfig) {
        let e = set_provider(&self.models, &mut self.auth, id, config, None).unwrap();
        put(&mut self.models, id, e);
    }
    fn settings_value(&self) -> JsonValue {
        to_jv(&from_jv(&JsonValue::Object(
            self.settings.iter().map(|(k, v)| (k.clone(), to_jv(&from_jv(v)))).collect(),
        )))
    }
    fn models_source(&self) -> String {
        serde_json::to_string_pretty(&from_jv(&self.models)).unwrap()
    }
}

#[test]
fn pi_config_version_parse() {
    assert_eq!(parse_version("0.82.0"), Some((0, 82, 0)));
    assert_eq!(parse_version("v0.52.7"), Some((0, 52, 7)));
    assert_eq!(parse_version("1.0.0-beta.3"), Some((1, 0, 0)));
    assert_eq!(parse_version("garbage"), None);
}

#[test]
fn pi_config_set_and_get_provider_roundtrip() {
    let mut live = Live::new();
    live.upsert_and_select("local-ollama", &sample_config());

    let settings = live.settings_value();
    let dp = get_default_provider_id(&settings);
    let dm = get_default_model(&settings);
    let providers = get_providers(&live.models, &live.auth, dp.as_deref(), dm.as_deref());
    let (_, entry) = providers.iter().find(|(k, _)| k == "local-ollama").unwrap();
    assert_eq!(entry.provider_type, "openai-completions");
    assert_eq!(entry.base_url.as_deref(), Some("http://localhost:11434/v1"));
    assert_eq!(entry.api_key.as_deref(), Some("sk-test"));
    assert_eq!(entry.models[0].id, "llama3.1:8b");
    assert_eq!(entry.models[0].context_window, Some(128_000));

    assert_eq!(dp.as_deref(), Some("local-ollama"));
    assert_eq!(dm.as_deref(), Some("llama3.1:8b"));
}

#[test]
fn writes_auth_key_and_preserves_oauth() {
    let mut auth = entries(r#"{ "anthropic": { "type": "oauth", "refresh": "r", "access": "a", "expires": 1 } }"#);

    set_auth_api_key(&mut auth, "anthropic", Some("sk-should-not-win"));
    let a = get(&auth, "anthropic").unwrap();
    assert_eq!(str_at(a, "type"), Some("oauth"));
    assert_eq!(str_at(a, "refresh"), Some("r"));

    set_auth_api_key(&mut auth, "local", Some("sk-local"));
    assert_eq!(str_at(get(&auth, "local").unwrap(), "key"), Some("sk-local"));
    assert_eq!(str_at(get(&auth, "anthropic").unwrap(), "type"), Some("oauth"));

    remove_auth_api_key(&mut auth, "anthropic");
    assert_eq!(str_at(get(&auth, "anthropic").unwrap(), "type"), Some("oauth"));
    remove_auth_api_key(&mut auth, "local");
    assert!(get(&auth, "local").is_none());
    assert!(provider_has_oauth_credential(&auth, "anthropic"));
    assert!(!provider_has_oauth_credential(&auth, "local"));
}

#[test]
fn remove_provider_clears_selection_and_keeps_valid_json() {
    let mut live = Live::new();
    live.upsert_and_select("tmp", &sample_config());
    live.set_provider("second", &sample_config());

    let cleared = remove_provider(&mut live.auth, &mut live.settings, "second", None).unwrap();
    assert!(!cleared);
    take(&mut live.models, "second");
    let text = live.models_source();
    let parsed: serde_json::Value = serde_json::from_str(&text).unwrap();
    assert!(parsed["providers"].get("second").is_none());
    assert!(parsed["providers"].get("tmp").is_some());

    let cleared = remove_provider(&mut live.auth, &mut live.settings, "tmp", None).unwrap();
    assert!(cleared);
    take(&mut live.models, "tmp");
    assert!(get_providers(&live.models, &live.auth, None, None).is_empty());
    let settings = live.settings_value();
    assert_eq!(get_default_provider_id(&settings), None);
    assert_eq!(get_default_model(&settings), None);
    assert!(get(&live.auth, "tmp").is_none());
}

#[test]
fn managed_provider_is_readonly() {
    let mut live = Live::new();
    let r = set_provider(&live.models, &mut live.auth, "managed:anthropic", &sample_config(), None);
    assert!(matches!(r, Err(AppError::PiManagedReadonly(_))));
    let r = remove_provider(&mut live.auth, &mut live.settings, "managed:anthropic", None);
    assert!(r.is_err());
}

#[test]
fn pi_config_takeover_snapshot_roundtrip_restores_verbatim() {
    let mut live = Live::new();
    live.upsert_and_select("local-ollama", &sample_config());
    live.set_provider("second", &sample_config());

    let before = live.models_source();
    let snapshot = read_live_snapshot(Some(before.clone()), None, live.settings_value(), &live.auth);
    assert_eq!(str_at(&snapshot, "modelsSource"), Some(before.as_str()));
    assert_eq!(
        snapshot.get("authApiKeys").and_then(|k| k.get("local-ollama")).and_then(|v| v.as_str()).map(|s| s.as_str()),
        Some("sk-test")
    );
    let parsed_before = jv(&before);

    let (_, taken) = apply_takeover_and_select(
        &live.models,
        &mut live.settings,
        "local-ollama",
        &sample_config(),
        "http://127.0.0.1:15721/pi",
        "PROXY_MANAGED",
        None,
    )
    .unwrap();
    put(&mut live.models, "local-ollama", taken);
    let entry = provider(&live.models, "local-ollama").unwrap();
    assert_eq!(str_at(entry, "baseUrl"), Some("http://127.0.0.1:15721/pi"));
    assert_eq!(str_at(entry, "apiKey"), Some("PROXY_MANAGED"));
    assert!(!has_takeover_markers(&snapshot, "PROXY_MANAGED", Some(&parsed_before)));
    let after_source = live.models_source();
    let taken_over = read_live_snapshot(Some(after_source), None, live.settings_value(), &live.auth);
    assert!(has_takeover_markers(&taken_over, "PROXY_MANAGED", Some(&live.models)));

    // Restoring writes the snapshot's source back as it was.
    assert_eq!(str_at(&snapshot, "modelsSource"), Some(before.as_str()), "restore must be verbatim");
}

#[test]
fn takeover_revert_restores_db_config_and_keeps_oauth_untouched() {
    let mut live = Live::new();
    live.auth = entries(r#"{ "local-ollama": { "type": "oauth", "refresh": "r", "access": "a", "expires": 1 } }"#);
    let mut config = sample_config();
    config.api_key = None;
    live.upsert_and_select("local-ollama", &config);

    let (_, taken) = apply_takeover_and_select(
        &live.models,
        &mut live.settings,
        "local-ollama",
        &config,
        "http://127.0.0.1:15721/pi",
        "PROXY_MANAGED",
        None,
    )
    .unwrap();
    put(&mut live.models, "local-ollama", taken);
    let a = get(&live.auth, "local-ollama").unwrap();
    assert_eq!(str_at(a, "type"), Some("oauth"));
    assert_eq!(str_at(a, "refresh"), Some("r"));

    let reverted = revert_provider_takeover(&live.models, "local-ollama", &config, "PROXY_MANAGED", None)
        .unwrap()
        .expect("markers were present");
    put(&mut live.models, "local-ollama", reverted);
    let entry = provider(&live.models, "local-ollama").unwrap();
    assert_eq!(str_at(entry, "baseUrl"), Some("http://localhost:11434/v1"));
    assert!(entry.get("apiKey").is_none());
    assert_eq!(str_at(get(&live.auth, "local-ollama").unwrap(), "type"), Some("oauth"));
    // Without markers there is nothing to revert.
    assert!(revert_provider_takeover(&live.models, "local-ollama", &config, "PROXY_MANAGED", None)
        .unwrap()
        .is_none());
}

#[test]
fn pi_config_remove_takeover_markers_all_strips_every_marked_entry() {
    let mut live = Live::new();
    live.upsert_and_select("local-ollama", &sample_config());
    live.set_provider("second", &sample_config());
    for id in ["local-ollama", "second"] {
        let (_, taken) = apply_takeover_and_select(
            &live.models,
            &mut live.settings,
            id,
            &sample_config(),
            "http://127.0.0.1:15721/pi",
            "PROXY_MANAGED",
            None,
        )
        .unwrap();
        put(&mut live.models, id, taken);
    }

    let changed = remove_takeover_markers_all(&live.models, "PROXY_MANAGED");
    assert!(!changed.is_empty());
    for (id, e) in changed {
        put(&mut live.models, &id, e);
    }
    assert!(!models_value_has_takeover_markers(&live.models, "PROXY_MANAGED"));
    assert!(provider(&live.models, "local-ollama").is_some());
    assert!(provider(&live.models, "second").is_some());
}

#[test]
fn local_proxy_loopback_baseurl_alone_is_not_a_takeover_marker() {
    let mut live = Live::new();
    live.upsert_and_select("user-ollama", &sample_config());
    live.set_provider("user-relay", &sample_config());

    let source = live.models_source();
    let snapshot = read_live_snapshot(Some(source.clone()), None, live.settings_value(), &live.auth);
    assert!(
        !has_takeover_markers(&snapshot, "PROXY_MANAGED", Some(&jv(&source))),
        "user's loopback baseUrl must not be misread as a takeover marker (regression)"
    );

    let changed = remove_takeover_markers_all(&live.models, "PROXY_MANAGED");
    assert!(changed.is_empty(), "no entries should be touched");

    assert_eq!(str_at(provider(&live.models, "user-ollama").unwrap(), "baseUrl"), Some("http://localhost:11434/v1"));
    assert_eq!(str_at(provider(&live.models, "user-relay").unwrap(), "baseUrl"), Some("http://localhost:11434/v1"));
    for id in ["user-ollama", "user-relay"] {
        let a = get(&live.auth, id).unwrap();
        assert_eq!(str_at(a, "type"), Some("api_key"));
        assert_eq!(str_at(a, "key"), Some("sk-test"));
    }
}

#[test]
fn patch_snapshot_provider_updates_entry_and_selection() {
    let mut live = Live::new();
    live.upsert_and_select("local-ollama", &sample_config());
    live.set_provider("second", &sample_config());

    let mut keys = auth_api_keys(&live.auth);
    let mut settings = live.settings.iter().map(|(k, v)| (k.clone(), to_jv(&from_jv(v)))).collect::<Vec<_>>();
    let mut edited = sample_config();
    edited.base_url = Some("https://edited.example.com/v1".into());
    edited.api_key = Some("sk-edited".into());
    let mut models = jv(&live.models_source());
    let entry = patch_snapshot_provider(&models, &mut keys, &mut settings, "second", &edited);
    put(&mut models, "second", entry);

    assert_eq!(str_at(provider(&models, "second").unwrap(), "baseUrl"), Some("https://edited.example.com/v1"));
    assert!(provider(&models, "local-ollama").is_some());
    assert_eq!(get(&keys, "second").and_then(|v| v.as_str()).map(|s| s.as_str()), Some("sk-edited"));
    assert_eq!(get(&settings, "defaultProvider").and_then(|v| v.as_str()).map(|s| s.as_str()), Some("second"));
    assert_eq!(get(&settings, "defaultModel").and_then(|v| v.as_str()).map(|s| s.as_str()), Some("llama3.1:8b"));
}

#[test]
fn takeover_requires_existing_writable_provider_id() {
    let mut live = Live::new();
    assert!(apply_takeover_and_select(
        &live.models,
        &mut live.settings,
        "managed:anthropic",
        &sample_config(),
        "http://127.0.0.1:15721/pi",
        "PROXY_MANAGED",
        None,
    )
    .is_err());
}

#[test]
fn old_pi_is_refused() {
    let mut live = Live::new();
    let r = set_provider(&live.models, &mut live.auth, "local", &sample_config(), Some("0.52.6"));
    assert!(matches!(r, Err(AppError::PiIncompatibleVersion(_))));
    assert!(live.auth.is_empty());
}

#[test]
fn selection_keeps_other_settings() {
    let mut settings = entries(r#"{"theme": "dark", "defaultModel": "old", "quietStartup": true}"#);
    write_default_selection(&mut settings, "local", Some("m1"));
    assert_eq!(get(&settings, "theme").and_then(|v| v.as_str()).map(|s| s.as_str()), Some("dark"));
    assert_eq!(get(&settings, "quietStartup").and_then(|v| v.as_bool()), Some(true));
    assert_eq!(get(&settings, "defaultProvider").and_then(|v| v.as_str()).map(|s| s.as_str()), Some("local"));
    assert_eq!(get(&settings, "defaultModel").and_then(|v| v.as_str()).map(|s| s.as_str()), Some("m1"));
    write_default_selection(&mut settings, "other", None);
    assert!(get(&settings, "defaultModel").is_none());
    assert!(!clear_selection_of(&mut settings, "local"));
    assert!(clear_selection_of(&mut settings, "other"));
    assert!(get(&settings, "defaultProvider").is_none());
    assert_eq!(get(&settings, "theme").and_then(|v| v.as_str()).map(|s| s.as_str()), Some("dark"));
}

#[test]
fn restoring_a_pi_snapshot() {
    let settings_text = "{\n  \"defaultProvider\": \"a\",   \"theme\": \"dark\"\n}\n";
    let snapshot = read_live_snapshot(
        Some("{}\n".to_string()),
        Some(settings_text.to_string()),
        jv(r#"{"defaultProvider": "a"}"#),
        &Vec::new(),
    );
    let plan = write_live_snapshot(&snapshot);
    assert_eq!(plan.models_source.as_deref(), Some("{}\n"));
    assert!(!plan.strip_markers);
    assert_eq!(plan.settings_source.as_deref(), Some(settings_text), "settings restored byte for byte");
    assert!(plan.settings.is_none());
    // A backup without the settings text restores the parsed settings.
    let plan = write_live_snapshot(&read_live_snapshot(None, None, jv(r#"{"defaultProvider": "a"}"#), &Vec::new()));
    assert!(plan.strip_markers);
    assert_eq!(plan.models_source, None);
    assert_eq!(plan.settings_source, None);
    assert_eq!(str_at(&plan.settings.expect("settings kept"), "defaultProvider"), Some("a"));
}
