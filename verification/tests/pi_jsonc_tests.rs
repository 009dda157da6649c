use cc_switch_agents::json::{JsonNumber, JsonValue};
use cc_switch_agents::pi_config::{set_provider, PiModel, PiProviderConfig};
use cc_switch_agents::error::AppError;
use cc_switch_agents::jsonc_doc::{load_models_source, models_text, patch_snapshot_models, put_entry};
use cc_switch_agents::pi_jsonc::{reindent_json_block, remove_provider};

fn to_jv(v: &serde_json::Value) -> JsonValue {
    match v {
        serde_json::Value::Null => JsonValue::Null,
        serde_json::Value::Bool(b) => JsonValue::Bool(*b),
        serde_json::Value::Number(n) => {
            if let Some(u) = n.as_u64() {
                JsonValue::Number(JsonNumber::PosInt(u))
            } else if let Some(i) = n.as_i64() {
                JsonValue::Number(JsonNumber::NegInt(i))
            } else {
                let f = n.as_f64().unwrap_or(0.0);
                JsonValue::Number(JsonNumber::Float(n.to_string(), f as u64))
            }
        }
        serde_json::Value::String(s) => JsonValue::Str(s.clone()),
        serde_json::Value::Array(a) => JsonValue::Array(a.iter().map(to_jv).collect()),
        serde_json::Value::Object(o) => {
            JsonValue::Object(o.iter().map(|(k, v)| (k.clone(), to_jv(v))).collect())
        }
    }
}
fn from_jv(v: &JsonValue) -> serde_json::Value {
    match v {
        JsonValue::Null => serde_json::Value::Null,
        JsonValue::Bool(b) => serde_json::Value::Bool(*b),
        JsonValue::Number(JsonNumber::PosInt(u)) => serde_json::Value::from(*u),
        JsonValue::Number(JsonNumber::NegInt(i)) => serde_json::Value::from(*i),
        JsonValue::Number(JsonNumber::Float(s, _)) => serde_json::from_str(s).unwrap(),
        JsonValue::Number(JsonNumber::Decimal(s)) => serde_json::from_str(s).unwrap(),
        JsonValue::Str(s) => serde_json::Value::String(s.clone()),
        JsonValue::Array(a) => serde_json::Value::Array(a.iter().map(from_jv).collect()),
        JsonValue::Object(o) => {
            let mut m = serde_json::Map::new();
            for (k, v) in o {
                m.insert(k.clone(), from_jv(v));
            }
            serde_json::Value::Object(m)
        }
    }
}
fn sample_config() -> PiProviderConfig {
    let mut c = PiProviderConfig::default();
    c.provider_type = "openai-completions".to_string();
    c.api_key = Some("sk-test".to_string());
    c.base_url = Some("http://localhost:11434/v1".to_string());
    c.models = vec![PiModel {
        id: "llama3.1:8b".to_string(),
        name: Some("Llama 3.1".to_string()),
        api: None,
        reasoning: Some(false),
        input: Some(vec!["text".to_string()]),
        cost: None,
        context_window: Some(128_000),
        max_tokens: Some(4096),
        compat: None,
        thinking_level_map: None,
    }];
    c.default_model_id = Some("llama3.1:8b".to_string());
    c
}

/// Upserts `providers.<id>` of a `models.json` text the way the app does:
/// the entry built by the library, pretty-printed, re-indented and put into
/// the syntax tree in place.
fn upsert_text(source: &str, id: &str, config: &PiProviderConfig) -> String {
    let mut doc = load_models_source(Some(source)).unwrap();
    let models = to_jv(&json5::from_str::<serde_json::Value>(source).unwrap());
    let mut auth: Vec<(String, JsonValue)> = Vec::new();
    let entry = set_provider(&models, &mut auth, id, config, None).unwrap();
    let pretty = serde_json::to_string_pretty(&from_jv(&entry)).unwrap();
    put_entry(&mut doc, id, &pretty).unwrap();
    models_text(&doc)
}

fn remove_text(source: &str, id: &str) -> String {
    let mut doc = load_models_source(Some(source)).unwrap();
    remove_provider(&mut doc.root, id);
    models_text(&doc)
}

#[test]
fn models_json_edit_preserves_comments_and_unknown_keys() {
    let source = "{\n  // user comment\n  \"providers\": {\n    \"hand-written\": {\n      \"baseUrl\": \"https://example.com\",\n      \"oauth\": \"radius\",\n      \"apiKey\": \"$HAND_KEY\"\n    }\n  },\n  \"otherTopLevel\": true\n}\n";
    let text = upsert_text(source, "local-ollama", &sample_config());
    assert!(text.contains("// user comment"), "comment preserved: {text}");
    assert!(text.contains("\"otherTopLevel\": true"), "unknown key preserved: {text}");
    assert!(text.contains("hand-written"), "sibling provider preserved: {text}");
    assert!(text.contains("local-ollama"), "new provider inserted: {text}");

    // Update in place: unknown keys of the managed entry survive, owned keys replaced.
    let mut config = sample_config();
    config.base_url = Some("http://localhost:9999/v1".into());
    let text = upsert_text(&text, "hand-written", &config);
    assert!(text.contains("localhost:9999"), "owned key updated: {text}");
    assert!(text.contains("\"oauth\": \"radius\""), "unowned key preserved: {text}");
    assert!(text.contains("\"apiKey\": \"$HAND_KEY\""), "hand apiKey preserved: {text}");
}

#[test]
fn removing_the_last_provider_keeps_strict_json() {
    let text = upsert_text("{}\n", "tmp", &sample_config());
    let text = upsert_text(&text, "second", &sample_config());
    let text = remove_text(&text, "second");
    let parsed: serde_json::Value = serde_json::from_str(&text)
        .unwrap_or_else(|e| panic!("models.json must stay strict JSON after removal: {e}\n{text}"));
    assert!(parsed["providers"].get("second").is_none());
    assert!(parsed["providers"].get("tmp").is_some());
    let text = remove_text(&text, "tmp");
    let parsed: serde_json::Value = serde_json::from_str(&text).unwrap();
    assert!(parsed["providers"].as_object().unwrap().is_empty());
}

#[test]
fn new_entries_are_indented_like_their_siblings() {
    let source = "{\n    \"providers\": {\n        \"a\": {\n            \"x\": 1\n        }\n    }\n}\n";
    let text = upsert_text(source, "b", &sample_config());
    assert!(text.contains("\n        \"b\": {"), "entry indented like \"a\": {text}");
    let parsed: serde_json::Value = serde_json::from_str(&text).unwrap();
    assert_eq!(parsed["providers"]["b"]["baseUrl"], "http://localhost:11434/v1");
    assert_eq!(reindent_json_block("{\n  \"k\": 1\n}", "    "), "{\n      \"k\": 1\n    }");
}

#[test]
fn unchanged_models_text_prints_back_as_read() {
    let source = "// top\n{\n  // c\n  \"a\": [1, 0x1F, -2.5e3, 'x'],\n  b: null,\n}\n";
    let doc = load_models_source(Some(source)).unwrap();
    assert_eq!(models_text(&doc), source);
}

#[test]
fn models_source_errors() {
    assert!(matches!(load_models_source(Some("{ \"a\": ")), Err(AppError::PiModelsInvalid)));
    assert!(matches!(load_models_source(Some("[1, 2]")), Err(AppError::PiNotObject)));
    let empty = load_models_source(None).unwrap();
    assert_eq!(models_text(&empty), "{}\n");
}

#[test]
fn patching_a_backup_replaces_only_the_provider() {
    let source = "{\n  // keep me\n  \"providers\": {\n    \"a\": { \"x\": 1 },\n    \"b\": { \"y\": 2 }\n  }\n}\n";
    let text = patch_snapshot_models(Some(source), "a", "{\n  \"x\": 5\n}").unwrap();
    assert!(text.contains("// keep me"));
    assert!(text.contains("\"b\": { \"y\": 2 }"));
    assert!(text.contains("\"x\": 5"));
    assert!(!text.contains("\"x\": 1"));
    assert!(matches!(patch_snapshot_models(Some("{"), "a", "{}"), Err(AppError::PiModelsInvalid)));
    assert!(matches!(patch_snapshot_models(Some("{}"), "a", "{"), Err(AppError::PiEntryInvalid)));
    let fresh = patch_snapshot_models(None, "a", "{}").unwrap();
    assert!(fresh.contains("\"a\": {}"));
}
