use cc_switch_agents::error::AppError;
use cc_switch_agents::json::{JsonNumber, JsonValue};
use cc_switch_agents::kimi_config::{
    apply_switch_defaults, get_default_model, get_default_provider_id, get_kimi_code_config_path,
    get_kimi_code_dir, get_kimi_code_mcp_path, get_kimi_code_session_index_path,
    get_kimi_code_sessions_dir, get_kimi_code_skills_dir, get_mcp_servers, get_providers,
    is_managed_provider_id, remove_mcp_server, remove_provider, set_mcp_server, set_provider,
    upsert_and_select, write_mcp_servers, KimiCodeModel, KimiCodeProviderConfig,
};
use cc_switch_agents::toml_doc::{config_text_after, parse_document, read_live_settings};
use cc_switch_agents::toml_sync::{plan_table_sync, TomlEdit};
use cc_switch_agents::mcp_kimi::{
    convert_from_kimicode, convert_to_kimicode, import_from_kimicode, remove_server_from_kimicode,
    sync_single_server_to_kimicode, McpApps, McpServer,
};

fn to_jv(v: &serde_json::Value) -> JsonValue {
    match v {
        serde_json::Value::Null => JsonValue::Null,
        serde_json::Value::Bool(b) => JsonValue::Bool(*b),
        serde_json::Value::Number(n) => {
            if let Some(u) = n.as_u64() {
                JsonValue::Number(JsonNumber::PosInt(u))
            } else if let Some(i) = n.as_i64() {
                JsonValue::Number(JsonNumber::NegInt(i))
            } else {
                let f = n.as_f64().unwrap_or(0.0);
                JsonValue::Number(JsonNumber::Float(n.to_string(), f as u64))
            }
        }
        serde_json::Value::String(s) => JsonValue::Str(s.clone()),
        serde_json::Value::Array(a) => JsonValue::Array(a.iter().map(to_jv).collect()),
        serde_json::Value::Object(o) => {
            JsonValue::Object(o.iter().map(|(k, v)| (k.clone(), to_jv(v))).collect())
        }
    }
}
fn from_jv(v: &JsonValue) -> serde_json::Value {
    match v {
        JsonValue::Null => serde_json::Value::Null,
        JsonValue::Bool(b) => serde_json::Value::Bool(*b),
        JsonValue::Number(JsonNumber::PosInt(u)) => serde_json::Value::from(*u),
        JsonValue::Number(JsonNumber::NegInt(i)) => serde_json::Value::from(*i),
        JsonValue::Number(JsonNumber::Float(s, _)) => serde_json::from_str(s).unwrap(),
        JsonValue::Number(JsonNumber::Decimal(s)) => serde_json::from_str(s).unwrap(),
        JsonValue::Str(s) => serde_json::Value::String(s.clone()),
        JsonValue::Array(a) => serde_json::Value::Array(a.iter().map(from_jv).collect()),
        JsonValue::Object(o) => {
            let mut m = serde_json::Map::new();
            for (k, v) in o {
                m.insert(k.clone(), from_jv(v));
            }
            serde_json::Value::Object(m)
        }
    }
}

fn jv(text: &str) -> JsonValue {
    to_jv(&serde_json::from_str(text).unwrap())
}

fn get<'a>(entries: &'a [(String, JsonValue)], k: &str) -> Option<&'a JsonValue> {
    entries.iter().find(|(key, _)| key == k).map(|(_, v)| v)
}

fn k3_config() -> KimiCodeProviderConfig {
    let mut c = KimiCodeProviderConfig::default();
    c.provider_type = "kimi".to_string();
    c.api_key = Some("sk-test".to_string());
    c.base_url = Some("https://api.kimi.com/coding/v1".to_string());
    c.models = vec![KimiCodeModel {
        id: "k3".to_string(),
        model: Some("k3".to_string()),
        max_context_size: Some(1_048_576),
        max_input_size: None,
        max_output_size: None,
        display_name: Some("K3".to_string()),
        capabilities: None,
        support_efforts: None,
        default_effort: None,
    }];
    c.default_model_id = Some("k3".to_string());
    c
}

#[test]
fn kimi_code_config_set_and_get_provider_roundtrip() {
    let mut doc: Vec<(String, JsonValue)> = Vec::new();
    upsert_and_select(&mut doc, "acc-a", &k3_config()).unwrap();

    let providers = get_providers(&doc);
    let (_, acc) = providers.iter().find(|(k, _)| k == "acc-a").unwrap();
    assert_eq!(acc.provider_type, "kimi");
    assert_eq!(acc.api_key.as_deref(), Some("sk-test"));
    assert_eq!(get_default_model(&doc).as_deref(), Some("acc-a/k3"));
    assert_eq!(get_default_provider_id(&doc).as_deref(), Some("acc-a"));
}

#[test]
fn remove_provider_clears_default_model() {
    let mut doc: Vec<(String, JsonValue)> = Vec::new();
    upsert_and_select(&mut doc, "tmp", &KimiCodeProviderConfig::default()).unwrap();
    remove_provider(&mut doc, "tmp").unwrap();
    assert!(get_providers(&doc).is_empty());
    assert_eq!(get_default_model(&doc), None);
}

#[test]
fn managed_kimi_provider_is_readonly() {
    assert!(is_managed_provider_id("managed:kimi-code"));
    assert!(!is_managed_provider_id("acc-a"));
    let mut doc: Vec<(String, JsonValue)> = Vec::new();
    let r = set_provider(&mut doc, "managed:kimi-code", &k3_config());
    assert!(matches!(r, Err(AppError::KimiManagedReadonly(_))));
    assert!(doc.is_empty());
    let r = remove_provider(&mut doc, "managed:kimi-code");
    assert!(matches!(r, Err(AppError::KimiManagedNotRemovable(_))));
}

#[test]
fn providers_table_that_is_not_a_table_is_refused() {
    let mut doc = match jv(r#"{"providers": 3}"#) {
        JsonValue::Object(o) => o,
        _ => unreachable!(),
    };
    let r = set_provider(&mut doc, "acc-a", &k3_config());
    assert!(matches!(r, Err(AppError::KimiConfigNotTable)));
}

#[test]
fn switch_defaults_point_at_the_provider() {
    let mut doc: Vec<(String, JsonValue)> = Vec::new();
    set_provider(&mut doc, "acc-a", &k3_config()).unwrap();
    assert_eq!(get_default_model(&doc), None);
    apply_switch_defaults(&mut doc, "acc-a", &k3_config());
    assert_eq!(get_default_model(&doc).as_deref(), Some("acc-a/k3"));
}

#[test]
fn kimi_paths() {
    assert_eq!(get_kimi_code_dir(None, None, "/home/u"), "/home/u/.kimi-code");
    assert_eq!(get_kimi_code_dir(None, Some("  /opt/kimi "), "/home/u"), "/opt/kimi");
    assert_eq!(get_kimi_code_dir(Some("/x"), Some("/opt/kimi"), "/home/u"), "/x");
    assert_eq!(get_kimi_code_config_path("/k"), "/k/config.toml");
    assert_eq!(get_kimi_code_mcp_path("/k/"), "/k/mcp.json");
    assert_eq!(get_kimi_code_skills_dir("/k"), "/k/skills");
    assert_eq!(get_kimi_code_sessions_dir("/k"), "/k/sessions");
    assert_eq!(get_kimi_code_session_index_path("/k"), "/k/session_index.jsonl");
}

#[test]
fn mcp_servers_roundtrip_through_kimi_format() {
    let stdio = jv(r#"{"type":"stdio","command":"npx","args":["-y","srv"],"env":{},"cwd":"/w","enabled":true}"#);
    let converted = convert_to_kimicode(&stdio).unwrap();
    assert_eq!(
        from_jv(&converted),
        serde_json::from_str::<serde_json::Value>(r#"{"command":"npx","args":["-y","srv"],"cwd":"/w","enabled":true}"#).unwrap()
    );
    let sse = jv(r#"{"type":"sse","url":"https://m.example.com/sse","headers":{"a":"b"}}"#);
    let converted = convert_to_kimicode(&sse).unwrap();
    assert_eq!(converted.get("transport").and_then(|t| t.as_str()).map(|s| s.as_str()), Some("sse"));
    let back = convert_from_kimicode(&converted).unwrap();
    assert_eq!(back.get("type").and_then(|t| t.as_str()).map(|s| s.as_str()), Some("sse"));
    assert!(convert_to_kimicode(&jv(r#"{"type":"ws"}"#)).is_err());
    assert!(convert_from_kimicode(&jv(r#"{"name":"x"}"#)).is_err());
}

#[test]
fn mcp_sync_remove_and_import() {
    let root = jv(r#"{"mcpServers":{"old":{"command":"a"}}}"#);
    let mut servers = get_mcp_servers(Some(&root));
    assert_eq!(servers.len(), 1);
    assert!(sync_single_server_to_kimicode(&mut servers, "web", &jv(r#"{"type":"http","url":"https://h"}"#), true).unwrap());
    assert!(get(&servers, "web").is_some());
    assert!(sync_single_server_to_kimicode(&mut servers, "bad", &jv(r#"{"type":"ws"}"#), true).is_err());
    assert!(get(&servers, "bad").is_none());
    // Without Kimi Code installed nothing changes and nothing is written.
    assert!(!sync_single_server_to_kimicode(&mut servers, "x", &jv(r#"{"command":"c"}"#), false).unwrap());
    assert!(get(&servers, "x").is_none());
    assert!(!remove_server_from_kimicode(&mut servers, "old", false));
    assert!(get(&servers, "old").is_some());
    assert!(remove_server_from_kimicode(&mut servers, "old", true));
    assert!(get(&servers, "old").is_none());

    let mut store: Vec<(String, McpServer)> = vec![(
        "web".to_string(),
        McpServer {
            id: "web".to_string(),
            name: "Web".to_string(),
            server: jv(r#"{"type":"http","url":"https://h"}"#),
            apps: McpApps { kimicode: false },
        },
    )];
    let live = vec![
        ("web".to_string(), jv(r#"{"url":"https://h"}"#)),
        ("new".to_string(), jv(r#"{"command":"npx"}"#)),
        ("junk".to_string(), jv(r#"{"name":"x"}"#)),
    ];
    let added = import_from_kimicode(&mut store, &live);
    assert_eq!(added, 1);
    assert_eq!(store.len(), 2);
    assert!(store[0].1.apps.kimicode);
    assert_eq!(store[1].0, "new");
    assert_eq!(store[1].1.server.get("type").and_then(|t| t.as_str()).map(|s| s.as_str()), Some("stdio"));

    let mut plain: Vec<(String, JsonValue)> = Vec::new();
    set_mcp_server(&mut plain, "x", jv(r#"{"command":"c"}"#));
    assert!(get(&plain, "x").is_some());
    remove_mcp_server(&mut plain, "x");
    assert!(plain.is_empty());
    let written = write_mcp_servers(servers);
    assert!(written.get("mcpServers").is_some());
}

fn obj(items: Vec<(&str, JsonValue)>) -> JsonValue {
    JsonValue::Object(items.into_iter().map(|(k, v)| (k.to_string(), v)).collect())
}

fn fields(items: Vec<(&str, JsonValue)>) -> Vec<(String, JsonValue)> {
    items.into_iter().map(|(k, v)| (k.to_string(), v)).collect()
}

fn num(n: u64) -> JsonValue {
    JsonValue::Number(JsonNumber::PosInt(n))
}

fn text(s: &str) -> JsonValue {
    JsonValue::Str(s.to_string())
}

#[test]
fn toml_sync_touches_only_changed_items() {
    let old = fields(vec![
        ("a", num(1)),
        ("b", obj(vec![("x", num(1)), ("y", num(2))])),
        ("c", text("keep")),
        ("gone", JsonValue::Bool(true)),
    ]);
    let new = fields(vec![
        ("a", num(2)),
        ("b", obj(vec![("x", num(1)), ("y", num(3))])),
        ("c", text("keep")),
        ("d", JsonValue::Bool(false)),
    ]);
    let plan = plan_table_sync(&old, &new);
    assert_eq!(plan.len(), 4);
    assert!(matches!(&plan[0], TomlEdit::Remove(k) if k == "gone"));
    assert!(matches!(&plan[1], TomlEdit::Put(k, JsonValue::Number(JsonNumber::PosInt(2))) if k == "a"));
    match &plan[2] {
        TomlEdit::Merge(k, JsonValue::Object(_), sub) => {
            assert_eq!(k, "b");
            assert_eq!(sub.len(), 1);
            assert!(matches!(&sub[0], TomlEdit::Put(y, JsonValue::Number(JsonNumber::PosInt(3))) if y == "y"));
        }
        other => panic!("unexpected edit {other:?}"),
    }
    assert!(matches!(&plan[3], TomlEdit::Put(k, JsonValue::Bool(false)) if k == "d"));
}

#[test]
fn toml_sync_of_an_unchanged_table_is_empty() {
    let table = || {
        fields(vec![
            ("providers", obj(vec![("p", obj(vec![("type", text("kimi"))]))])),
            ("default_model", text("m")),
        ])
    };
    assert!(plan_table_sync(&table(), &table()).is_empty());
    let replaced = fields(vec![("providers", num(3)), ("default_model", text("m"))]);
    let plan = plan_table_sync(&table(), &replaced);
    assert_eq!(plan.len(), 1);
    assert!(matches!(&plan[0], TomlEdit::Put(k, _) if k == "providers"));
}

#[test]
fn blank_or_invalid_config_text() {
    let blank = parse_document("  \n").unwrap();
    assert!(blank.is_empty());
    let err = parse_document("providers = [").unwrap_err();
    assert!(matches!(err, AppError::KimiInvalidToml));
    assert!(err.message_en().contains("config.toml"));
    let doc = parse_document("default_model = \"a/b\"\n").unwrap();
    assert_eq!(get_default_model(&doc).as_deref(), Some("a/b"));
}

#[test]
fn config_text_is_read_in_file_order_with_numbers_and_inline_tables() {
    let text = "default_model = \"p/m\"\n[providers.p]\ntype = \"kimi\"\noauth = { storage = \"file\" }\n\n[models.\"p/m\"]\nprovider = \"p\"\nmax_context_size = 131072\ntemperature = 0.5\n";
    let doc = parse_document(text).unwrap();
    let keys: Vec<&str> = doc.iter().map(|(k, _)| k.as_str()).collect();
    assert_eq!(keys, vec!["default_model", "providers", "models"]);
    let providers = match get(&doc, "providers") {
        Some(JsonValue::Object(p)) => p,
        other => panic!("unexpected {other:?}"),
    };
    let p = match get(providers, "p") {
        Some(JsonValue::Object(p)) => p,
        other => panic!("unexpected {other:?}"),
    };
    assert!(matches!(get(p, "oauth"), Some(JsonValue::Null)));
    let models = match get(&doc, "models") {
        Some(JsonValue::Object(m)) => m,
        other => panic!("unexpected {other:?}"),
    };
    let m = match get(models, "p/m") {
        Some(JsonValue::Object(m)) => m,
        other => panic!("unexpected {other:?}"),
    };
    assert!(matches!(get(m, "max_context_size"), Some(JsonValue::Number(JsonNumber::PosInt(131072)))));
    assert!(matches!(get(m, "temperature"), Some(JsonValue::Number(JsonNumber::Decimal(t))) if t == "0.5"));
    let live = read_live_settings(text).unwrap();
    assert!(matches!(live, JsonValue::Object(_)));
    assert!(read_live_settings("[x").is_err());
}

#[test]
fn config_write_back_keeps_comments_and_untouched_items() {
    let text = "# my config\ndefault_model = \"a/x\" # chosen\n\n[providers.a]\ntype = \"kimi\"\nextra = { keep = true }\n";
    let old = parse_document(text).unwrap();
    let mut new = parse_document(text).unwrap();
    set_provider(&mut new, "b", &k3_config()).unwrap();
    let next = config_text_after(text, &old, &new).unwrap().unwrap();
    assert!(next.starts_with("# my config\ndefault_model = \"a/x\" # chosen\n"), "{next}");
    assert!(next.contains("extra = { keep = true }"), "{next}");
    assert!(next.contains("[providers.b]"), "{next}");
    let again = parse_document(&next).unwrap();
    assert_eq!(get_providers(&again).len(), 2);
    // Nothing changed: the text comes back as it was.
    assert_eq!(config_text_after(text, &old, &old).unwrap().as_deref(), Some(text));
    // Nothing to write into a missing file.
    assert!(config_text_after("", &Vec::new(), &Vec::new()).unwrap().is_none());
}

#[test]
fn inline_providers_table_is_not_a_table() {
    // An inline `providers = { ... }` reaches the logic as `Null`.
    let mut doc = fields(vec![("providers", JsonValue::Null)]);
    assert!(get_providers(&doc).is_empty());
    let r = set_provider(&mut doc, "acc-a", &k3_config());
    assert!(matches!(r, Err(AppError::KimiConfigNotTable)));
}
