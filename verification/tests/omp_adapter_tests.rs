use cc_switch_agents::json::{JsonNumber, JsonValue};
use cc_switch_agents::omp_adapter::{
    auth_header_value, env_template_name, is_origin_only_url, omp_provider_protocol,
    omp_provider_supports_anthropic_messages, omp_provider_supports_chat_completions,
    resolve_env_template, AuthInfo, AuthStrategy, OmpAdapter, OmpProtocol, Provider,
};

fn to_jv(v: &serde_json::Value) -> JsonValue {
    match v {
        serde_json::Value::Null => JsonValue::Null,
        serde_json::Value::Bool(b) => JsonValue::Bool(*b),
        serde_json::Value::Number(n) => {
            if let Some(u) = n.as_u64() {
                JsonValue::Number(JsonNumber::PosInt(u))
            } else if let Some(i) = n.as_i64() {
                JsonValue::Number(JsonNumber::NegInt(i))
            } else {
                let f = n.as_f64().unwrap_or(0.0);
                JsonValue::Number(JsonNumber::Float(n.to_string(), f as u64))
            }
        }
        serde_json::Value::String(s) => JsonValue::Str(s.clone()),
        serde_json::Value::Array(a) => JsonValue::Array(a.iter().map(to_jv).collect()),
        serde_json::Value::Object(o) => {
            JsonValue::Object(o.iter().map(|(k, v)| (k.clone(), to_jv(v))).collect())
        }
    }
}

fn make_provider(config: &str) -> Provider {
    Provider {
        id: "test".to_string(),
        name: "Test".to_string(),
        settings_config: to_jv(&serde_json::from_str(config).unwrap()),
    }
}

#[test]
fn protocol_defaults_to_anthropic_messages() {
    let p = make_provider(r#"{"baseUrl": "https://api.anthropic.com"}"#);
    assert_eq!(omp_provider_protocol(&p), OmpProtocol::AnthropicMessages);
    assert!(omp_provider_supports_anthropic_messages(&p));
    assert!(!omp_provider_supports_chat_completions(&p));
}

#[test]
fn openai_completions_provider_supports_chat_route_only() {
    let p = make_provider(
        r#"{"api": "openai-completions", "baseUrl": "https://api.openai.com/v1", "apiKey": "sk-test"}"#,
    );
    assert_eq!(omp_provider_protocol(&p), OmpProtocol::OpenAiCompletions);
    assert!(omp_provider_supports_chat_completions(&p));
    assert!(!omp_provider_supports_anthropic_messages(&p));
}

#[test]
fn type_field_is_accepted_as_read_alias() {
    let p = make_provider(r#"{"type": "openai-completions", "baseUrl": "https://api.openai.com/v1"}"#);
    assert_eq!(omp_provider_protocol(&p), OmpProtocol::OpenAiCompletions);
}

#[test]
fn model_level_api_override_qualifies_provider() {
    let p = make_provider(
        r#"{"api": "anthropic-messages", "models": [{"id": "m1", "api": "openai-completions"}]}"#,
    );
    assert!(omp_provider_supports_anthropic_messages(&p));
    assert!(omp_provider_supports_chat_completions(&p));
}

#[test]
fn anthropic_auth_uses_x_api_key_by_default_and_bearer_with_auth_header() {
    let adapter = OmpAdapter::new();
    let p = make_provider(r#"{"apiKey": "sk-ant"}"#);
    let auth = adapter.extract_auth(&p, None).unwrap();
    assert_eq!(auth.strategy, AuthStrategy::Anthropic);
    let headers = adapter.get_auth_headers(&auth).unwrap();
    assert_eq!(headers[0].0.as_str(), "x-api-key");
    assert_eq!(headers[0].1.as_str(), "sk-ant");

    let p_bearer = make_provider(r#"{"apiKey": "sk-ant", "authHeader": true}"#);
    let auth_bearer = adapter.extract_auth(&p_bearer, None).unwrap();
    assert_eq!(auth_bearer.strategy, AuthStrategy::Bearer);
    let headers = adapter.get_auth_headers(&auth_bearer).unwrap();
    assert_eq!(headers[0].0.as_str(), "authorization");
    assert_eq!(headers[0].1.as_str(), "Bearer sk-ant");
}

#[test]
fn openai_auth_is_bearer() {
    let adapter = OmpAdapter::new();
    let p = make_provider(r#"{"api": "openai-completions", "apiKey": "sk-oai"}"#);
    let auth = adapter.extract_auth(&p, None).unwrap();
    assert_eq!(auth.strategy, AuthStrategy::Bearer);
}

#[test]
fn env_template_key_resolves_from_process_env() {
    // The caller looks the variable up; `Some` is a set variable.
    assert_eq!(env_template_name("$OMP_ADAPTER_TEST_KEY").as_deref(), Some("OMP_ADAPTER_TEST_KEY"));
    assert_eq!(resolve_env_template("$OMP_ADAPTER_TEST_KEY", Some("resolved-key")), "resolved-key");
    assert_eq!(env_template_name("${OMP_ADAPTER_TEST_KEY}").as_deref(), Some("OMP_ADAPTER_TEST_KEY"));
    assert_eq!(resolve_env_template("${OMP_ADAPTER_TEST_KEY}", Some("resolved-key")), "resolved-key");
    // Unknown var falls back to the literal so the failure is visible upstream.
    assert_eq!(
        resolve_env_template("$OMP_ADAPTER_TEST_MISSING", None),
        "$OMP_ADAPTER_TEST_MISSING"
    );
    // Non-template values pass through untouched.
    assert_eq!(env_template_name("sk-literal"), None);
    assert_eq!(resolve_env_template("sk-literal", None), "sk-literal");
    // Mixed templates are not resolved (left literal).
    assert_eq!(env_template_name("prefix-$OMP_ADAPTER_TEST_KEY"), None);
    assert_eq!(
        resolve_env_template("prefix-$OMP_ADAPTER_TEST_KEY", Some("resolved-key")),
        "prefix-$OMP_ADAPTER_TEST_KEY"
    );
}

#[test]
fn build_url_handles_versioned_and_versionless_endpoints() {
    let adapter = OmpAdapter::new();
    // Anthropic-style: endpoint carries /v1
    assert_eq!(
        adapter.build_url("https://api.anthropic.com", "/v1/messages"),
        "https://api.anthropic.com/v1/messages"
    );
    assert_eq!(
        adapter.build_url("https://api.kimi.com/coding", "/v1/messages"),
        "https://api.kimi.com/coding/v1/messages"
    );
    // Base already ends with /v1 + versioned endpoint → dedupe
    assert_eq!(
        adapter.build_url("https://api.anthropic.com/v1", "/v1/messages"),
        "https://api.anthropic.com/v1/messages"
    );
    // OpenAI-style: version-less endpoint
    assert_eq!(
        adapter.build_url("https://api.openai.com/v1", "/chat/completions"),
        "https://api.openai.com/v1/chat/completions"
    );
    assert_eq!(
        adapter.build_url("https://api.openai.com", "/chat/completions"),
        "https://api.openai.com/v1/chat/completions"
    );
    assert_eq!(
        adapter.build_url("https://gateway.example.com/openai", "/chat/completions"),
        "https://gateway.example.com/openai/chat/completions"
    );
}

#[test]
fn extract_base_url_reads_camel_or_snake_case() {
    let adapter = OmpAdapter::new();
    let p = make_provider(r#"{"baseUrl": "https://a.example.com/"}"#);
    assert_eq!(adapter.extract_base_url(&p).unwrap(), "https://a.example.com");
    let p2 = make_provider(r#"{"base_url": "https://b.example.com"}"#);
    assert_eq!(adapter.extract_base_url(&p2).unwrap(), "https://b.example.com");
    let p3 = make_provider("{}");
    assert!(adapter.extract_base_url(&p3).is_err());
}

#[test]
fn header_values_with_control_bytes_are_refused() {
    assert_eq!(auth_header_value("sk-ant").unwrap(), "sk-ant");
    assert!(auth_header_value("bad\nvalue").is_err());
    let adapter = OmpAdapter::new();
    let auth = AuthInfo::new("sk\u{7f}x".to_string(), AuthStrategy::Bearer);
    assert!(adapter.get_auth_headers(&auth).is_err());
}

#[test]
fn origin_only_urls_are_recognized() {
    assert!(is_origin_only_url("https://api.openai.com"));
    assert!(!is_origin_only_url("https://gateway.example.com/openai"));
    assert!(!is_origin_only_url("api.openai.com"));
}

#[test]
fn adapter_name_and_key_template() {
    let adapter = OmpAdapter::new();
    assert_eq!(adapter.name(), "Omp");
    let p = make_provider(r#"{"apiKey": "$MY_KEY"}"#);
    assert_eq!(adapter.key_template_name(&p).as_deref(), Some("MY_KEY"));
    assert_eq!(adapter.extract_key(&p, Some("v")).as_deref(), Some("v"));
    assert_eq!(adapter.extract_key(&p, None).as_deref(), Some("$MY_KEY"));
}
