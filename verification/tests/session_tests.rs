use cc_switch_agents::json::{JsonNumber, JsonValue};
use cc_switch_agents::kimi_sessions::{
    self as kimi, probe_wire, scan_sessions, wire_path, DirSession, IndexEntry, IndexedSession,
};
use cc_switch_agents::pi_sessions::{self as pi, probe_session_file};
use cc_switch_agents::session_text::{extract_text, parse_timestamp_to_ms, truncate_summary};
use cc_switch_agents::session_usage::{
    jsonl_lines, normalize_to_ms, parse_kimi_usage_events, parse_ts_seconds, parse_wire_time_ms, parse_pi_usage_events, pi_request_id, plan_kimicode_rows,
    plan_pi_rows, sync_kimicode_usage, sync_pi_usage,
};

fn to_jv(v: &serde_json::Value) -> JsonValue {
    match v {
        serde_json::Value::Null => JsonValue::Null,
        serde_json::Value::Bool(b) => JsonValue::Bool(*b),
        serde_json::Value::Number(n) => {
            if let Some(u) = n.as_u64() {
                JsonValue::Number(JsonNumber::PosInt(u))
            } else if let Some(i) = n.as_i64() {
                JsonValue::Number(JsonNumber::NegInt(i))
            } else {
                let f = n.as_f64().unwrap_or(0.0);
                JsonValue::Number(JsonNumber::Float(n.to_string(), f as u64))
            }
        }
        serde_json::Value::String(s) => JsonValue::Str(s.clone()),
        serde_json::Value::Array(a) => JsonValue::Array(a.iter().map(to_jv).collect()),
        serde_json::Value::Object(o) => {
            JsonValue::Object(o.iter().map(|(k, v)| (k.clone(), to_jv(v))).collect())
        }
    }
}

/// The parsed lines of a JSON-lines text, as the app reads a log.
fn records(content: &str) -> Vec<JsonValue> {
    jsonl_lines(content)
        .iter()
        .filter_map(|l| serde_json::from_str::<serde_json::Value>(l).ok())
        .map(|v| to_jv(&v))
        .collect()
}

fn jv(text: &str) -> JsonValue {
    to_jv(&serde_json::from_str(text).unwrap())
}

fn sample_turn_line(time_ms: i64, model: &str, input: u32, output: u32, cache_read: u32) -> String {
    format!(
        r#"{{"type":"usage.record","model":"{model}","usage":{{"inputOther":{input},"output":{output},"inputCacheRead":{cache_read},"inputCacheCreation":0}},"usageScope":"turn","time":{time_ms}}}"#
    )
}

#[test]
fn parse_turn_records_skips_session_scope() {
    let content = format!(
        "{}\n{}\n{}",
        sample_turn_line(1_700_000_000_000, "kimi-code/kimi-for-coding", 100, 20, 50),
        r#"{"type":"usage.record","model":"kimi-code/kimi-for-coding","usage":{"inputOther":999,"output":9,"inputCacheRead":1,"inputCacheCreation":0},"usageScope":"session","time":1700000001000}"#,
        sample_turn_line(1_700_000_002_000, "kimi-code/k3", 10, 5, 0),
    );
    let events = parse_kimi_usage_events(&records(&content));
    assert_eq!(events.len(), 2);
    assert_eq!(events[0].model, "kimi-code/kimi-for-coding");
    assert_eq!(events[0].input_tokens, 100);
    assert_eq!(events[0].cache_read_tokens, 50);
    assert_eq!(events[0].seq, 0);
    assert_eq!(events[0].created_at, 1_700_000_000);
    assert_eq!(events[1].model, "kimi-code/k3");
    assert_eq!(events[1].seq, 1);
}

#[test]
fn parse_ignores_non_usage_lines() {
    let content = r#"
{"type":"metadata","created_at":1}
{"type":"context.append_loop_event","event":{"type":"step.end","usage":{"inputOther":1,"output":1,"inputCacheRead":0,"inputCacheCreation":0}},"time":1700000000000}
"#;
    assert!(parse_kimi_usage_events(&records(content)).is_empty());
}

#[test]
fn kimi_sync_plans_rows_and_skips_zero() {
    let content = format!(
        "{}\n{}",
        sample_turn_line(1_700_000_000_000, "kimi-code/k3", 11260, 33, 13824),
        sample_turn_line(1_700_000_001_000, "kimi-code/k3", 0, 0, 0),
    );
    let events = parse_kimi_usage_events(&records(&content));
    let (rows, skipped) = plan_kimicode_rows("session_abc-123", &events);
    assert_eq!(skipped, 1);
    assert_eq!(rows.len(), 1);
    assert_eq!(rows[0].1, 0);
    assert_eq!(
        rows[0].0,
        "kimicode_session:session_abc-123:1700000000000:0:kimi-code/k3:11260:33:13824:0"
    );
}

const HEADER: &str = r#"{"type":"session","version":3,"id":"sess-abc","timestamp":"2026-07-25T04:53:39.624Z","cwd":"/tmp/project"}"#;

fn assistant_line(id: &str, ts: &str, model: &str, input: u32, output: u32, cache_read: u32, cache_write: u32) -> String {
    format!(
        r#"{{"type":"message","id":"{id}","parentId":null,"timestamp":"{ts}","message":{{"role":"assistant","content":[{{"type":"text","text":"ok"}}],"provider":"kimi-coding","model":"{model}","usage":{{"input":{input},"output":{output},"cacheRead":{cache_read},"cacheWrite":{cache_write},"totalTokens":{}}},"stopReason":"stop","timestamp":1784955336023}}}}"#,
        input + output + cache_read + cache_write
    )
}

#[test]
fn parse_extracts_assistant_usage_and_skips_others() {
    let content = format!(
        "{}\n{}\n{}\n{}\n{}\n",
        HEADER,
        r#"{"type":"model_change","id":"568f71d3","timestamp":"2026-07-25T04:53:39.930Z","provider":"kimi-coding","modelId":"k3-256k"}"#,
        r#"{"type":"message","id":"694904fe","timestamp":"2026-07-25T04:55:27.834Z","message":{"role":"user","content":[{"type":"text","text":"hi"}],"timestamp":1784955327824}}"#,
        assistant_line("666c87cd", "2026-07-25T04:55:36.023Z", "k3-256k", 20420, 124, 512, 0),
        r#"{"type":"message","id":"t1","timestamp":"2026-07-25T04:55:40.000Z","message":{"role":"toolResult","toolName":"bash","content":[{"type":"text","text":"x"}],"timestamp":1784955340000}}"#,
    );
    let (session_id, events) = parse_pi_usage_events(&records(&content), Some("x"));
    assert_eq!(session_id, "sess-abc");
    assert_eq!(events.len(), 1);
    let e = &events[0];
    assert_eq!(e.entry_id, "666c87cd");
    assert_eq!(e.model, "k3-256k");
    assert_eq!(e.input_tokens, 20420);
    assert_eq!(e.output_tokens, 124);
    assert_eq!(e.cache_read_tokens, 512);
    assert_eq!(e.cache_creation_tokens, 0);
    assert!(e.created_at > 1_700_000_000);
}

#[test]
fn parse_extracts_compaction_and_branch_summary_usage() {
    let compaction = r#"{"type":"compaction","id":"cmp00001","parentId":"msg-prev","timestamp":"2026-07-25T05:00:00.000Z","summary":"...","firstKeptEntryId":"msg-keep","tokensBefore":180000,"usage":{"input":20420,"output":512,"cacheRead":1024,"cacheWrite":0,"totalTokens":21956,"cost":{"input":0.001,"output":0.0001,"cacheRead":0.0001,"cacheWrite":0,"total":0.0012}}}"#;
    let branch_summary = r#"{"type":"branch_summary","id":"bs000001","parentId":"branch-fork","timestamp":"2026-07-25T05:30:00.000Z","fromId":"msg-from","summary":"branch dropped","usage":{"input":4096,"output":256,"cacheRead":0,"cacheWrite":0,"totalTokens":4352,"cost":{"input":0,"output":0,"cacheRead":0,"cacheWrite":0,"total":0}}}"#;
    let compaction_no_usage = r#"{"type":"compaction","id":"cmp00002","timestamp":"2026-07-25T05:31:00.000Z"}"#;
    let compaction_no_id = r#"{"type":"compaction","timestamp":"2026-07-25T05:32:00.000Z","usage":{"input":1,"output":2,"cacheRead":3,"cacheWrite":4,"totalTokens":10,"cost":{"input":0,"output":0,"cacheRead":0,"cacheWrite":0,"total":0}}}"#;
    let content = format!("{HEADER}\n{compaction}\n{branch_summary}\n{compaction_no_usage}\n{compaction_no_id}\n");

    let (_session_id, events) = parse_pi_usage_events(&records(&content), Some("x"));
    assert_eq!(events.len(), 2, "two summary events with usage + id must be captured");
    let a = events.iter().find(|e| e.entry_id == "cmp00001").expect("compaction event");
    assert_eq!(a.model, "_pi_summary");
    assert_eq!(a.input_tokens, 20420);
    assert_eq!(a.output_tokens, 512);
    assert_eq!(a.cache_read_tokens, 1024);
    assert_eq!(a.cache_creation_tokens, 0);
    assert!(a.created_at > 1_700_000_000, "RFC3339 timestamp must parse");

    let b = events.iter().find(|e| e.entry_id == "bs000001").expect("branch_summary event");
    assert_eq!(b.model, "_pi_summary");
    assert_eq!(b.input_tokens, 4096);
    assert_eq!(b.output_tokens, 256);
}

#[test]
fn parse_falls_back_to_filename_uuid_and_message_ts() {
    let content = format!(
        "{}\n",
        r#"{"type":"message","id":"aa11bb22","message":{"role":"assistant","model":"m","usage":{"input":1,"output":2,"cacheRead":0,"cacheWrite":0},"timestamp":1700000000000}}"#
    );
    let (session_id, events) = parse_pi_usage_events(
        &records(&content),
        Some("2026-07-25T04-53-39-624Z_019f979f-2ea8-7e64-a5d8-6248a0848568"),
    );
    assert_eq!(session_id, "019f979f-2ea8-7e64-a5d8-6248a0848568");
    assert_eq!(events.len(), 1);
    assert_eq!(events[0].created_at, 1_700_000_000);
}

#[test]
fn pi_sync_plans_rows_and_skips_zero() {
    let content = format!(
        "{}\n{}\n{}\n",
        HEADER,
        assistant_line("666c87cd", "2026-07-25T04:55:36.023Z", "k3-256k", 100, 20, 10, 0),
        assistant_line("88888888", "2026-07-25T04:55:38.023Z", "k3-256k", 0, 0, 0, 0),
    );
    let (session_id, events) = parse_pi_usage_events(&records(&content), None);
    let (rows, skipped) = plan_pi_rows(&session_id, &events);
    assert_eq!(skipped, 1);
    assert_eq!(rows.len(), 1);
    assert_eq!(rows[0].0, "pi_session:sess-abc:666c87cd");
    assert_eq!(pi_request_id(&session_id, &events[0]), "pi_session:sess-abc:666c87cd");
}

const PI_HEADER: &str = r#"{"type":"session","version":3,"id":"019f979f-2ea8-7e64-a5d8-6248a0848568","timestamp":"2026-07-25T04:53:39.624Z","cwd":"/tmp/project"}"#;

#[test]
fn probe_extracts_header_first_user_and_last_ts() {
    let content = [
        PI_HEADER,
        r#"{"type":"model_change","id":"568f71d3","parentId":null,"timestamp":"2026-07-25T04:53:39.930Z","provider":"kimi-coding","modelId":"k3-256k"}"#,
        r#"{"type":"message","id":"694904fe","parentId":"306be0bf","timestamp":"2026-07-25T04:55:27.834Z","message":{"role":"user","content":[{"type":"text","text":"add a feature please"}],"timestamp":1784955327824}}"#,
        r#"{"type":"message","id":"666c87cd","parentId":"694904fe","timestamp":"2026-07-25T04:55:36.023Z","message":{"role":"assistant","content":[{"type":"text","text":"on it"}],"timestamp":1784955336023}}"#,
    ]
    .join("\n");
    let path = "/tmp/--tmp-project--/2026-07-25T04-53-39-624Z_019f979f-2ea8-7e64-a5d8-6248a0848568.jsonl";
    let meta = probe_session_file(
        &records(&content),
        Some("2026-07-25T04-53-39-624Z_019f979f-2ea8-7e64-a5d8-6248a0848568"),
        path,
    )
    .expect("meta");
    assert_eq!(meta.provider_id, "pi");
    assert_eq!(meta.session_id, "019f979f-2ea8-7e64-a5d8-6248a0848568");
    assert_eq!(meta.project_dir.as_deref(), Some("/tmp/project"));
    assert_eq!(meta.title.as_deref(), Some("add a feature please"));
    assert_eq!(
        meta.created_at,
        parse_timestamp_to_ms(&JsonValue::Str("2026-07-25T04:53:39.624Z".into()))
    );
    assert!(
        meta.last_active_at.unwrap() > meta.created_at.unwrap(),
        "last_active must come from the newest entry"
    );
    assert_eq!(
        meta.resume_command.as_deref(),
        Some("pi --session 019f979f-2ea8-7e64-a5d8-6248a0848568")
    );
    assert_eq!(meta.source_path.as_deref(), Some(path));
}

#[test]
fn probe_rejects_files_without_session_header() {
    let content = r#"{"type":"message","id":"a","timestamp":"2026-07-25T04:55:27.834Z","message":{"role":"user","content":[{"type":"text","text":"hi"}]}}"#;
    assert!(probe_session_file(
        &records(content),
        Some("x_019f979f-0000-0000-0000-000000000000"),
        "/tmp/x_019f979f-0000-0000-0000-000000000000.jsonl"
    )
    .is_none());
    assert!(probe_session_file(&Vec::new(), Some("x"), "/tmp/x.jsonl").is_none());
}

#[test]
fn load_messages_maps_roles_and_skips_thinking() {
    let content = [
        PI_HEADER,
        r#"{"type":"message","id":"u1","timestamp":"2026-07-25T04:55:27.834Z","message":{"role":"user","content":[{"type":"text","text":"hello pi"}],"timestamp":1784955327824}}"#,
        r#"{"type":"message","id":"a1","timestamp":"2026-07-25T04:55:36.023Z","message":{"role":"assistant","content":[{"type":"thinking","thinking":"secret"},{"type":"text","text":"hi there"},{"type":"toolCall","name":"bash","arguments":{}}],"timestamp":1784955336023}}"#,
        r#"{"type":"message","id":"t1","timestamp":"2026-07-25T04:55:40.000Z","message":{"role":"toolResult","toolCallId":"x","toolName":"bash","content":[{"type":"text","text":"total 3"}],"isError":false,"timestamp":1784955340000}}"#,
    ]
    .join("\n");
    let messages = pi::load_messages(&records(&content));
    assert_eq!(messages.len(), 3);
    assert_eq!(messages[0].role, "user");
    assert_eq!(messages[0].content, "hello pi");
    assert_eq!(messages[0].ts, Some(1784955327834));
    assert_eq!(messages[1].role, "assistant");
    assert_eq!(messages[1].content, "hi there\n[Tool: bash]");
    assert_eq!(messages[2].role, "tool");
    assert_eq!(messages[2].content, "total 3");
}

#[test]
fn pi_session_root_follows_settings_then_env() {
    let roots = pi::session_roots(None, None, "/home/u/.pi/agent", "/home/u");
    assert_eq!(roots, vec!["/home/u/.pi/agent/sessions".to_string()]);
    let settings = jv(r#"{"sessionDir": "~/pi-sessions"}"#);
    let roots = pi::session_roots(Some(&settings), Some("/env/dir"), "/home/u/.pi/agent", "/home/u");
    assert_eq!(roots, vec!["/home/u/pi-sessions".to_string()]);
    let roots = pi::session_roots(None, Some(" /env/dir "), "/home/u/.pi/agent", "/home/u");
    assert_eq!(roots, vec!["/env/dir".to_string()]);
}

#[test]
fn kimi_probe_reads_times_and_first_user_message() {
    let content = [
        r#"{"type":"metadata","created_at":1700000000}"#,
        r#"{"type":"user.message","content":"  fix the build  ","time":1700000001000}"#,
        r#"{"type":"assistant.message","content":[{"type":"text","text":"done"}],"time":1700000002000}"#,
        r#"{"type":"user.message","content":"second","time":1700000003}"#,
    ]
    .join("\n");
    let (created, updated, title) = probe_wire(&records(&content));
    assert_eq!(created, Some(1_700_000_000_000));
    assert_eq!(updated, Some(1_700_000_003_000));
    assert_eq!(title.as_deref(), Some("fix the build"));
}

#[test]
fn kimi_scan_prefers_index_then_directories() {
    let wire = records(r#"{"type":"user","text":"hello","time":1700000001000}"#);
    let dirs = vec![
        DirSession { session_id: String::new(), session_dir: "/s/wd/x".into(), wire: Vec::new() },
        DirSession { session_id: "session_b".into(), session_dir: "/s/wd/session_b".into(), wire: Vec::new() },
    ];
    let index = vec![IndexedSession {
        entry: IndexEntry {
            session_id: "session_a".into(),
            session_dir: "/s/wd/session_a".into(),
            work_dir: Some("/work".into()),
        },
        wire,
    }];
    let listed = scan_sessions(Some(&index), &dirs);
    assert_eq!(listed.len(), 1);
    let m = &listed[0];
    assert_eq!(m.provider_id, "kimicode");
    assert_eq!(m.session_id, "session_a");
    assert_eq!(m.title.as_deref(), Some("hello"));
    assert_eq!(m.summary.as_deref(), Some("hello"));
    assert_eq!(m.project_dir.as_deref(), Some("/work"));
    assert_eq!(m.created_at, None);
    assert_eq!(m.last_active_at, Some(1_700_000_001_000));
    assert_eq!(m.source_path.as_deref(), Some("/s/wd/session_a/agents/main/wire.jsonl"));
    assert_eq!(m.resume_command.as_deref(), Some("kimi --resume session_a"));

    // An empty index falls back to the directories, skipping unnamed ones.
    let listed = scan_sessions(Some(&Vec::new()), &dirs);
    assert_eq!(listed.len(), 1);
    assert_eq!(listed[0].session_id, "session_b");
    assert_eq!(listed[0].project_dir, None);
    let listed = scan_sessions(None, &dirs);
    assert_eq!(listed.len(), 1);
    assert_eq!(wire_path("/s/wd/session_b"), "/s/wd/session_b/agents/main/wire.jsonl");
    assert_eq!(kimi::session_roots("/home/u/.kimi-code"), vec!["/home/u/.kimi-code/sessions".to_string()]);
}

#[test]
fn kimi_load_messages_maps_roles_and_times() {
    let content = [
        r#"{"type":"metadata","created_at":1}"#,
        r#"{"type":"user.message","content":"hi","time":"2026-07-25T04:55:27.834Z"}"#,
        r#"{"type":"assistant.message","message":{"text":"hello"},"timestamp":1700000000}"#,
        r#"{"type":"tool.result","content":"","created_at":1700000000123}"#,
        r#"{"type":"system","content":"   "}"#,
        r#"{"type":"custom.user.event","text":"u"}"#,
        r#"{"type":"usage","content":"x"}"#,
        r#"{"type":"other","content":"x"}"#,
    ]
    .join("\n");
    let messages = kimi::load_messages(&records(&content));
    assert_eq!(messages.len(), 4);
    assert_eq!(messages[0].role, "user");
    assert_eq!(messages[0].ts, Some(1784955327834));
    assert_eq!(messages[1].role, "assistant");
    assert_eq!(messages[1].content, "hello");
    assert_eq!(messages[1].ts, Some(1_700_000_000_000));
    assert_eq!(messages[2].role, "tool");
    assert_eq!(messages[2].content, "");
    assert_eq!(messages[2].ts, Some(1_700_000_000_123));
    assert_eq!(messages[3].role, "user");
    assert_eq!(messages[3].content, "u");
    assert_eq!(messages[3].ts, None);
}

#[test]
fn text_and_titles() {
    assert_eq!(extract_text(&jv(r#""plain""#)), "plain");
    assert_eq!(
        extract_text(&jv(r#"[{"text":"a"},{"content":[{"text":"b"}]},{"text":"  "},{"x":1},"s"]"#)),
        "a\nb"
    );
    assert_eq!(extract_text(&jv(r#"{"text":"t"}"#)), "t");
    assert_eq!(extract_text(&jv("3")), "");
    assert_eq!(truncate_summary("  short  ", 80), "short");
    let long = "x".repeat(100);
    assert_eq!(truncate_summary(&long, 80), format!("{}...", "x".repeat(80)));
    assert_eq!(parse_timestamp_to_ms(&jv("1700000000")), None);
    assert_eq!(parse_timestamp_to_ms(&jv(r#""not a date""#)), None);
    assert_eq!(parse_timestamp_to_ms(&jv(r#""1970-01-01T00:00:01Z""#)), Some(1000));
}

#[test]
fn timestamps_in_seconds_and_milliseconds() {
    assert_eq!(parse_ts_seconds(&jv(r#""1970-01-01T00:00:02.500Z""#)), Some(2));
    assert_eq!(parse_ts_seconds(&jv("1700000000123")), Some(1_700_000_000));
    assert_eq!(parse_ts_seconds(&jv("1700000000")), Some(1_700_000_000));
    assert_eq!(parse_ts_seconds(&jv("true")), None);
    assert_eq!(parse_wire_time_ms(Some(&jv(r#""1970-01-01T00:00:01Z""#))), Some(1000));
    assert_eq!(parse_wire_time_ms(Some(&jv("18446744073709551615"))), Some(i64::MAX));
    assert_eq!(parse_wire_time_ms(None), None);
    assert_eq!(normalize_to_ms(1_700_000_000), 1_700_000_000_000);
    assert_eq!(normalize_to_ms(5), 5);
}

#[test]
fn usage_sync_sums_files_and_keeps_going_after_errors() {
    let outcomes: Vec<Result<(usize, usize), String>> =
        vec![Ok((2, 1)), Err("bad file".to_string()), Ok((1, 0))];
    let r = sync_kimicode_usage(&outcomes);
    assert_eq!(r.files_scanned, 3);
    assert_eq!(r.imported, 3);
    assert_eq!(r.skipped, 1);
    assert_eq!(r.errors, vec!["bad file".to_string()]);
    let p = sync_pi_usage(&outcomes);
    assert_eq!(p.files_scanned, 3);
    assert_eq!(p.imported, 3);
    assert_eq!(p.skipped, 1);
    assert_eq!(p.errors, vec!["bad file".to_string()]);
    let empty = sync_pi_usage(&Vec::new());
    assert_eq!(empty.files_scanned, 0);
    assert!(empty.errors.is_empty());
}
