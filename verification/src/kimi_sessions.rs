//! Kimi Code sessions for the session browser.
//!
//! The index `session_index.jsonl` lists `{sessionId, sessionDir, workDir}`;
//! the messages of a session are the lines of
//! `<sessionDir>/agents/main/wire.jsonl`. Listing directories, reading the
//! files and parsing each line are the caller's part: the functions here take
//! the parsed lines.
use vstd::prelude::*;
use crate::json::{jview, jview_seq, lemma_jview_seq, vfield, vi64, vstr, vu64, JsonNumber, JsonValue, JsonView, NumView};
use crate::kimi_config::{get_kimi_code_sessions_dir, path_join, spec_path_join};
use crate::session_text::{
    extract_text, messages_view, metas_view, parse_timestamp_to_ms, spec_timestamp_ms,
    spec_truncate_summary, text_of, truncate_summary, MessageView, SessionMessage, SessionMeta,
    SessionMetaView, TITLE_MAX_CHARS,
};
use crate::session_usage::{normalize_to_ms, spec_normalize_to_ms};
use crate::strops::{contains_seq, str_contains};
use crate::text::{clone_opt, opt_view, push_str, str_eq, to_string, trim, trim_str};

verus! {

/// One line of the session index.
#[derive(Clone, Debug)]
pub struct IndexEntry {
    pub session_id: String,
    pub session_dir: String,
    pub work_dir: Option<String>,
}

/// A session named by the index whose directory exists, with the parsed
/// lines of its wire log (none when the log is missing).
#[derive(Debug)]
pub struct IndexedSession {
    pub entry: IndexEntry,
    pub wire: Vec<JsonValue>,
}

/// A session directory found under a work-directory bucket of the sessions
/// root, whose wire log exists, with the parsed lines of that log.
#[derive(Debug)]
pub struct DirSession {
    pub session_id: String,
    pub session_dir: String,
    pub wire: Vec<JsonValue>,
}

/// The directories the session browser watches: the sessions directory of
/// the Kimi Code home `dir`.
pub fn session_roots(dir: &str) -> (r: Vec<String>)
    ensures
        r@.len() == 1,
        r@[0]@ == spec_path_join(dir@, "sessions"@),
{
    let mut v: Vec<String> = Vec::new();
    v.push(get_kimi_code_sessions_dir(dir));
    v
}

/// `<session_dir>/agents/main/wire.jsonl`.
pub open spec fn spec_wire_path(session_dir: Seq<char>) -> Seq<char> {
    spec_path_join(spec_path_join(spec_path_join(session_dir, "agents"@), "main"@), "wire.jsonl"@)
}

/// The wire log of a session directory.
pub fn wire_path(session_dir: &str) -> (r: String)
    ensures
        r@ == spec_wire_path(session_dir@),
{
    let a = path_join(session_dir, "agents");
    let m = path_join(a.as_str(), "main");
    path_join(m.as_str(), "wire.jsonl")
}

// ============================================================================
// Reading a wire log
// ============================================================================

/// The `type` of a record, empty when it has none.
pub open spec fn type_of(r: JsonView) -> Seq<char> {
    match vstr(vfield(r, "type"@)) {
        Some(t) => t,
        None => seq![],
    }
}

/// The text of a record: the non-empty text of `content`, else the `text`
/// string, else the text of `message`.
pub open spec fn message_text(r: JsonView) -> Seq<char> {
    let from_content = match vfield(r, "content"@) {
        Some(c) => text_of(c),
        None => seq![],
    };
    if from_content.len() > 0 {
        from_content
    } else {
        match vstr(vfield(r, "text"@)) {
            Some(t) => t,
            None => match vfield(r, "message"@) {
                Some(m) => text_of(m),
                None => seq![],
            },
        }
    }
}

/// An integer as `as_i64`, else `as_u64` cast to `i64`.
pub open spec fn int_of(v: Option<JsonView>) -> Option<i64> {
    match vi64(v) {
        Some(t) => Some(t),
        None => match vu64(v) {
            Some(u) => Some(u as i64),
            None => None,
        },
    }
}

/// The time a record carries: `time`, else `timestamp`, else `created_at`,
/// the first that is an `i64`.
pub open spec fn record_time(r: JsonView) -> Option<i64> {
    match vi64(vfield(r, "time"@)) {
        Some(t) => Some(t),
        None => match vi64(vfield(r, "timestamp"@)) {
            Some(t) => Some(t),
            None => vi64(vfield(r, "created_at"@)),
        },
    }
}

pub open spec fn is_user_type(t: Seq<char>) -> bool {
    t == "user.message"@ || t == "user"@
}

/// What a wire log tells of its session: when it was created (the last
/// `metadata` record's `created_at`), when it was last active (the last
/// record's time), and a title (the first non-blank user message, cut);
/// times normalized to milliseconds.
pub open spec fn kimi_probe(recs: Seq<JsonView>) -> (Option<i64>, Option<i64>, Option<Seq<char>>)
    decreases recs.len(),
{
    if recs.len() == 0 {
        (None, None, None)
    } else {
        let p = kimi_probe(recs.drop_last());
        let r = recs.last();
        let typ = type_of(r);
        let created = if typ == "metadata"@ {
            match int_of(vfield(r, "created_at"@)) {
                Some(ts) => Some(spec_normalize_to_ms(ts)),
                None => p.0,
            }
        } else {
            p.0
        };
        let updated = match record_time(r) {
            Some(ts) => Some(spec_normalize_to_ms(ts)),
            None => p.1,
        };
        let first = if p.2 is None && is_user_type(typ) {
            let t = message_text(r);
            if trim(t).len() > 0 {
                Some(spec_truncate_summary(t, TITLE_MAX_CHARS as nat))
            } else {
                None
            }
        } else {
            p.2
        };
        (created, updated, first)
    }
}

fn type_exec(v: &JsonValue) -> (r: String)
    ensures
        r@ == type_of(jview(*v)),
{
    match v.get("type") {
        Some(JsonValue::Str(s)) => s.clone(),
        _ => String::new(),
    }
}

fn int_exec(v: Option<&JsonValue>) -> (r: Option<i64>)
    ensures
        r == int_of(
            match v {
                Some(x) => Some(jview(*x)),
                None => None,
            },
        ),
{
    match v {
        Some(JsonValue::Number(JsonNumber::PosInt(u))) => {
            Some(*u as i64)
        },
        Some(JsonValue::Number(JsonNumber::NegInt(i))) => Some(*i),
        _ => None,
    }
}

fn i64_field(v: &JsonValue, k: &str) -> (r: Option<i64>)
    ensures
        r == vi64(vfield(jview(*v), k@)),
{
    match v.get(k) {
        Some(x) => x.as_i64(),
        None => None,
    }
}

fn record_time_exec(v: &JsonValue) -> (r: Option<i64>)
    ensures
        r == record_time(jview(*v)),
{
    match i64_field(v, "time") {
        Some(t) => Some(t),
        None => match i64_field(v, "timestamp") {
            Some(t) => Some(t),
            None => i64_field(v, "created_at"),
        },
    }
}

/// The text of a record (see `message_text`).
pub fn extract_message_text(v: &JsonValue) -> (r: String)
    ensures
        r@ == message_text(jview(*v)),
{
    match v.get("content") {
        Some(c) => {
            let t = extract_text(c);
            if !t.as_str().is_empty() {
                return t;
            }
        },
        None => {},
    }
    match v.get("text") {
        Some(JsonValue::Str(s)) => {
            return s.clone();
        },
        _ => {},
    }
    match v.get("message") {
        Some(m) => extract_text(m),
        None => String::new(),
    }
}

/// Created time, last activity and title of a session from its wire log
/// (see `kimi_probe`).
pub fn probe_wire(records: &Vec<JsonValue>) -> (r: (Option<i64>, Option<i64>, Option<String>))
    ensures
        (r.0, r.1, opt_view(r.2)) == kimi_probe(jview_seq(records@)),
{
    let ghost recs = jview_seq(records@);
    proof {
        lemma_jview_seq(records@);
    }
    let mut created: Option<i64> = None;
    let mut updated: Option<i64> = None;
    let mut first: Option<String> = None;
    let mut i: usize = 0;
    while i < records.len()
        invariant
            0 <= i <= records.len(),
            recs == jview_seq(records@),
            recs.len() == records.len(),
            forall|j: int| 0 <= j < records.len() ==> #[trigger] recs[j] == jview(records@[j]),
            (created, updated, opt_view(first)) == kimi_probe(recs.subrange(0, i as int)),
        decreases records.len() - i,
    {
        proof {
            let t = recs.subrange(0, i + 1);
            assert(t.drop_last() =~= recs.subrange(0, i as int));
            assert(t.last() == recs[i as int]);
        }
        let v = &records[i];
        let typ = type_exec(v);
        if str_eq(typ.as_str(), "metadata") {
            match int_exec(v.get("created_at")) {
                Some(ts) => {
                    created = Some(normalize_to_ms(ts));
                },
                None => {},
            }
        }
        match record_time_exec(v) {
            Some(ts) => {
                updated = Some(normalize_to_ms(ts));
            },
            None => {},
        }
        if first.is_none() && (str_eq(typ.as_str(), "user.message") || str_eq(typ.as_str(), "user")) {
            let text = extract_message_text(v);
            let t = trim_str(text.as_str());
            if !t.as_str().is_empty() {
                first = Some(truncate_summary(text.as_str(), TITLE_MAX_CHARS));
            }
        }
        i = i + 1;
    }
    assert(recs.subrange(0, records.len() as int) =~= recs);
    (created, updated, first)
}

// ============================================================================
// Listing sessions
// ============================================================================

/// The listing of one session.
pub open spec fn spec_meta(
    session_id: Seq<char>,
    project_dir: Option<Seq<char>>,
    session_dir: Seq<char>,
    recs: Seq<JsonView>,
) -> SessionMetaView {
    let p = kimi_probe(recs);
    SessionMetaView {
        provider_id: "kimicode"@,
        session_id,
        title: p.2,
        summary: p.2,
        project_dir,
        created_at: p.0,
        last_active_at: match p.1 {
            Some(u) => Some(u),
            None => p.0,
        },
        source_path: Some(spec_wire_path(session_dir)),
        resume_command: Some("kimi --resume "@ + session_id),
    }
}

fn meta_of(session_id: &str, project_dir: Option<String>, session_dir: &str, wire: &Vec<JsonValue>) -> (r:
    SessionMeta)
    ensures
        r@ == spec_meta(session_id@, opt_view(project_dir), session_dir@, jview_seq(wire@)),
{
    let (created, updated, summary) = probe_wire(wire);
    let title = clone_opt(&summary);
    let mut resume = to_string("kimi --resume ");
    push_str(&mut resume, session_id);
    SessionMeta {
        provider_id: to_string("kimicode"),
        session_id: to_string(session_id),
        title,
        summary,
        project_dir,
        created_at: created,
        last_active_at: match updated {
            Some(u) => Some(u),
            None => created,
        },
        source_path: Some(wire_path(session_dir)),
        resume_command: Some(resume),
    }
}

/// The listing of each indexed session, in index order.
pub open spec fn index_metas(s: Seq<IndexedSession>) -> Seq<SessionMetaView> {
    Seq::new(
        s.len(),
        |i: int|
            spec_meta(
                s[i].entry.session_id@,
                opt_view(s[i].entry.work_dir),
                s[i].entry.session_dir@,
                jview_seq(s[i].wire@),
            ),
    )
}

/// The listing of each session found by walking the directories, skipping
/// those with an empty name, in order.
pub open spec fn dir_metas(s: Seq<DirSession>) -> Seq<SessionMetaView>
    decreases s.len(),
{
    if s.len() == 0 {
        seq![]
    } else {
        let rest = dir_metas(s.drop_last());
        let d = s.last();
        if d.session_id@.len() == 0 {
            rest
        } else {
            rest.push(spec_meta(d.session_id@, None, d.session_dir@, jview_seq(d.wire@)))
        }
    }
}

/// Lists the sessions named by the index.
pub fn scan_from_index(entries: &Vec<IndexedSession>) -> (r: Vec<SessionMeta>)
    ensures
        metas_view(r@) == index_metas(entries@),
{
    let mut out: Vec<SessionMeta> = Vec::new();
    let mut i: usize = 0;
    while i < entries.len()
        invariant
            0 <= i <= entries.len(),
            metas_view(out@) == index_metas(entries@).subrange(0, i as int),
        decreases entries.len() - i,
    {
        let e = &entries[i];
        let m = meta_of(e.entry.session_id.as_str(), clone_opt(&e.entry.work_dir), e.entry.session_dir.as_str(), &e.wire);
        let ghost before = out@;
        out.push(m);
        proof {
            assert(metas_view(out@) =~= metas_view(before).push(m@));
            assert(index_metas(entries@).subrange(0, i + 1) =~= index_metas(entries@).subrange(
                0,
                i as int,
            ).push(m@));
        }
        i = i + 1;
    }
    assert(index_metas(entries@).subrange(0, entries.len() as int) =~= index_metas(entries@));
    out
}

/// Lists the sessions found by walking the session directories.
pub fn scan_from_dirs(sessions: &Vec<DirSession>) -> (r: Vec<SessionMeta>)
    ensures
        metas_view(r@) == dir_metas(sessions@),
{
    let mut out: Vec<SessionMeta> = Vec::new();
    let mut i: usize = 0;
    while i < sessions.len()
        invariant
            0 <= i <= sessions.len(),
            metas_view(out@) == dir_metas(sessions@.subrange(0, i as int)),
        decreases sessions.len() - i,
    {
        proof {
            let t = sessions@.subrange(0, i + 1);
            assert(t.drop_last() =~= sessions@.subrange(0, i as int));
            assert(t.last() == sessions@[i as int]);
        }
        let d = &sessions[i];
        if !d.session_id.as_str().is_empty() {
            let m = meta_of(d.session_id.as_str(), None, d.session_dir.as_str(), &d.wire);
            let ghost before = out@;
            out.push(m);
            proof {
                assert(metas_view(out@) =~= metas_view(before).push(m@));
            }
        }
        i = i + 1;
    }
    assert(sessions@.subrange(0, sessions.len() as int) =~= sessions@);
    out
}

/// The sessions listed from the index when it exists and names any, else
/// from the directories.
pub open spec fn spec_scan(index: Option<Seq<IndexedSession>>, dirs: Seq<DirSession>) -> Seq<SessionMetaView> {
    match index {
        Some(ix) => if index_metas(ix).len() > 0 {
            index_metas(ix)
        } else {
            dir_metas(dirs)
        },
        None => dir_metas(dirs),
    }
}

/// Lists the Kimi Code sessions. `index` holds the index's sessions when
/// the index file exists; `dirs` the sessions found under the sessions
/// directory.
pub fn scan_sessions(index: Option<&Vec<IndexedSession>>, dirs: &Vec<DirSession>) -> (r: Vec<SessionMeta>)
    ensures
        metas_view(r@) == spec_scan(
            match index {
                Some(ix) => Some(ix@),
                None => None,
            },
            dirs@,
        ),
{
    match index {
        Some(ix) => {
            let from_index = scan_from_index(ix);
            if from_index.len() > 0 {
                return from_index;
            }
        },
        None => {},
    }
    scan_from_dirs(dirs)
}

// ============================================================================
// Messages
// ============================================================================

/// The role shown for a record type; nothing for metadata and unknown types.
pub open spec fn kimi_role(t: Seq<char>) -> Option<Seq<char>> {
    if t == "user.message"@ || t == "user"@ {
        Some("user"@)
    } else if t == "assistant.message"@ || t == "assistant"@ {
        Some("assistant"@)
    } else if t == "system.message"@ || t == "system"@ || t == "config.update"@ {
        Some("system"@)
    } else if t == "tool"@ || t == "tool.result"@ || t == "tool_result"@ {
        Some("tool"@)
    } else if t == "metadata"@ || t == "usage"@ || t == "token.usage"@ {
        None
    } else if contains_seq(t, "user"@) {
        Some("user"@)
    } else if contains_seq(t, "assistant"@) {
        Some("assistant"@)
    } else {
        None
    }
}

/// The first of `time`, `timestamp`, `created_at` that the record has.
pub open spec fn time_field(r: JsonView) -> Option<JsonView> {
    match vfield(r, "time"@) {
        Some(v) => Some(v),
        None => match vfield(r, "timestamp"@) {
            Some(v) => Some(v),
            None => vfield(r, "created_at"@),
        },
    }
}

/// A message time: an RFC 3339 string, else an integer normalized to
/// milliseconds.
pub open spec fn message_time(v: JsonView) -> Option<i64> {
    match spec_timestamp_ms(Some(v)) {
        Some(t) => Some(t),
        None => match int_of(Some(v)) {
            Some(n) => Some(spec_normalize_to_ms(n)),
            None => None,
        },
    }
}

/// The message a record shows, if any: records of a known role whose text
/// is not blank (tool records are kept even when blank).
pub open spec fn kimi_message(r: JsonView) -> Option<MessageView> {
    match kimi_role(type_of(r)) {
        Some(role) => {
            let content = message_text(r);
            if trim(content).len() == 0 && role != "tool"@ {
                None
            } else {
                Some(
                    MessageView {
                        role,
                        content,
                        ts: match time_field(r) {
                            Some(v) => message_time(v),
                            None => None,
                        },
                    },
                )
            }
        },
        None => None,
    }
}

pub open spec fn kimi_messages(recs: Seq<JsonView>) -> Seq<MessageView>
    decreases recs.len(),
{
    if recs.len() == 0 {
        seq![]
    } else {
        let rest = kimi_messages(recs.drop_last());
        match kimi_message(recs.last()) {
            Some(m) => rest.push(m),
            None => rest,
        }
    }
}

fn role_exec(t: &str) -> (r: Option<String>)
    ensures
        opt_view(r) == kimi_role(t@),
{
    if str_eq(t, "user.message") || str_eq(t, "user") {
        Some(to_string("user"))
    } else if str_eq(t, "assistant.message") || str_eq(t, "assistant") {
        Some(to_string("assistant"))
    } else if str_eq(t, "system.message") || str_eq(t, "system") || str_eq(t, "config.update") {
        Some(to_string("system"))
    } else if str_eq(t, "tool") || str_eq(t, "tool.result") || str_eq(t, "tool_result") {
        Some(to_string("tool"))
    } else if str_eq(t, "metadata") || str_eq(t, "usage") || str_eq(t, "token.usage") {
        None
    } else if str_contains(t, "user") {
        Some(to_string("user"))
    } else if str_contains(t, "assistant") {
        Some(to_string("assistant"))
    } else {
        None
    }
}

fn message_time_exec(v: &JsonValue) -> (r: Option<i64>)
    ensures
        r == message_time(jview(*v)),
{
    match parse_timestamp_to_ms(v) {
        Some(t) => Some(t),
        None => match int_exec(Some(v)) {
            Some(n) => Some(normalize_to_ms(n)),
            None => None,
        },
    }
}

fn message_of(v: &JsonValue) -> (r: Option<SessionMessage>)
    ensures
        match r {
            Some(m) => kimi_message(jview(*v)) == Some(m@),
            None => kimi_message(jview(*v)) is None,
        },
{
    let typ = type_exec(v);
    let role = match role_exec(typ.as_str()) {
        Some(r) => r,
        None => {
            return None;
        },
    };
    let content = extract_message_text(v);
    let t = trim_str(content.as_str());
    if t.as_str().is_empty() && !str_eq(role.as_str(), "tool") {
        return None;
    }
    let field = match v.get("time") {
        Some(x) => Some(x),
        None => match v.get("timestamp") {
            Some(x) => Some(x),
            None => v.get("created_at"),
        },
    };
    let ts = match field {
        Some(x) => message_time_exec(x),
        None => None,
    };
    Some(SessionMessage { role, content, ts })
}

/// The messages of a wire log, in order (see `kimi_message`).
pub fn load_messages(records: &Vec<JsonValue>) -> (r: Vec<SessionMessage>)
    ensures
        messages_view(r@) == kimi_messages(jview_seq(records@)),
{
    let ghost recs = jview_seq(records@);
    proof {
        lemma_jview_seq(records@);
    }
    let mut out: Vec<SessionMessage> = Vec::new();
    let mut i: usize = 0;
    while i < records.len()
        invariant
            0 <= i <= records.len(),
            recs == jview_seq(records@),
            recs.len() == records.len(),
            forall|j: int| 0 <= j < records.len() ==> #[trigger] recs[j] == jview(records@[j]),
            messages_view(out@) == kimi_messages(recs.subrange(0, i as int)),
        decreases records.len() - i,
    {
        proof {
            let t = recs.subrange(0, i + 1);
            assert(t.drop_last() =~= recs.subrange(0, i as int));
            assert(t.last() == recs[i as int]);
        }
        match message_of(&records[i]) {
            Some(m) => {
                let ghost before = out@;
                out.push(m);
                proof {
                    assert(messages_view(out@) =~= messages_view(before).push(m@));
                }
            },
            None => {},
        }
        i = i + 1;
    }
    assert(recs.subrange(0, records.len() as int) =~= recs);
    out
}

} // verus!
