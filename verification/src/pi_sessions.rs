//! Pi sessions for the session browser.
//!
//! A session file `<ts>_<uuid>.jsonl` lies in a per-working-directory
//! bucket of the sessions directory. Its first line is the header
//! `{"type":"session","id":..,"timestamp":..,"cwd":..}`; entries follow,
//! among them `{"type":"message","message":{"role":..,"content":..}}`.
//! Walking the directories, reading the files and parsing each line are the
//! caller's part: the functions here take the parsed lines.
use vstd::prelude::*;
use crate::json::{jview, jview_seq, lemma_jview_seq, vfield, vstr, JsonValue, JsonView};
use crate::kimi_sessions::type_of;
use crate::omp_ops::dview;
use crate::pi_config::{get_pi_sessions_dir, ref_view, spec_pi_sessions_dir};
use crate::session_text::{
    extract_text, join_lines, messages_view, parse_timestamp_to_ms, spec_timestamp_ms,
    spec_truncate_summary, text_of, truncate_summary, MessageView, SessionMessage, SessionMeta,
    SessionMetaView, TITLE_MAX_CHARS,
};
use crate::session_usage::{pi_session_id, spec_pi_session_id};
use crate::text::{clone_opt, opt_view, push_char, push_str, str_eq, to_string, trim, trim_str};

verus! {

/// The directories the session browser watches: the Pi sessions directory
/// (see `spec_pi_sessions_dir`).
pub fn session_roots(settings: Option<&JsonValue>, env_dir: Option<&str>, dir: &str, home: &str) -> (r:
    Vec<String>)
    ensures
        r@.len() == 1,
        r@[0]@ == spec_pi_sessions_dir(ref_view(settings), dview(env_dir), dir@, home@),
{
    let mut v: Vec<String> = Vec::new();
    v.push(get_pi_sessions_dir(settings, env_dir, dir, home));
    v
}

// ============================================================================
// Probing a session file
// ============================================================================

/// The role of an entry's message, empty when it has none.
pub open spec fn message_role(r: JsonView) -> Seq<char> {
    match vfield(r, "message"@) {
        Some(m) => match vstr(vfield(m, "role"@)) {
            Some(s) => s,
            None => seq![],
        },
        None => seq![],
    }
}

/// The text of an entry's message content, empty when it has none.
pub open spec fn message_content_text(r: JsonView) -> Seq<char> {
    match vfield(r, "message"@) {
        Some(m) => match vfield(m, "content"@) {
            Some(c) => text_of(c),
            None => seq![],
        },
        None => seq![],
    }
}

/// What the header tells: id, working directory and creation time.
pub open spec fn header_of(r: JsonView) -> (Option<Seq<char>>, Option<Seq<char>>, Option<i64>) {
    (vstr(vfield(r, "id"@)), vstr(vfield(r, "cwd"@)), spec_timestamp_ms(vfield(r, "timestamp"@)))
}

/// What a session file tells of its session: nothing at all when its first
/// line is not a `session` header; else the header's id, working directory
/// and time, the time of the last entry that has one, and a title (the
/// first non-blank user message, cut).
pub open spec fn pi_probe(recs: Seq<JsonView>) -> Option<
    (Option<Seq<char>>, Option<Seq<char>>, Option<i64>, Option<i64>, Option<Seq<char>>),
>
    decreases recs.len(),
{
    if recs.len() == 0 {
        Some((None, None, None, None, None))
    } else if recs.len() == 1 {
        if type_of(recs[0]) != "session"@ {
            None
        } else {
            let h = header_of(recs[0]);
            Some((h.0, h.1, h.2, None, None))
        }
    } else {
        match pi_probe(recs.drop_last()) {
            None => None,
            Some(p) => {
                let r = recs.last();
                let updated = match spec_timestamp_ms(vfield(r, "timestamp"@)) {
                    Some(t) => Some(t),
                    None => p.3,
                };
                let first = if p.4 is None && type_of(r) == "message"@ && message_role(r) == "user"@ {
                    let t = message_content_text(r);
                    if trim(t).len() > 0 {
                        Some(spec_truncate_summary(t, TITLE_MAX_CHARS as nat))
                    } else {
                        None
                    }
                } else {
                    p.4
                };
                Some((p.0, p.1, p.2, updated, first))
            },
        }
    }
}

/// The listing of a session file, or nothing when it has no header.
pub open spec fn spec_probe_session(recs: Seq<JsonView>, file_stem: Option<Seq<char>>, path: Seq<char>) -> Option<
    SessionMetaView,
> {
    if recs.len() == 0 {
        None
    } else {
        match pi_probe(recs) {
            None => None,
            Some(p) => {
                let id = spec_pi_session_id(p.0, file_stem);
                Some(
                    SessionMetaView {
                        provider_id: "pi"@,
                        session_id: id,
                        title: p.4,
                        summary: p.4,
                        project_dir: p.1,
                        created_at: p.2,
                        last_active_at: match p.3 {
                            Some(u) => Some(u),
                            None => p.2,
                        },
                        source_path: Some(path),
                        resume_command: Some("pi --session "@ + id),
                    },
                )
            },
        }
    }
}

fn str_field(v: &JsonValue, k: &str) -> (r: Option<String>)
    ensures
        opt_view(r) == vstr(vfield(jview(*v), k@)),
{
    match v.get(k) {
        Some(JsonValue::Str(s)) => Some(s.clone()),
        _ => None,
    }
}

fn ts_field(v: &JsonValue, k: &str) -> (r: Option<i64>)
    ensures
        r == spec_timestamp_ms(vfield(jview(*v), k@)),
{
    match v.get(k) {
        Some(x) => parse_timestamp_to_ms(x),
        None => None,
    }
}

fn type_str(v: &JsonValue) -> (r: String)
    ensures
        r@ == type_of(jview(*v)),
{
    match v.get("type") {
        Some(JsonValue::Str(s)) => s.clone(),
        _ => String::new(),
    }
}

fn role_str(v: &JsonValue) -> (r: String)
    ensures
        r@ == message_role(jview(*v)),
{
    match v.get("message") {
        Some(m) => match m.get("role") {
            Some(JsonValue::Str(s)) => s.clone(),
            _ => String::new(),
        },
        None => String::new(),
    }
}

fn content_text(v: &JsonValue) -> (r: String)
    ensures
        r@ == message_content_text(jview(*v)),
{
    match v.get("message") {
        Some(m) => match m.get("content") {
            Some(c) => extract_text(c),
            None => String::new(),
        },
        None => String::new(),
    }
}

/// The listing of one session file from its parsed lines, its file stem
/// and its path; nothing when the file is not a Pi session log (see
/// `spec_probe_session`).
pub fn probe_session_file(records: &Vec<JsonValue>, file_stem: Option<&str>, path: &str) -> (r: Option<
    SessionMeta,
>)
    ensures
        match r {
            Some(m) => spec_probe_session(jview_seq(records@), dview(file_stem), path@) == Some(m@),
            None => spec_probe_session(jview_seq(records@), dview(file_stem), path@) is None,
        },
{
    let ghost recs = jview_seq(records@);
    proof {
        lemma_jview_seq(records@);
    }
    if records.len() == 0 {
        return None;
    }
    let mut sid: Option<String> = None;
    let mut cwd: Option<String> = None;
    let mut created: Option<i64> = None;
    let mut updated: Option<i64> = None;
    let mut first: Option<String> = None;
    let mut i: usize = 0;
    while i < records.len()
        invariant
            0 <= i <= records.len(),
            records.len() > 0,
            recs == jview_seq(records@),
            recs.len() == records.len(),
            forall|j: int| 0 <= j < records.len() ==> #[trigger] recs[j] == jview(records@[j]),
            pi_probe(recs.subrange(0, i as int)) == Some(
                (opt_view(sid), opt_view(cwd), created, updated, opt_view(first)),
            ),
            i == 0 ==> sid is None && cwd is None && created is None && updated is None && first is None,
        decreases records.len() - i,
    {
        proof {
            let t = recs.subrange(0, i + 1);
            assert(t.drop_last() =~= recs.subrange(0, i as int));
            assert(t.last() == recs[i as int]);
        }
        let v = &records[i];
        let typ = type_str(v);
        if i == 0 {
            proof {
                assert(recs.subrange(0, 1)[0] == recs[0]);
            }
            if !str_eq(typ.as_str(), "session") {
                proof {
                    lemma_probe_stops(recs, 1);
                }
                return None;
            }
            sid = str_field(v, "id");
            cwd = str_field(v, "cwd");
            created = ts_field(v, "timestamp");
        } else {
            match ts_field(v, "timestamp") {
                Some(t) => {
                    updated = Some(t);
                },
                None => {},
            }
            if first.is_none() && str_eq(typ.as_str(), "message") {
                let role = role_str(v);
                if str_eq(role.as_str(), "user") {
                    let text = content_text(v);
                    let tt = trim_str(text.as_str());
                    if !tt.as_str().is_empty() {
                        first = Some(truncate_summary(text.as_str(), TITLE_MAX_CHARS));
                    }
                }
            }
        }
        i = i + 1;
    }
    assert(recs.subrange(0, records.len() as int) =~= recs);
    let session_id = pi_session_id(sid, file_stem);
    let title = clone_opt(&first);
    let mut resume = to_string("pi --session ");
    push_str(&mut resume, session_id.as_str());
    Some(
        SessionMeta {
            provider_id: to_string("pi"),
            session_id,
            title,
            summary: first,
            project_dir: cwd,
            created_at: created,
            last_active_at: match updated {
                Some(u) => Some(u),
                None => created,
            },
            source_path: Some(to_string(path)),
            resume_command: Some(resume),
        },
    )
}

/// Once the probe gives up on a prefix, it gives up on every longer one.
proof fn lemma_probe_stops(recs: Seq<JsonView>, n: int)
    requires
        1 <= n <= recs.len(),
        pi_probe(recs.subrange(0, n)) is None,
    ensures
        pi_probe(recs) is None,
    decreases recs.len() - n,
{
    if n < recs.len() {
        let t = recs.subrange(0, n + 1);
        assert(t.drop_last() =~= recs.subrange(0, n));
        lemma_probe_stops(recs, n + 1);
    } else {
        assert(recs.subrange(0, n) =~= recs);
    }
}

// ============================================================================
// Messages
// ============================================================================

/// The role shown for a Pi message role.
pub open spec fn pi_role(role: Seq<char>) -> Option<Seq<char>> {
    if role == "user"@ {
        Some("user"@)
    } else if role == "assistant"@ {
        Some("assistant"@)
    } else if role == "toolResult"@ {
        Some("tool"@)
    } else {
        None
    }
}

/// The shown parts of message content items: `[Tool: name]` for a tool
/// call, nothing for thinking, else the item's non-blank text.
pub open spec fn pi_parts(items: Seq<JsonView>) -> Seq<Seq<char>>
    decreases items.len(),
{
    if items.len() == 0 {
        seq![]
    } else {
        let rest = pi_parts(items.drop_last());
        let item = items.last();
        let t = type_of(item);
        if t == "toolCall"@ {
            let name = match vstr(vfield(item, "name"@)) {
                Some(n) => n,
                None => "unknown"@,
            };
            rest.push("[Tool: "@ + name + "]"@)
        } else if t == "thinking"@ {
            rest
        } else {
            let x = text_of(item);
            if trim(x).len() > 0 {
                rest.push(x)
            } else {
                rest
            }
        }
    }
}

/// The text shown for a message's content.
pub open spec fn pi_content_text(c: JsonView) -> Seq<char> {
    match c {
        JsonView::Array(items) => join_lines(pi_parts(items)),
        _ => text_of(c),
    }
}

/// The message an entry shows, if any: a `message` entry of a known role
/// whose text is not blank (tool results are kept even when blank); its
/// time is the entry's, else the message's.
pub open spec fn pi_message(r: JsonView) -> Option<MessageView> {
    if type_of(r) != "message"@ {
        None
    } else {
        match vfield(r, "message"@) {
            None => None,
            Some(m) => {
                let role_s = match vstr(vfield(m, "role"@)) {
                    Some(s) => s,
                    None => seq![],
                };
                match pi_role(role_s) {
                    None => None,
                    Some(role) => {
                        let content = match vfield(m, "content"@) {
                            Some(c) => pi_content_text(c),
                            None => seq![],
                        };
                        if trim(content).len() == 0 && role != "tool"@ {
                            None
                        } else {
                            Some(
                                MessageView {
                                    role,
                                    content,
                                    ts: match spec_timestamp_ms(vfield(r, "timestamp"@)) {
                                        Some(t) => Some(t),
                                        None => spec_timestamp_ms(vfield(m, "timestamp"@)),
                                    },
                                },
                            )
                        }
                    },
                }
            },
        }
    }
}

pub open spec fn pi_messages(recs: Seq<JsonView>) -> Seq<MessageView>
    decreases recs.len(),
{
    if recs.len() == 0 {
        seq![]
    } else {
        let rest = pi_messages(recs.drop_last());
        match pi_message(recs.last()) {
            Some(m) => rest.push(m),
            None => rest,
        }
    }
}

fn pi_part(item: &JsonValue) -> (r: Option<String>)
    ensures
        opt_view(r) == ({
            let t = type_of(jview(*item));
            if t == "toolCall"@ {
                Some(
                    "[Tool: "@ + match vstr(vfield(jview(*item), "name"@)) {
                        Some(n) => n,
                        None => "unknown"@,
                    } + "]"@,
                )
            } else if t == "thinking"@ {
                None
            } else {
                let x = text_of(jview(*item));
                if trim(x).len() > 0 {
                    Some(x)
                } else {
                    None
                }
            }
        }),
{
    let t = type_str(item);
    if str_eq(t.as_str(), "toolCall") {
        let mut s = to_string("[Tool: ");
        match item.get("name") {
            Some(JsonValue::Str(n)) => push_str(&mut s, n.as_str()),
            _ => push_str(&mut s, "unknown"),
        }
        push_str(&mut s, "]");
        Some(s)
    } else if str_eq(t.as_str(), "thinking") {
        None
    } else {
        let x = extract_text(item);
        let tx = trim_str(x.as_str());
        if tx.as_str().is_empty() {
            None
        } else {
            Some(x)
        }
    }
}

/// The text shown for a message's content (see `pi_content_text`).
pub fn extract_pi_content_text(c: &JsonValue) -> (r: String)
    ensures
        r@ == pi_content_text(jview(*c)),
{
    match c {
        JsonValue::Array(a) => {
            let ghost items = jview_seq(a@);
            proof {
                lemma_jview_seq(a@);
            }
            let mut out = String::new();
            let mut any = false;
            let mut i: usize = 0;
            while i < a.len()
                invariant
                    0 <= i <= a.len(),
                    items == jview_seq(a@),
                    items.len() == a.len(),
                    forall|j: int| 0 <= j < a.len() ==> #[trigger] items[j] == jview(a@[j]),
                    out@ == join_lines(pi_parts(items.subrange(0, i as int))),
                    any == (pi_parts(items.subrange(0, i as int)).len() > 0),
                decreases a.len() - i,
            {
                let ghost pre = items.subrange(0, i as int);
                let ghost next = items.subrange(0, i + 1);
                proof {
                    assert(next.drop_last() =~= pre);
                    assert(next.last() == items[i as int]);
                }
                match pi_part(&a[i]) {
                    Some(s) => {
                        if any {
                            push_char(&mut out, '\n');
                        }
                        push_str(&mut out, s.as_str());
                        proof {
                            let ps = pi_parts(pre);
                            assert(pi_parts(next) == ps.push(s@));
                            assert(ps.push(s@).drop_last() =~= ps);
                            if ps.len() == 0 {
                                assert(out@ =~= s@);
                            }
                        }
                        any = true;
                    },
                    None => {},
                }
                i = i + 1;
            }
            assert(items.subrange(0, a.len() as int) =~= items);
            out
        },
        _ => extract_text(c),
    }
}

fn pi_message_of(v: &JsonValue) -> (r: Option<SessionMessage>)
    ensures
        match r {
            Some(m) => pi_message(jview(*v)) == Some(m@),
            None => pi_message(jview(*v)) is None,
        },
{
    let typ = type_str(v);
    if !str_eq(typ.as_str(), "message") {
        return None;
    }
    let m = match v.get("message") {
        Some(m) => m,
        None => {
            return None;
        },
    };
    let role_s = match m.get("role") {
        Some(JsonValue::Str(s)) => s.clone(),
        _ => String::new(),
    };
    let role = if str_eq(role_s.as_str(), "user") {
        to_string("user")
    } else if str_eq(role_s.as_str(), "assistant") {
        to_string("assistant")
    } else if str_eq(role_s.as_str(), "toolResult") {
        to_string("tool")
    } else {
        return None;
    };
    let content = match m.get("content") {
        Some(c) => extract_pi_content_text(c),
        None => String::new(),
    };
    let t = trim_str(content.as_str());
    if t.as_str().is_empty() && !str_eq(role.as_str(), "tool") {
        return None;
    }
    let ts = match ts_field(v, "timestamp") {
        Some(x) => Some(x),
        None => ts_field(m, "timestamp"),
    };
    Some(SessionMessage { role, content, ts })
}

/// The messages of a session file, in order (see `pi_message`).
pub fn load_messages(records: &Vec<JsonValue>) -> (r: Vec<SessionMessage>)
    ensures
        messages_view(r@) == pi_messages(jview_seq(records@)),
{
    let ghost recs = jview_seq(records@);
    proof {
        lemma_jview_seq(records@);
    }
    let mut out: Vec<SessionMessage> = Vec::new();
    let mut i: usize = 0;
    while i < records.len()
        invariant
            0 <= i <= records.len(),
            recs == jview_seq(records@),
            recs.len() == records.len(),
            forall|j: int| 0 <= j < records.len() ==> #[trigger] recs[j] == jview(records@[j]),
            messages_view(out@) == pi_messages(recs.subrange(0, i as int)),
        decreases records.len() - i,
    {
        proof {
            let t = recs.subrange(0, i + 1);
            assert(t.drop_last() =~= recs.subrange(0, i as int));
            assert(t.last() == recs[i as int]);
        }
        match pi_message_of(&records[i]) {
            Some(m) => {
                let ghost before = out@;
                out.push(m);
                proof {
                    assert(messages_view(out@) =~= messages_view(before).push(m@));
                }
            },
            None => {},
        }
        i = i + 1;
    }
    assert(recs.subrange(0, records.len() as int) =~= recs);
    out
}

} // verus!
