//! What the session browsers share: the records they list, and the text and
//! time they show for a log entry.
use vstd::prelude::*;
use crate::json::{
    jview, jview_entries, jview_seq, lemma_jview_entries, lemma_jview_seq, obj_get, obj_index, vget,
    vindex, vstr, JsonValue, JsonView,
};
use crate::session_usage::{rfc3339_millis, rfc3339_timestamp_millis};
use crate::text::{chars_of, opt_view, push_char, push_str, string_from, trim, trim_str};

verus! {

/// Longest title kept for a session, in characters.
pub const TITLE_MAX_CHARS: usize = 80;

/// One session as the session browser lists it.
#[derive(Clone, Debug)]
pub struct SessionMeta {
    pub provider_id: String,
    pub session_id: String,
    pub title: Option<String>,
    pub summary: Option<String>,
    pub project_dir: Option<String>,
    pub created_at: Option<i64>,
    pub last_active_at: Option<i64>,
    pub source_path: Option<String>,
    pub resume_command: Option<String>,
}

pub struct SessionMetaView {
    pub provider_id: Seq<char>,
    pub session_id: Seq<char>,
    pub title: Option<Seq<char>>,
    pub summary: Option<Seq<char>>,
    pub project_dir: Option<Seq<char>>,
    pub created_at: Option<i64>,
    pub last_active_at: Option<i64>,
    pub source_path: Option<Seq<char>>,
    pub resume_command: Option<Seq<char>>,
}

impl View for SessionMeta {
    type V = SessionMetaView;

    open spec fn view(&self) -> SessionMetaView {
        SessionMetaView {
            provider_id: self.provider_id@,
            session_id: self.session_id@,
            title: opt_view(self.title),
            summary: opt_view(self.summary),
            project_dir: opt_view(self.project_dir),
            created_at: self.created_at,
            last_active_at: self.last_active_at,
            source_path: opt_view(self.source_path),
            resume_command: opt_view(self.resume_command),
        }
    }
}

/// One message of a session as the session browser shows it.
#[derive(Clone, Debug)]
pub struct SessionMessage {
    pub role: String,
    pub content: String,
    pub ts: Option<i64>,
}

pub struct MessageView {
    pub role: Seq<char>,
    pub content: Seq<char>,
    pub ts: Option<i64>,
}

impl View for SessionMessage {
    type V = MessageView;

    open spec fn view(&self) -> MessageView {
        MessageView { role: self.role@, content: self.content@, ts: self.ts }
    }
}

pub open spec fn messages_view(v: Seq<SessionMessage>) -> Seq<MessageView> {
    v.map_values(|m: SessionMessage| m@)
}

pub open spec fn metas_view(v: Seq<SessionMeta>) -> Seq<SessionMetaView> {
    v.map_values(|m: SessionMeta| m@)
}

// ============================================================================
// Text of a log entry
// ============================================================================

/// The parts joined with a newline between each two.
pub open spec fn join_lines(parts: Seq<Seq<char>>) -> Seq<char>
    decreases parts.len(),
{
    if parts.len() == 0 {
        seq![]
    } else if parts.len() == 1 {
        parts[0]
    } else {
        join_lines(parts.drop_last()) + seq!['\n'] + parts.last()
    }
}

/// The text of a value: a string itself; the non-blank texts of an array's
/// items, one per line; the `text` string of an object; nothing otherwise.
pub open spec fn text_of(v: JsonView) -> Seq<char>
    decreases v,
{
    match v {
        JsonView::Str(s) => s,
        JsonView::Array(items) => join_lines(item_texts(items)),
        JsonView::Object(o) => match vstr(vget(o, "text"@)) {
            Some(t) => t,
            None => seq![],
        },
        _ => seq![],
    }
}

/// The non-blank texts of the items, in order.
pub open spec fn item_texts(items: Seq<JsonView>) -> Seq<Seq<char>>
    decreases items,
{
    if items.len() == 0 {
        seq![]
    } else {
        let rest = item_texts(items.subrange(0, items.len() - 1));
        match item_text(items[items.len() - 1]) {
            Some(t) => if trim(t).len() > 0 {
                rest.push(t)
            } else {
                rest
            },
            None => rest,
        }
    }
}

/// The text of one array item: its `text` string, else the non-empty text
/// of its `content`.
pub open spec fn item_text(item: JsonView) -> Option<Seq<char>>
    decreases item,
{
    match item {
        JsonView::Object(o) => match vstr(vget(o, "text"@)) {
            Some(t) => Some(t),
            None => {
                let i = vindex(o, "content"@);
                if 0 <= i < o.len() {
                    let t = text_of(o[i].1);
                    if t.len() > 0 {
                        Some(t)
                    } else {
                        None
                    }
                } else {
                    None
                }
            },
        },
        _ => None,
    }
}

/// The text of a value (see `text_of`).
pub fn extract_text(v: &JsonValue) -> (r: String)
    ensures
        r@ == text_of(jview(*v)),
    decreases v,
{
    match v {
        JsonValue::Str(s) => s.clone(),
        JsonValue::Array(a) => join_item_texts(a),
        JsonValue::Object(e) => match obj_get(e, "text") {
            Some(JsonValue::Str(s)) => s.clone(),
            _ => String::new(),
        },
        _ => String::new(),
    }
}

fn join_item_texts(a: &Vec<JsonValue>) -> (r: String)
    ensures
        r@ == join_lines(item_texts(jview_seq(a@))),
    decreases a,
{
    let ghost items = jview_seq(a@);
    proof {
        lemma_jview_seq(a@);
    }
    let mut out = String::new();
    let mut any = false;
    let mut i: usize = 0;
    while i < a.len()
        invariant
            0 <= i <= a.len(),
            items == jview_seq(a@),
            items.len() == a.len(),
            forall|j: int| 0 <= j < a.len() ==> #[trigger] items[j] == jview(a@[j]),
            out@ == join_lines(item_texts(items.subrange(0, i as int))),
            any == (item_texts(items.subrange(0, i as int)).len() > 0),
        decreases a.len() - i,
    {
        let ghost pre = items.subrange(0, i as int);
        let ghost next = items.subrange(0, i + 1);
        proof {
            assert(next.subrange(0, next.len() - 1) =~= pre);
            assert(next[next.len() - 1] == items[i as int]);
        }
        let t = item_text_exec(&a[i]);
        match t {
            Some(s) => {
                let ts = trim_str(s.as_str());
                if !ts.as_str().is_empty() {
                    if any {
                        push_char(&mut out, '\n');
                    }
                    push_str(&mut out, s.as_str());
                    proof {
                        let ps = item_texts(pre);
                        assert(item_texts(next) == ps.push(s@));
                        assert(ps.push(s@).drop_last() =~= ps);
                        if ps.len() == 0 {
                            assert(out@ =~= s@);
                        }
                    }
                    any = true;
                }
            },
            None => {},
        }
        i = i + 1;
    }
    assert(items.subrange(0, a.len() as int) =~= items);
    out
}

fn item_text_exec(item: &JsonValue) -> (r: Option<String>)
    ensures
        opt_view(r) == item_text(jview(*item)),
    decreases item,
{
    match item {
        JsonValue::Object(e) => {
            match obj_get(e, "text") {
                Some(JsonValue::Str(s)) => {
                    return Some(s.clone());
                },
                _ => {},
            }
            match obj_index(e, "content") {
                Some(i) => {
                    proof {
                        lemma_jview_entries(e@);
                    }
                    let t = extract_text(&e[i].1);
                    if t.as_str().is_empty() {
                        None
                    } else {
                        Some(t)
                    }
                },
                None => None,
            }
        },
        _ => None,
    }
}

// ============================================================================
// Titles and times
// ============================================================================

/// The text trimmed, cut to `max` characters with `...` added when longer.
pub open spec fn spec_truncate_summary(text: Seq<char>, max: nat) -> Seq<char> {
    let t = trim(text);
    if t.len() <= max {
        t
    } else {
        t.subrange(0, max as int) + "..."@
    }
}

/// Shortens a text for a title (see `spec_truncate_summary`).
pub fn truncate_summary(text: &str, max_chars: usize) -> (r: String)
    ensures
        r@ == spec_truncate_summary(text@, max_chars as nat),
{
    let t = trim_str(text);
    let v = chars_of(t.as_str());
    if v.len() <= max_chars {
        t
    } else {
        let mut s = string_from(&v, 0, max_chars);
        push_str(&mut s, "...");
        s
    }
}

/// Milliseconds of an RFC 3339 string; nothing for any other value.
pub open spec fn spec_timestamp_ms(v: Option<JsonView>) -> Option<i64> {
    match v {
        Some(JsonView::Str(s)) => rfc3339_millis(s),
        _ => None,
    }
}

/// Milliseconds since the epoch of an RFC 3339 string value.
pub fn parse_timestamp_to_ms(v: &JsonValue) -> (r: Option<i64>)
    ensures
        r == spec_timestamp_ms(Some(jview(*v))),
{
    match v {
        JsonValue::Str(s) => rfc3339_timestamp_millis(s.as_str()),
        _ => None,
    }
}

} // verus!
