//! Token usage read from the agents' session logs (JSON lines), to be
//! recorded as request-log rows when the agents talk to their providers
//! directly.
//!
//! Kimi Code: `usage.record` entries of `wire.jsonl`, turn scope only (the
//! session scope is a running total and would count twice). Pi: assistant
//! messages, `compaction` and `branch_summary` entries of a session file.
//! Reading the files, parsing each line and the database are the caller's
//! part.
use vstd::prelude::*;
use crate::json::{jview, jview_seq, lemma_jview_seq, vfield, vstr, JsonNumber, JsonValue, JsonView, NumView};
use crate::text::{
    chars_of, decimal, decimal_i, find_char, find_char_in, lemma_find_char, lines, opt_view,
    push_char, push_decimal, push_decimal_i64, push_str, rfind_char, str_eq, string_from, to_string,
    trim, trim_range,
};

verus! {

// ============================================================================
// Lines
// ============================================================================

/// The non-blank lines, trimmed, in order.
pub open spec fn trimmed_lines(ls: Seq<Seq<char>>) -> Seq<Seq<char>>
    decreases ls.len(),
{
    if ls.len() == 0 {
        seq![]
    } else {
        let rest = trimmed_lines(ls.subrange(1, ls.len() as int));
        if trim(ls[0]).len() > 0 {
            seq![trim(ls[0])] + rest
        } else {
            rest
        }
    }
}

pub open spec fn strs_view(v: Seq<String>) -> Seq<Seq<char>> {
    v.map_values(|s: String| s@)
}

/// The non-blank lines of a JSON-lines text, trimmed, in order.
pub fn jsonl_lines(content: &str) -> (r: Vec<String>)
    ensures
        strs_view(r@) == trimmed_lines(lines(content@)),
{
    let v = chars_of(content);
    let n = v.len();
    let mut out: Vec<String> = Vec::new();
    let mut pos: usize = 0;
    assert(v@.subrange(0, n as int) =~= v@);
    while pos < n
        invariant
            v@ == content@,
            n == v.len(),
            0 <= pos <= n,
            strs_view(out@) + trimmed_lines(lines(v@.subrange(pos as int, n as int))) == trimmed_lines(
                lines(content@),
            ),
        decreases n - pos,
    {
        let ghost t = v@.subrange(pos as int, n as int);
        proof {
            lemma_find_char(t, '\n');
        }
        let (line_end, next) = match find_char_in(&v, pos, n, '\n') {
            Some(i) => {
                let e = if i > pos && v[i - 1] == '\r' {
                    i - 1
                } else {
                    i
                };
                (e, i + 1)
            },
            None => (n, n),
        };
        let ghost line = v@.subrange(pos as int, line_end as int);
        proof {
            let i = find_char(t, '\n');
            if i >= 0 {
                let l = t.subrange(0, i);
                assert(l =~= v@.subrange(pos as int, pos + i));
                if i > 0 {
                    assert(l.last() == v@[pos + i - 1]);
                }
                if line_end < pos + i {
                    assert(line =~= l.drop_last());
                } else {
                    assert(line =~= l);
                }
                assert(t.subrange(i + 1, t.len() as int) =~= v@.subrange(next as int, n as int));
            } else {
                assert(line =~= t);
                assert(v@.subrange(next as int, n as int) =~= Seq::<char>::empty());
                assert(lines(Seq::<char>::empty()) =~= Seq::<Seq<char>>::empty());
            }
            let ls = lines(t);
            assert(ls[0] == line);
            assert(ls.subrange(1, ls.len() as int) =~= lines(v@.subrange(next as int, n as int)));
        }
        let ghost before = out@;
        let (a, b) = trim_range(&v, pos, line_end);
        if a < b {
            let s = string_from(&v, a, b);
            out.push(s);
            proof {
                assert(strs_view(out@) =~= strs_view(before).push(trim(line)));
                assert(strs_view(out@) + trimmed_lines(lines(v@.subrange(next as int, n as int)))
                    =~= strs_view(before) + trimmed_lines(lines(t)));
            }
        } else {
            proof {
                assert(strs_view(out@) + trimmed_lines(lines(v@.subrange(next as int, n as int)))
                    =~= strs_view(before) + trimmed_lines(lines(t)));
            }
        }
        pos = next;
    }
    proof {
        assert(v@.subrange(pos as int, n as int) =~= Seq::<char>::empty());
        assert(lines(Seq::<char>::empty()) =~= Seq::<Seq<char>>::empty());
        assert(strs_view(out@) + Seq::<Seq<char>>::empty() =~= strs_view(out@));
    }
    out
}

// ============================================================================
// Numbers and times
// ============================================================================

/// A token count as a `u64`: a non-negative integer as it is, a negative one
/// as 0, a float clamped at 0 and truncated.
pub open spec fn count_u64(v: Option<JsonView>) -> Option<u64> {
    match v {
        Some(JsonView::Number(NumView::PosInt(u))) => Some(u),
        Some(JsonView::Number(NumView::NegInt(_))) => Some(0),
        Some(JsonView::Number(NumView::Float(_, t))) => Some(t),
        _ => None,
    }
}

/// A token count of `key` saturated to `u32` (0 when missing).
pub open spec fn spec_json_u32(obj: JsonView, key: Seq<char>) -> u32 {
    match count_u64(vfield(obj, key)) {
        Some(n) => if n > 0xffff_ffffu64 {
            0xffff_ffffu32
        } else {
            n as u32
        },
        None => 0,
    }
}

/// The token count of `key`.
pub fn json_u32(obj: &JsonValue, key: &str) -> (r: u32)
    ensures
        r == spec_json_u32(jview(*obj), key@),
{
    let n: Option<u64> = match obj.get(key) {
        Some(JsonValue::Number(JsonNumber::PosInt(u))) => Some(*u),
        Some(JsonValue::Number(JsonNumber::NegInt(_))) => Some(0),
        Some(JsonValue::Number(JsonNumber::Float(_, t))) => Some(*t),
        _ => None,
    };
    match n {
        Some(n) => if n > 0xffff_ffffu64 {
            0xffff_ffffu32
        } else {
            n as u32
        },
        None => 0,
    }
}

/// Above 10^12 a timestamp is taken to be in milliseconds already, above
/// 10^9 in seconds (scaled up); anything else is kept.
pub open spec fn spec_normalize_to_ms(ts: i64) -> i64 {
    if ts > 1_000_000_000_000 {
        ts
    } else if ts > 1_000_000_000 {
        (ts * 1000) as i64
    } else {
        ts
    }
}

/// Normalizes a timestamp to milliseconds.
pub fn normalize_to_ms(ts: i64) -> (r: i64)
    ensures
        r == spec_normalize_to_ms(ts),
{
    if ts > 1_000_000_000_000 {
        ts
    } else if ts > 1_000_000_000 {
        ts * 1000
    } else {
        ts
    }
}

/// Milliseconds since the epoch of an RFC 3339 date-time, as
/// `chrono::DateTime::parse_from_rfc3339` followed by `timestamp_millis`
/// compute them; nothing when the text does not parse.
pub uninterp spec fn rfc3339_millis(s: Seq<char>) -> Option<i64>;

/// Seconds since the epoch of an RFC 3339 date-time, as
/// `chrono::DateTime::parse_from_rfc3339` followed by `timestamp` compute
/// them; nothing when the text does not parse.
pub uninterp spec fn rfc3339_seconds(s: Seq<char>) -> Option<i64>;

/// `chrono::DateTime::parse_from_rfc3339(s)` and `timestamp_millis` of the
/// result: the contract names the result (it depends on `s` alone) and
/// says nothing more of it.
#[verifier::external_body]
pub(crate) fn rfc3339_timestamp_millis(s: &str) -> (r: Option<i64>)
    ensures
        r == rfc3339_millis(s@),
{
    match chrono::DateTime::parse_from_rfc3339(s) {
        Ok(dt) => Some(dt.timestamp_millis()),
        Err(_) => None,
    }
}

/// `chrono::DateTime::parse_from_rfc3339(s)` and `timestamp` of the result:
/// the contract names the result (it depends on `s` alone) and says nothing
/// more of it.
#[verifier::external_body]
fn rfc3339_timestamp_seconds(s: &str) -> (r: Option<i64>)
    ensures
        r == rfc3339_seconds(s@),
{
    match chrono::DateTime::parse_from_rfc3339(s) {
        Ok(dt) => Some(dt.timestamp()),
        Err(_) => None,
    }
}

/// The integer of a number that fits `i64`, or `i64::MAX` for a larger one.
pub open spec fn clamped_int(v: JsonView) -> Option<i64> {
    match v {
        JsonView::Number(NumView::PosInt(u)) => if u <= 0x7fff_ffff_ffff_ffffu64 {
            Some(u as i64)
        } else {
            Some(0x7fff_ffff_ffff_ffffi64)
        },
        JsonView::Number(NumView::NegInt(i)) => Some(i),
        _ => None,
    }
}

fn clamped_int_exec(v: &JsonValue) -> (r: Option<i64>)
    ensures
        r == clamped_int(jview(*v)),
{
    match v {
        JsonValue::Number(JsonNumber::PosInt(u)) => if *u <= 0x7fff_ffff_ffff_ffffu64 {
            Some(*u as i64)
        } else {
            Some(0x7fff_ffff_ffff_ffffi64)
        },
        JsonValue::Number(JsonNumber::NegInt(i)) => Some(*i),
        _ => None,
    }
}

/// A `time` of a wire record in milliseconds: a number (normalized), or an
/// RFC 3339 string.
pub open spec fn spec_wire_time_ms(v: Option<JsonView>) -> Option<i64> {
    match v {
        Some(x) => match clamped_int(x) {
            Some(n) => Some(spec_normalize_to_ms(n)),
            None => match x {
                JsonView::Str(s) => rfc3339_millis(s),
                _ => None,
            },
        },
        None => None,
    }
}

/// The time of a wire record in milliseconds.
pub fn parse_wire_time_ms(value: Option<&JsonValue>) -> (r: Option<i64>)
    ensures
        r == spec_wire_time_ms(
            match value {
                Some(v) => Some(jview(*v)),
                None => None,
            },
        ),
{
    let v = match value {
        Some(v) => v,
        None => {
            return None;
        },
    };
    match clamped_int_exec(v) {
        Some(n) => Some(normalize_to_ms(n)),
        None => match v {
            JsonValue::Str(s) => rfc3339_timestamp_millis(s.as_str()),
            _ => None,
        },
    }
}

/// `a / 1000` rounded towards zero (Rust's integer division).
pub open spec fn div1000(a: i64) -> i64 {
    if a >= 0 {
        (a / 1000) as i64
    } else {
        (-((-a) / 1000)) as i64
    }
}

/// A timestamp in seconds: a number (normalized to milliseconds, then
/// divided), or an RFC 3339 string.
pub open spec fn spec_ts_seconds(v: JsonView) -> Option<i64> {
    match clamped_int(v) {
        Some(n) => Some(div1000(spec_normalize_to_ms(n))),
        None => match v {
            JsonView::Str(s) => rfc3339_seconds(s),
            _ => None,
        },
    }
}

/// A timestamp in seconds.
pub fn parse_ts_seconds(v: &JsonValue) -> (r: Option<i64>)
    ensures
        r == spec_ts_seconds(jview(*v)),
{
    match clamped_int_exec(v) {
        Some(n) => Some(normalize_to_ms(n) / 1000),
        None => match v {
            JsonValue::Str(s) => rfc3339_timestamp_seconds(s.as_str()),
            _ => None,
        },
    }
}

// ============================================================================
// Kimi Code wire logs
// ============================================================================

/// A turn-scope usage record.
#[derive(Debug)]
pub struct KimiUsageEvent {
    /// Seconds since the epoch.
    pub created_at: i64,
    /// The record's time in milliseconds.
    pub time_ms: i64,
    pub model: String,
    pub input_tokens: u32,
    pub output_tokens: u32,
    pub cache_read_tokens: u32,
    pub cache_creation_tokens: u32,
    /// Position among the file's turn records.
    pub seq: u32,
}

pub struct KimiEventView {
    pub created_at: i64,
    pub time_ms: i64,
    pub model: Seq<char>,
    pub input_tokens: u32,
    pub output_tokens: u32,
    pub cache_read_tokens: u32,
    pub cache_creation_tokens: u32,
    pub seq: u32,
}

impl View for KimiUsageEvent {
    type V = KimiEventView;

    open spec fn view(&self) -> KimiEventView {
        KimiEventView {
            created_at: self.created_at,
            time_ms: self.time_ms,
            model: self.model@,
            input_tokens: self.input_tokens,
            output_tokens: self.output_tokens,
            cache_read_tokens: self.cache_read_tokens,
            cache_creation_tokens: self.cache_creation_tokens,
            seq: self.seq,
        }
    }
}

impl KimiUsageEvent {
    /// Whether the record counts no token at all.
    pub fn is_zero(&self) -> (r: bool)
        ensures
            r == (self.input_tokens == 0 && self.output_tokens == 0 && self.cache_read_tokens == 0
                && self.cache_creation_tokens == 0),
    {
        self.input_tokens == 0 && self.output_tokens == 0 && self.cache_read_tokens == 0
            && self.cache_creation_tokens == 0
    }
}

/// The usage event of a wire record numbered `seq`: a `usage.record` of turn
/// scope (the default) with a `usage` object and a time; nothing otherwise.
pub open spec fn spec_kimi_event(rec: JsonView, seq: u32) -> Option<KimiEventView> {
    let scope = match vstr(vfield(rec, "usageScope"@)) {
        Some(s) => s,
        None => "turn"@,
    };
    if vstr(vfield(rec, "type"@)) != Some("usage.record"@) || scope != "turn"@ {
        None
    } else {
        match vfield(rec, "usage"@) {
            Some(JsonView::Object(u)) => match spec_wire_time_ms(vfield(rec, "time"@)) {
                Some(t) => Some(
                    KimiEventView {
                        created_at: div1000(t),
                        time_ms: t,
                        model: match vstr(vfield(rec, "model"@)) {
                            Some(m) => m,
                            None => "unknown"@,
                        },
                        input_tokens: spec_json_u32(JsonView::Object(u), "inputOther"@),
                        output_tokens: spec_json_u32(JsonView::Object(u), "output"@),
                        cache_read_tokens: spec_json_u32(JsonView::Object(u), "inputCacheRead"@),
                        cache_creation_tokens: spec_json_u32(
                            JsonView::Object(u),
                            "inputCacheCreation"@,
                        ),
                        seq: seq,
                    },
                ),
                None => None,
            },
            _ => None,
        }
    }
}

pub open spec fn sat_inc(s: u32) -> u32 {
    if s == 0xffff_ffffu32 {
        s
    } else {
        (s + 1) as u32
    }
}

/// The usage events of a wire log's parsed records, in order, numbered
/// from `seq` on.
pub open spec fn spec_kimi_events(recs: Seq<JsonView>, seq: u32) -> Seq<KimiEventView>
    decreases recs.len(),
{
    if recs.len() == 0 {
        seq![]
    } else {
        let rest = recs.subrange(1, recs.len() as int);
        match spec_kimi_event(recs[0], seq) {
            Some(e) => seq![e] + spec_kimi_events(rest, sat_inc(seq)),
            None => spec_kimi_events(rest, seq),
        }
    }
}

pub open spec fn kimi_events_view(v: Seq<KimiUsageEvent>) -> Seq<KimiEventView> {
    v.map_values(|e: KimiUsageEvent| e@)
}

fn kimi_event(rec: &JsonValue, seq: u32) -> (r: Option<KimiUsageEvent>)
    ensures
        match r {
            Some(e) => spec_kimi_event(jview(*rec), seq) == Some(e@),
            None => spec_kimi_event(jview(*rec), seq) is None,
        },
{
    let is_record = match rec.get("type") {
        Some(t) => match t.as_str() {
            Some(s) => str_eq(s.as_str(), "usage.record"),
            None => false,
        },
        None => false,
    };
    let is_turn = match rec.get("usageScope") {
        Some(t) => match t.as_str() {
            Some(s) => str_eq(s.as_str(), "turn"),
            None => true,
        },
        None => true,
    };
    if !is_record || !is_turn {
        return None;
    }
    let usage = match rec.get("usage") {
        Some(u) => if u.is_object() {
            u
        } else {
            return None;
        },
        None => {
            return None;
        },
    };
    let t = match parse_wire_time_ms(rec.get("time")) {
        Some(t) => t,
        None => {
            return None;
        },
    };
    let model = match rec.get("model") {
        Some(m) => match m.as_str() {
            Some(s) => s.clone(),
            None => to_string("unknown"),
        },
        None => to_string("unknown"),
    };
    Some(
        KimiUsageEvent {
            created_at: t / 1000,
            time_ms: t,
            model,
            input_tokens: json_u32(usage, "inputOther"),
            output_tokens: json_u32(usage, "output"),
            cache_read_tokens: json_u32(usage, "inputCacheRead"),
            cache_creation_tokens: json_u32(usage, "inputCacheCreation"),
            seq,
        },
    )
}

/// The turn-scope usage events of a wire log, from its parsed records (the
/// lines that parse), numbered in order.
pub fn parse_kimi_usage_events(records: &Vec<JsonValue>) -> (r: Vec<KimiUsageEvent>)
    ensures
        kimi_events_view(r@) == spec_kimi_events(jview_seq(records@), 0),
{
    let ghost recs = jview_seq(records@);
    proof {
        lemma_jview_seq(records@);
    }
    let mut out: Vec<KimiUsageEvent> = Vec::new();
    let mut seq: u32 = 0;
    let mut i: usize = 0;
    assert(recs.subrange(0, records.len() as int) =~= recs);
    while i < records.len()
        invariant
            0 <= i <= records.len(),
            recs == jview_seq(records@),
            recs.len() == records.len(),
            forall|j: int| 0 <= j < records.len() ==> #[trigger] recs[j] == jview(records@[j]),
            kimi_events_view(out@) + spec_kimi_events(recs.subrange(i as int, recs.len() as int), seq)
                == spec_kimi_events(recs, 0),
        decreases records.len() - i,
    {
        let ghost t = recs.subrange(i as int, recs.len() as int);
        proof {
            assert(t[0] == recs[i as int]);
            assert(t.subrange(1, t.len() as int) =~= recs.subrange(i + 1, recs.len() as int));
        }
        let ghost before = out@;
        match kimi_event(&records[i], seq) {
            Some(e) => {
                out.push(e);
                proof {
                    assert(kimi_events_view(out@) =~= kimi_events_view(before).push(out@.last()@));
                    assert(kimi_events_view(out@) + spec_kimi_events(
                        recs.subrange(i + 1, recs.len() as int),
                        sat_inc(seq),
                    ) =~= kimi_events_view(before) + spec_kimi_events(t, seq));
                }
                seq = if seq == 0xffff_ffffu32 {
                    seq
                } else {
                    seq + 1
                };
            },
            None => {},
        }
        i = i + 1;
    }
    proof {
        assert(recs.subrange(i as int, recs.len() as int) =~= Seq::<JsonView>::empty());
        assert(kimi_events_view(out@) + Seq::<KimiEventView>::empty() =~= kimi_events_view(out@));
    }
    out
}

/// The idempotency key of a Kimi Code usage row:
/// `kimicode_session:<session>:<time ms>:<seq>:<model>:<in>:<out>:<cache read>:<cache creation>`.
pub open spec fn spec_kimi_request_id(session_id: Seq<char>, e: KimiEventView) -> Seq<char> {
    "kimicode_session:"@ + session_id + seq![':'] + decimal_i(e.time_ms as int) + seq![':'] + decimal(
        e.seq as nat,
    ) + seq![':'] + e.model + seq![':'] + decimal(e.input_tokens as nat) + seq![':'] + decimal(
        e.output_tokens as nat,
    ) + seq![':'] + decimal(e.cache_read_tokens as nat) + seq![':'] + decimal(
        e.cache_creation_tokens as nat,
    )
}

/// The idempotency key of a Kimi Code usage row.
pub fn kimi_request_id(session_id: &str, e: &KimiUsageEvent) -> (r: String)
    ensures
        r@ == spec_kimi_request_id(session_id@, e@),
{
    let mut s = to_string("kimicode_session:");
    push_str(&mut s, session_id);
    push_char(&mut s, ':');
    push_decimal_i64(&mut s, e.time_ms);
    push_char(&mut s, ':');
    push_decimal(&mut s, e.seq as u64);
    push_char(&mut s, ':');
    push_str(&mut s, e.model.as_str());
    push_char(&mut s, ':');
    push_decimal(&mut s, e.input_tokens as u64);
    push_char(&mut s, ':');
    push_decimal(&mut s, e.output_tokens as u64);
    push_char(&mut s, ':');
    push_decimal(&mut s, e.cache_read_tokens as u64);
    push_char(&mut s, ':');
    push_decimal(&mut s, e.cache_creation_tokens as u64);
    assert(s@ =~= spec_kimi_request_id(session_id@, e@));
    s
}

/// What a sync imports from one log: the rows to insert (their key and the
/// index of their event) and how many events were skipped for counting no
/// token.
pub open spec fn spec_plan(keys: Seq<Seq<char>>, zero: Seq<bool>) -> (Seq<(Seq<char>, int)>, nat)
    decreases zero.len(),
{
    if zero.len() == 0 {
        (seq![], 0)
    } else {
        let (rows, skipped) = spec_plan(keys.drop_last(), zero.drop_last());
        let i = zero.len() - 1;
        if zero[i] {
            (rows, skipped + 1)
        } else {
            (rows.push((keys[i], i)), skipped)
        }
    }
}

pub open spec fn rows_view(v: Seq<(String, usize)>) -> Seq<(Seq<char>, int)> {
    v.map_values(|p: (String, usize)| (p.0@, p.1 as int))
}

/// The rows a sync inserts for a wire log's events (zero-token events are
/// skipped and counted), keyed by [`kimi_request_id`].
pub fn plan_kimicode_rows(session_id: &str, events: &Vec<KimiUsageEvent>) -> (r: (Vec<(String, usize)>, usize))
    ensures
        (rows_view(r.0@), r.1 as nat) == spec_plan(
            Seq::new(events@.len(), |i: int| spec_kimi_request_id(session_id@, events@[i]@)),
            Seq::new(
                events@.len(),
                |i: int|
                    events@[i].input_tokens == 0 && events@[i].output_tokens == 0
                        && events@[i].cache_read_tokens == 0 && events@[i].cache_creation_tokens
                        == 0,
            ),
        ),
{
    let ghost keys = Seq::new(events@.len(), |i: int| spec_kimi_request_id(session_id@, events@[i]@));
    let ghost zero = Seq::new(
        events@.len(),
        |i: int|
            events@[i].input_tokens == 0 && events@[i].output_tokens == 0
                && events@[i].cache_read_tokens == 0 && events@[i].cache_creation_tokens == 0,
    );
    let mut rows: Vec<(String, usize)> = Vec::new();
    let mut skipped: usize = 0;
    let mut i: usize = 0;
    while i < events.len()
        invariant
            0 <= i <= events.len(),
            keys.len() == events.len(),
            zero.len() == events.len(),
            keys == Seq::new(events@.len(), |i: int| spec_kimi_request_id(session_id@, events@[i]@)),
            zero == Seq::new(
                events@.len(),
                |i: int|
                    events@[i].input_tokens == 0 && events@[i].output_tokens == 0
                        && events@[i].cache_read_tokens == 0 && events@[i].cache_creation_tokens
                        == 0,
            ),
            skipped <= i,
            (rows_view(rows@), skipped as nat) == spec_plan(
                keys.subrange(0, i as int),
                zero.subrange(0, i as int),
            ),
        decreases events.len() - i,
    {
        proof {
            assert(keys.subrange(0, i + 1).drop_last() =~= keys.subrange(0, i as int));
            assert(zero.subrange(0, i + 1).drop_last() =~= zero.subrange(0, i as int));
        }
        let ghost before = rows@;
        if events[i].is_zero() {
            skipped = skipped + 1;
        } else {
            let k = kimi_request_id(session_id, &events[i]);
            rows.push((k, i));
            proof {
                assert(rows_view(rows@) =~= rows_view(before).push((keys[i as int], i as int)));
            }
        }
        i = i + 1;
    }
    proof {
        assert(keys.subrange(0, events.len() as int) =~= keys);
        assert(zero.subrange(0, events.len() as int) =~= zero);
    }
    (rows, skipped)
}


// ============================================================================
// Pi session logs
// ============================================================================

/// A usage event of a Pi session (assistant message, compaction or branch
/// summary).
#[derive(Debug)]
pub struct PiUsageEvent {
    /// The entry's id, unique within the session.
    pub entry_id: String,
    /// Seconds since the epoch (0 when unknown).
    pub created_at: i64,
    /// The model, or `_pi_summary` for summaries.
    pub model: String,
    pub input_tokens: u32,
    pub output_tokens: u32,
    pub cache_read_tokens: u32,
    pub cache_creation_tokens: u32,
}

pub struct PiEventView {
    pub entry_id: Seq<char>,
    pub created_at: i64,
    pub model: Seq<char>,
    pub input_tokens: u32,
    pub output_tokens: u32,
    pub cache_read_tokens: u32,
    pub cache_creation_tokens: u32,
}

impl View for PiUsageEvent {
    type V = PiEventView;

    open spec fn view(&self) -> PiEventView {
        PiEventView {
            entry_id: self.entry_id@,
            created_at: self.created_at,
            model: self.model@,
            input_tokens: self.input_tokens,
            output_tokens: self.output_tokens,
            cache_read_tokens: self.cache_read_tokens,
            cache_creation_tokens: self.cache_creation_tokens,
        }
    }
}

impl PiUsageEvent {
    /// Whether the event counts no token at all.
    pub fn is_zero(&self) -> (r: bool)
        ensures
            r == (self.input_tokens == 0 && self.output_tokens == 0 && self.cache_read_tokens == 0
                && self.cache_creation_tokens == 0),
    {
        self.input_tokens == 0 && self.output_tokens == 0 && self.cache_read_tokens == 0
            && self.cache_creation_tokens == 0
    }
}

/// The seconds of an optional timestamp value.
pub open spec fn ts_of(v: Option<JsonView>) -> Option<i64> {
    match v {
        Some(t) => spec_ts_seconds(t),
        None => None,
    }
}

/// The counts of a Pi usage object.
pub open spec fn pi_event(entry_id: Seq<char>, created_at: i64, model: Seq<char>, u: JsonView) -> PiEventView {
    PiEventView {
        entry_id: entry_id,
        created_at: created_at,
        model: model,
        input_tokens: spec_json_u32(u, "input"@),
        output_tokens: spec_json_u32(u, "output"@),
        cache_read_tokens: spec_json_u32(u, "cacheRead"@),
        cache_creation_tokens: spec_json_u32(u, "cacheWrite"@),
    }
}

/// The usage of a compaction or branch-summary entry: it needs a non-empty
/// string id and a `usage` object; its model is `_pi_summary`.
pub open spec fn spec_summary_event(rec: JsonView) -> Option<PiEventView> {
    match vstr(vfield(rec, "id"@)) {
        Some(id) => if id.len() > 0 {
            match vfield(rec, "usage"@) {
                Some(JsonView::Object(u)) => Some(
                    pi_event(
                        id,
                        match ts_of(vfield(rec, "timestamp"@)) {
                            Some(t) => t,
                            None => 0,
                        },
                        "_pi_summary"@,
                        JsonView::Object(u),
                    ),
                ),
                _ => None,
            }
        } else {
            None
        },
        None => None,
    }
}

/// The usage of an assistant message entry (a `message` object with role
/// `assistant` and a `usage` object): the entry's timestamp, else the
/// message's, else 0; the message's model, else `unknown`; the entry's id,
/// else empty.
pub open spec fn spec_assistant_event(rec: JsonView) -> Option<PiEventView> {
    match vfield(rec, "message"@) {
        Some(JsonView::Object(m)) => if vstr(vfield(JsonView::Object(m), "role"@)) == Some(
            "assistant"@,
        ) {
            match vfield(JsonView::Object(m), "usage"@) {
                Some(JsonView::Object(u)) => Some(
                    pi_event(
                        match vstr(vfield(rec, "id"@)) {
                            Some(id) => id,
                            None => seq![],
                        },
                        match ts_of(vfield(rec, "timestamp"@)) {
                            Some(t) => t,
                            None => match ts_of(vfield(JsonView::Object(m), "timestamp"@)) {
                                Some(t) => t,
                                None => 0,
                            },
                        },
                        match vstr(vfield(JsonView::Object(m), "model"@)) {
                            Some(x) => x,
                            None => "unknown"@,
                        },
                        JsonView::Object(u),
                    ),
                ),
                _ => None,
            }
        } else {
            None
        },
        _ => None,
    }
}

/// The session id (from the last `session` header) and the usage events
/// after reading the records in order.
pub open spec fn spec_pi_scan(recs: Seq<JsonView>) -> (Option<Seq<char>>, Seq<PiEventView>)
    decreases recs.len(),
{
    if recs.len() == 0 {
        (None, seq![])
    } else {
        let (sid, evs) = spec_pi_scan(recs.drop_last());
        let rec = recs.last();
        let typ = match vstr(vfield(rec, "type"@)) {
            Some(t) => t,
            None => seq![],
        };
        if typ == "session"@ {
            (vstr(vfield(rec, "id"@)), evs)
        } else if typ == "compaction"@ || typ == "branch_summary"@ {
            (
                sid,
                match spec_summary_event(rec) {
                    Some(e) => evs.push(e),
                    None => evs,
                },
            )
        } else if typ == "message"@ {
            (
                sid,
                match spec_assistant_event(rec) {
                    Some(e) => evs.push(e),
                    None => evs,
                },
            )
        } else {
            (sid, evs)
        }
    }
}

/// The events with a non-empty entry id, in order.
pub open spec fn with_ids(evs: Seq<PiEventView>) -> Seq<PiEventView>
    decreases evs.len(),
{
    if evs.len() == 0 {
        seq![]
    } else if evs.last().entry_id.len() > 0 {
        with_ids(evs.drop_last()).push(evs.last())
    } else {
        with_ids(evs.drop_last())
    }
}

/// What follows the last `_` of a file stem (the whole stem without one).
pub open spec fn after_last_underscore(stem: Seq<char>) -> Seq<char> {
    let i = rfind_char(stem, '_');
    if i >= 0 {
        stem.subrange(i + 1, stem.len() as int)
    } else {
        stem
    }
}

/// The session id: the header's when non-empty, else the uuid part of the
/// file name `<ts>_<uuid>`, else `unknown`.
pub open spec fn spec_pi_session_id(sid: Option<Seq<char>>, stem: Option<Seq<char>>) -> Seq<char> {
    match sid {
        Some(s) => if s.len() > 0 {
            s
        } else {
            match stem {
                Some(st) => after_last_underscore(st),
                None => "unknown"@,
            }
        },
        None => match stem {
            Some(st) => after_last_underscore(st),
            None => "unknown"@,
        },
    }
}

/// The session id of a Pi session file: the header's `id` when non-empty,
/// else what follows the last `_` of the file stem, else `unknown`.
pub fn pi_session_id(sid: Option<String>, file_stem: Option<&str>) -> (r: String)
    ensures
        r@ == spec_pi_session_id(opt_view(sid), crate::omp_ops::dview(file_stem)),
{
    let from_stem = |st: Option<&str>| -> (r: String)
        ensures
            r@ == match crate::omp_ops::dview(st) {
                Some(x) => after_last_underscore(x),
                None => "unknown"@,
            },
        {
            match st {
                Some(x) => {
                    let v = chars_of(x);
                    assert(v@.subrange(0, v@.len() as int) =~= v@);
                    match crate::text::rfind_char_in(&v, 0, v.len(), '_') {
                        Some(i) => string_from(&v, i + 1, v.len()),
                        None => to_string(x),
                    }
                },
                None => to_string("unknown"),
            }
        };
    match sid {
        Some(s) => if s.as_str().is_empty() {
            from_stem(file_stem)
        } else {
            s
        },
        None => from_stem(file_stem),
    }
}

pub open spec fn pi_events_view(v: Seq<PiUsageEvent>) -> Seq<PiEventView> {
    v.map_values(|e: PiUsageEvent| e@)
}

fn get_string(v: &JsonValue, k: &str) -> (r: Option<String>)
    ensures
        opt_view(r) == vstr(vfield(jview(*v), k@)),
{
    match v.get(k) {
        Some(x) => match x.as_str() {
            Some(s) => Some(s.clone()),
            None => None,
        },
        None => None,
    }
}

fn ts_of_field(v: &JsonValue, k: &str) -> (r: Option<i64>)
    ensures
        r == ts_of(vfield(jview(*v), k@)),
{
    match v.get(k) {
        Some(t) => parse_ts_seconds(t),
        None => None,
    }
}

fn summary_event(rec: &JsonValue) -> (r: Option<PiUsageEvent>)
    ensures
        match r {
            Some(e) => spec_summary_event(jview(*rec)) == Some(e@),
            None => spec_summary_event(jview(*rec)) is None,
        },
{
    let id = match get_string(rec, "id") {
        Some(id) => if id.as_str().is_empty() {
            return None;
        } else {
            id
        },
        None => {
            return None;
        },
    };
    let usage = match rec.get("usage") {
        Some(u) => if u.is_object() {
            u
        } else {
            return None;
        },
        None => {
            return None;
        },
    };
    let created_at = match ts_of_field(rec, "timestamp") {
        Some(t) => t,
        None => 0,
    };
    Some(
        PiUsageEvent {
            entry_id: id,
            created_at,
            model: to_string("_pi_summary"),
            input_tokens: json_u32(usage, "input"),
            output_tokens: json_u32(usage, "output"),
            cache_read_tokens: json_u32(usage, "cacheRead"),
            cache_creation_tokens: json_u32(usage, "cacheWrite"),
        },
    )
}

fn assistant_event(rec: &JsonValue) -> (r: Option<PiUsageEvent>)
    ensures
        match r {
            Some(e) => spec_assistant_event(jview(*rec)) == Some(e@),
            None => spec_assistant_event(jview(*rec)) is None,
        },
{
    let message = match rec.get("message") {
        Some(m) => if m.is_object() {
            m
        } else {
            return None;
        },
        None => {
            return None;
        },
    };
    let is_assistant = match get_string(message, "role") {
        Some(r) => str_eq(r.as_str(), "assistant"),
        None => false,
    };
    if !is_assistant {
        return None;
    }
    let usage = match message.get("usage") {
        Some(u) => if u.is_object() {
            u
        } else {
            return None;
        },
        None => {
            return None;
        },
    };
    let created_at = match ts_of_field(rec, "timestamp") {
        Some(t) => t,
        None => match ts_of_field(message, "timestamp") {
            Some(t) => t,
            None => 0,
        },
    };
    let model = match get_string(message, "model") {
        Some(m) => m,
        None => to_string("unknown"),
    };
    let entry_id = match get_string(rec, "id") {
        Some(id) => id,
        None => String::new(),
    };
    Some(
        PiUsageEvent {
            entry_id,
            created_at,
            model,
            input_tokens: json_u32(usage, "input"),
            output_tokens: json_u32(usage, "output"),
            cache_read_tokens: json_u32(usage, "cacheRead"),
            cache_creation_tokens: json_u32(usage, "cacheWrite"),
        },
    )
}

/// The session id and the usage events (with an entry id) of a Pi session
/// file, from its parsed records; `file_stem` is the file name without its
/// extension.
pub fn parse_pi_usage_events(records: &Vec<JsonValue>, file_stem: Option<&str>) -> (r: (String, Vec<PiUsageEvent>))
    ensures
        r.0@ == spec_pi_session_id(spec_pi_scan(jview_seq(records@)).0, crate::omp_ops::dview(file_stem)),
        pi_events_view(r.1@) == with_ids(spec_pi_scan(jview_seq(records@)).1),
{
    let ghost recs = jview_seq(records@);
    proof {
        lemma_jview_seq(records@);
    }
    let mut sid: Option<String> = None;
    let mut evs: Vec<PiUsageEvent> = Vec::new();
    let mut i: usize = 0;
    while i < records.len()
        invariant
            0 <= i <= records.len(),
            recs == jview_seq(records@),
            recs.len() == records.len(),
            forall|j: int| 0 <= j < records.len() ==> #[trigger] recs[j] == jview(records@[j]),
            (opt_view(sid), pi_events_view(evs@)) == spec_pi_scan(recs.subrange(0, i as int)),
        decreases records.len() - i,
    {
        proof {
            let t = recs.subrange(0, i + 1);
            assert(t.drop_last() =~= recs.subrange(0, i as int));
            assert(t.last() == recs[i as int]);
        }
        let ghost before = evs@;
        let rec = &records[i];
        let typ = match get_string(rec, "type") {
            Some(t) => t,
            None => String::new(),
        };
        if str_eq(typ.as_str(), "session") {
            sid = get_string(rec, "id");
        } else if str_eq(typ.as_str(), "compaction") || str_eq(typ.as_str(), "branch_summary") {
            match summary_event(rec) {
                Some(e) => {
                    evs.push(e);
                    assert(pi_events_view(evs@) =~= pi_events_view(before).push(evs@.last()@));
                },
                None => {},
            }
        } else if str_eq(typ.as_str(), "message") {
            match assistant_event(rec) {
                Some(e) => {
                    evs.push(e);
                    assert(pi_events_view(evs@) =~= pi_events_view(before).push(evs@.last()@));
                },
                None => {},
            }
        }
        i = i + 1;
    }
    assert(recs.subrange(0, records.len() as int) =~= recs);
    let ghost all = pi_events_view(evs@);
    let mut kept: Vec<PiUsageEvent> = Vec::new();
    let mut j: usize = 0;
    while j < evs.len()
        invariant
            0 <= j <= evs.len(),
            all == pi_events_view(evs@),
            pi_events_view(kept@) == with_ids(all.subrange(0, j as int)),
        decreases evs.len() - j,
    {
        proof {
            let t = all.subrange(0, j + 1);
            assert(t.drop_last() =~= all.subrange(0, j as int));
            assert(t.last() == evs@[j as int]@);
        }
        let ghost before = kept@;
        let e = &evs[j];
        if !e.entry_id.as_str().is_empty() {
            let c = PiUsageEvent {
                entry_id: e.entry_id.clone(),
                created_at: e.created_at,
                model: e.model.clone(),
                input_tokens: e.input_tokens,
                output_tokens: e.output_tokens,
                cache_read_tokens: e.cache_read_tokens,
                cache_creation_tokens: e.cache_creation_tokens,
            };
            kept.push(c);
            assert(pi_events_view(kept@) =~= pi_events_view(before).push(evs@[j as int]@));
        }
        j = j + 1;
    }
    assert(all.subrange(0, evs.len() as int) =~= all);
    let session_id = pi_session_id(sid, file_stem);
    (session_id, kept)
}

/// The idempotency key of a Pi usage row: `pi_session:<session>:<entry id>`.
pub open spec fn spec_pi_request_id(session_id: Seq<char>, e: PiEventView) -> Seq<char> {
    "pi_session:"@ + session_id + seq![':'] + e.entry_id
}

/// The idempotency key of a Pi usage row.
pub fn pi_request_id(session_id: &str, e: &PiUsageEvent) -> (r: String)
    ensures
        r@ == spec_pi_request_id(session_id@, e@),
{
    let mut s = to_string("pi_session:");
    push_str(&mut s, session_id);
    push_char(&mut s, ':');
    push_str(&mut s, e.entry_id.as_str());
    assert(s@ =~= spec_pi_request_id(session_id@, e@));
    s
}

/// The rows a sync inserts for a Pi session's events (zero-token events are
/// skipped and counted), keyed by [`pi_request_id`].
pub fn plan_pi_rows(session_id: &str, events: &Vec<PiUsageEvent>) -> (r: (Vec<(String, usize)>, usize))
    ensures
        (rows_view(r.0@), r.1 as nat) == spec_plan(
            Seq::new(events@.len(), |i: int| spec_pi_request_id(session_id@, events@[i]@)),
            Seq::new(
                events@.len(),
                |i: int|
                    events@[i].input_tokens == 0 && events@[i].output_tokens == 0
                        && events@[i].cache_read_tokens == 0 && events@[i].cache_creation_tokens
                        == 0,
            ),
        ),
{
    let ghost keys = Seq::new(events@.len(), |i: int| spec_pi_request_id(session_id@, events@[i]@));
    let ghost zero = Seq::new(
        events@.len(),
        |i: int|
            events@[i].input_tokens == 0 && events@[i].output_tokens == 0
                && events@[i].cache_read_tokens == 0 && events@[i].cache_creation_tokens == 0,
    );
    let mut rows: Vec<(String, usize)> = Vec::new();
    let mut skipped: usize = 0;
    let mut i: usize = 0;
    while i < events.len()
        invariant
            0 <= i <= events.len(),
            keys.len() == events.len(),
            zero.len() == events.len(),
            keys == Seq::new(events@.len(), |i: int| spec_pi_request_id(session_id@, events@[i]@)),
            zero == Seq::new(
                events@.len(),
                |i: int|
                    events@[i].input_tokens == 0 && events@[i].output_tokens == 0
                        && events@[i].cache_read_tokens == 0 && events@[i].cache_creation_tokens
                        == 0,
            ),
            skipped <= i,
            (rows_view(rows@), skipped as nat) == spec_plan(
                keys.subrange(0, i as int),
                zero.subrange(0, i as int),
            ),
        decreases events.len() - i,
    {
        proof {
            assert(keys.subrange(0, i + 1).drop_last() =~= keys.subrange(0, i as int));
            assert(zero.subrange(0, i + 1).drop_last() =~= zero.subrange(0, i as int));
        }
        let ghost before = rows@;
        if events[i].is_zero() {
            skipped = skipped + 1;
        } else {
            let k = pi_request_id(session_id, &events[i]);
            rows.push((k, i));
            proof {
                assert(rows_view(rows@) =~= rows_view(before).push((keys[i as int], i as int)));
            }
        }
        i = i + 1;
    }
    proof {
        assert(keys.subrange(0, events.len() as int) =~= keys);
        assert(zero.subrange(0, events.len() as int) =~= zero);
    }
    (rows, skipped)
}


// ============================================================================
// Syncing every log
// ============================================================================

/// What a usage sync did: how many logs it scanned, how many rows it
/// imported and skipped, and one message per log it could not sync.
#[derive(Debug)]
pub struct SessionSyncResult {
    pub files_scanned: usize,
    pub imported: usize,
    pub skipped: usize,
    pub errors: Vec<String>,
}

/// `a + b`, held at `usize::MAX`.
pub open spec fn sat_add(a: int, b: int) -> int {
    if a + b > usize::MAX {
        usize::MAX as int
    } else {
        a + b
    }
}

/// The imported (`which` true) or skipped counts of the logs that synced,
/// summed (held at `usize::MAX`).
pub open spec fn spec_sum(outcomes: Seq<Result<(usize, usize), String>>, which: bool) -> int
    decreases outcomes.len(),
{
    if outcomes.len() == 0 {
        0
    } else {
        let prev = spec_sum(outcomes.drop_last(), which);
        match outcomes.last() {
            Ok((i, s)) => sat_add(prev, if which { i as int } else { s as int }),
            Err(_) => prev,
        }
    }
}

/// The messages of the logs that could not be synced, in order.
pub open spec fn spec_errors(outcomes: Seq<Result<(usize, usize), String>>) -> Seq<Seq<char>>
    decreases outcomes.len(),
{
    if outcomes.len() == 0 {
        seq![]
    } else {
        let prev = spec_errors(outcomes.drop_last());
        match outcomes.last() {
            Ok(_) => prev,
            Err(m) => prev.push(m@),
        }
    }
}

/// Sums the outcomes of syncing each log: every log counts as scanned; a
/// log that synced adds its imported and skipped rows; a log that failed
/// adds its message to the errors and never stops the others.
fn summarize_sync(outcomes: &Vec<Result<(usize, usize), String>>) -> (r: SessionSyncResult)
    ensures
        r.files_scanned == outcomes@.len(),
        r.imported == spec_sum(outcomes@, true),
        r.skipped == spec_sum(outcomes@, false),
        strs_view(r.errors@) == spec_errors(outcomes@),
{
    let mut imported: usize = 0;
    let mut skipped: usize = 0;
    let mut errors: Vec<String> = Vec::new();
    let mut i: usize = 0;
    while i < outcomes.len()
        invariant
            0 <= i <= outcomes.len(),
            imported == spec_sum(outcomes@.subrange(0, i as int), true),
            skipped == spec_sum(outcomes@.subrange(0, i as int), false),
            strs_view(errors@) == spec_errors(outcomes@.subrange(0, i as int)),
        decreases outcomes.len() - i,
    {
        proof {
            let t = outcomes@.subrange(0, i + 1);
            assert(t.drop_last() =~= outcomes@.subrange(0, i as int));
            assert(t.last() == outcomes@[i as int]);
        }
        match &outcomes[i] {
            Ok((a, b)) => {
                imported = imported.saturating_add(*a);
                skipped = skipped.saturating_add(*b);
            },
            Err(m) => {
                let ghost before = errors@;
                errors.push(m.clone());
                proof {
                    assert(strs_view(errors@) =~= strs_view(before).push(m@));
                }
            },
        }
        i = i + 1;
    }
    assert(outcomes@.subrange(0, outcomes.len() as int) =~= outcomes@);
    SessionSyncResult { files_scanned: outcomes.len(), imported, skipped, errors }
}

/// The Kimi Code usage sync over every `wire.jsonl`: `outcomes` holds, per
/// log, the rows it imported and skipped, or why it could not be synced.
pub fn sync_kimicode_usage(outcomes: &Vec<Result<(usize, usize), String>>) -> (r: SessionSyncResult)
    ensures
        r.files_scanned == outcomes@.len(),
        r.imported == spec_sum(outcomes@, true),
        r.skipped == spec_sum(outcomes@, false),
        strs_view(r.errors@) == spec_errors(outcomes@),
{
    summarize_sync(outcomes)
}

/// The Pi usage sync over every session file: `outcomes` holds, per file,
/// the rows it imported and skipped, or why it could not be synced.
pub fn sync_pi_usage(outcomes: &Vec<Result<(usize, usize), String>>) -> (r: SessionSyncResult)
    ensures
        r.files_scanned == outcomes@.len(),
        r.imported == spec_sum(outcomes@, true),
        r.skipped == spec_sum(outcomes@, false),
        strs_view(r.errors@) == spec_errors(outcomes@),
{
    summarize_sync(outcomes)
}

} // verus!
