//! What a usage event counts: each of its four token counts is the matching
//! count of the record's `usage` object.
use vstd::prelude::*;
use crate::json::{vfield, vstr, JsonView, NumView};
use crate::session_usage::{
    sat_inc, spec_assistant_event, spec_json_u32, spec_kimi_event, spec_kimi_events, spec_pi_scan,
    spec_summary_event, spec_wire_time_ms, with_ids, KimiEventView, PiEventView,
};

verus! {

/// A token count read from `obj.k`: a non-negative integer as it is (held
/// at `u32::MAX`), 0 for a negative integer, 0 when the key is missing or
/// its value is no number.
pub proof fn law_token_count(obj: JsonView, k: Seq<char>)
    ensures
        vfield(obj, k) matches Some(JsonView::Number(NumView::PosInt(n))) ==> spec_json_u32(obj, k) as int
            == if n <= 0xffff_ffffu64 {
            n as int
        } else {
            0xffff_ffffint
        },
        vfield(obj, k) matches Some(JsonView::Number(NumView::NegInt(_))) ==> spec_json_u32(obj, k) == 0,
        !(vfield(obj, k) matches Some(JsonView::Number(_))) ==> spec_json_u32(obj, k) == 0,
{
}

/// The event of a Pi assistant message counts the message's usage: input,
/// output, cache reads (`cacheRead`) and cache writes (`cacheWrite`).
pub proof fn law_pi_message_event_counts(rec: JsonView, m: Seq<(Seq<char>, JsonView)>, u: Seq<(Seq<char>, JsonView)>)
    requires
        vfield(rec, "message"@) == Some(JsonView::Object(m)),
        vstr(vfield(JsonView::Object(m), "role"@)) == Some("assistant"@),
        vfield(JsonView::Object(m), "usage"@) == Some(JsonView::Object(u)),
    ensures
        match spec_assistant_event(rec) {
            Some(e) => {
                &&& e.input_tokens == spec_json_u32(JsonView::Object(u), "input"@)
                &&& e.output_tokens == spec_json_u32(JsonView::Object(u), "output"@)
                &&& e.cache_read_tokens == spec_json_u32(JsonView::Object(u), "cacheRead"@)
                &&& e.cache_creation_tokens == spec_json_u32(JsonView::Object(u), "cacheWrite"@)
            },
            None => false,
        },
{
}

/// The event of a Pi compaction or branch summary counts its usage the same
/// way.
pub proof fn law_pi_summary_event_counts(rec: JsonView, id: Seq<char>, u: Seq<(Seq<char>, JsonView)>)
    requires
        vstr(vfield(rec, "id"@)) == Some(id),
        id.len() > 0,
        vfield(rec, "usage"@) == Some(JsonView::Object(u)),
    ensures
        match spec_summary_event(rec) {
            Some(e) => {
                &&& e.entry_id == id
                &&& e.input_tokens == spec_json_u32(JsonView::Object(u), "input"@)
                &&& e.output_tokens == spec_json_u32(JsonView::Object(u), "output"@)
                &&& e.cache_read_tokens == spec_json_u32(JsonView::Object(u), "cacheRead"@)
                &&& e.cache_creation_tokens == spec_json_u32(JsonView::Object(u), "cacheWrite"@)
            },
            None => false,
        },
{
}

/// The event of a Kimi Code turn `usage.record` with a time counts the
/// record's usage: `inputOther`, `output`, `inputCacheRead` and
/// `inputCacheCreation`.
pub proof fn law_kimi_event_counts(rec: JsonView, u: Seq<(Seq<char>, JsonView)>, seq: u32)
    requires
        vstr(vfield(rec, "type"@)) == Some("usage.record"@),
        vstr(vfield(rec, "usageScope"@)) is None || vstr(vfield(rec, "usageScope"@)) == Some(
            "turn"@,
        ),
        vfield(rec, "usage"@) == Some(JsonView::Object(u)),
        spec_wire_time_ms(vfield(rec, "time"@)) is Some,
    ensures
        match spec_kimi_event(rec, seq) {
            Some(e) => {
                &&& e.input_tokens == spec_json_u32(JsonView::Object(u), "inputOther"@)
                &&& e.output_tokens == spec_json_u32(JsonView::Object(u), "output"@)
                &&& e.cache_read_tokens == spec_json_u32(JsonView::Object(u), "inputCacheRead"@)
                &&& e.cache_creation_tokens == spec_json_u32(
                    JsonView::Object(u),
                    "inputCacheCreation"@,
                )
                &&& e.seq == seq
            },
            None => false,
        },
{
}

/// `e` holds the four token counts of the usage object `u` of a wire
/// record.
pub open spec fn kimi_counts(u: JsonView, e: KimiEventView) -> bool {
    &&& e.input_tokens == spec_json_u32(u, "inputOther"@)
    &&& e.output_tokens == spec_json_u32(u, "output"@)
    &&& e.cache_read_tokens == spec_json_u32(u, "inputCacheRead"@)
    &&& e.cache_creation_tokens == spec_json_u32(u, "inputCacheCreation"@)
}

/// `e` counts the usage of one of the records.
pub open spec fn counts_some_kimi_record(recs: Seq<JsonView>, e: KimiEventView) -> bool {
    exists|i: int|
        0 <= i < recs.len() && (#[trigger] vfield(recs[i], "usage"@) matches Some(JsonView::Object(u))
            && kimi_counts(JsonView::Object(u), e))
}

/// Every usage event parsed from a wire log counts the usage of one of its
/// records.
pub proof fn law_kimi_events_count_their_records(recs: Seq<JsonView>, seq: u32)
    ensures
        forall|j: int|
            0 <= j < spec_kimi_events(recs, seq).len() ==> counts_some_kimi_record(
                recs,
                #[trigger] spec_kimi_events(recs, seq)[j],
            ),
    decreases recs.len(),
{
    if recs.len() > 0 {
        let rest = recs.subrange(1, recs.len() as int);
        let evs = spec_kimi_events(recs, seq);
        match spec_kimi_event(recs[0], seq) {
            Some(e0) => {
                let tail = spec_kimi_events(rest, sat_inc(seq));
                law_kimi_events_count_their_records(rest, sat_inc(seq));
                assert(evs == seq![e0] + tail);
                assert forall|j: int| 0 <= j < evs.len() implies counts_some_kimi_record(
                    recs,
                    #[trigger] evs[j],
                ) by {
                    if j == 0 {
                        assert(evs[0] == e0);
                        assert(vfield(recs[0], "usage"@) matches Some(JsonView::Object(u)) && kimi_counts(
                            JsonView::Object(u),
                            e0,
                        ));
                    } else {
                        assert(evs[j] == tail[j - 1]);
                        assert(counts_some_kimi_record(rest, tail[j - 1]));
                        let i = choose|i: int|
                            0 <= i < rest.len() && (#[trigger] vfield(rest[i], "usage"@) matches Some(
                                JsonView::Object(u),
                            ) && kimi_counts(JsonView::Object(u), tail[j - 1]));
                        assert(rest[i] == recs[i + 1]);
                        assert(vfield(recs[i + 1], "usage"@) matches Some(JsonView::Object(u))
                            && kimi_counts(JsonView::Object(u), tail[j - 1]));
                    }
                }
            },
            None => {
                law_kimi_events_count_their_records(rest, seq);
                assert(evs == spec_kimi_events(rest, seq));
                assert forall|j: int| 0 <= j < evs.len() implies counts_some_kimi_record(
                    recs,
                    #[trigger] evs[j],
                ) by {
                    assert(counts_some_kimi_record(rest, evs[j]));
                    let i = choose|i: int|
                        0 <= i < rest.len() && (#[trigger] vfield(rest[i], "usage"@) matches Some(
                            JsonView::Object(u),
                        ) && kimi_counts(JsonView::Object(u), evs[j]));
                    assert(rest[i] == recs[i + 1]);
                    assert(vfield(recs[i + 1], "usage"@) matches Some(JsonView::Object(u))
                        && kimi_counts(JsonView::Object(u), evs[j]));
                }
            },
        }
    }
}

/// `e` holds the four token counts of the Pi usage object `u`.
pub open spec fn pi_counts(u: JsonView, e: PiEventView) -> bool {
    &&& e.input_tokens == spec_json_u32(u, "input"@)
    &&& e.output_tokens == spec_json_u32(u, "output"@)
    &&& e.cache_read_tokens == spec_json_u32(u, "cacheRead"@)
    &&& e.cache_creation_tokens == spec_json_u32(u, "cacheWrite"@)
}

/// `e` counts the usage of a Pi record: the record's own `usage` (a
/// summary) or its message's (an assistant message).
pub open spec fn counts_pi_record(rec: JsonView, e: PiEventView) -> bool {
    ||| (vfield(rec, "usage"@) matches Some(JsonView::Object(u)) && pi_counts(JsonView::Object(u), e))
    ||| (vfield(rec, "message"@) matches Some(JsonView::Object(m)) && (vfield(
        JsonView::Object(m),
        "usage"@,
    ) matches Some(JsonView::Object(u)) && pi_counts(JsonView::Object(u), e)))
}

pub open spec fn counts_some_pi_record(recs: Seq<JsonView>, e: PiEventView) -> bool {
    exists|i: int| 0 <= i < recs.len() && #[trigger] counts_pi_record(recs[i], e)
}

/// Every usage event read from a Pi session counts the usage of one of its
/// records; so does every event that the parse keeps.
pub proof fn law_pi_events_count_their_records(recs: Seq<JsonView>)
    ensures
        forall|j: int|
            0 <= j < spec_pi_scan(recs).1.len() ==> counts_some_pi_record(
                recs,
                #[trigger] spec_pi_scan(recs).1[j],
            ),
        forall|j: int|
            0 <= j < with_ids(spec_pi_scan(recs).1).len() ==> counts_some_pi_record(
                recs,
                #[trigger] with_ids(spec_pi_scan(recs).1)[j],
            ),
    decreases recs.len(),
{
    let evs = spec_pi_scan(recs).1;
    if recs.len() > 0 {
        let p = recs.drop_last();
        law_pi_events_count_their_records(p);
        let pe = spec_pi_scan(p).1;
        let rec = recs.last();
        assert forall|j: int| 0 <= j < evs.len() implies counts_some_pi_record(recs, #[trigger] evs[j]) by {
            if j < pe.len() {
                assert(evs[j] == pe[j]);
                assert(counts_some_pi_record(p, pe[j]));
                let i = choose|i: int| 0 <= i < p.len() && #[trigger] counts_pi_record(p[i], pe[j]);
                assert(p[i] == recs[i]);
                assert(counts_pi_record(recs[i], evs[j]));
            } else {
                assert(counts_pi_record(rec, evs[j]));
                assert(recs[recs.len() - 1] == rec);
            }
        }
    }
    lemma_with_ids_members(evs);
    assert forall|j: int| 0 <= j < with_ids(evs).len() implies counts_some_pi_record(
        recs,
        #[trigger] with_ids(evs)[j],
    ) by {
        assert(evs.contains(with_ids(evs)[j]));
        let k = choose|k: int| 0 <= k < evs.len() && evs[k] == with_ids(evs)[j];
        assert(counts_some_pi_record(recs, evs[k]));
    }
}

proof fn lemma_with_ids_members(evs: Seq<PiEventView>)
    ensures
        forall|j: int| 0 <= j < with_ids(evs).len() ==> evs.contains(#[trigger] with_ids(evs)[j]),
    decreases evs.len(),
{
    if evs.len() > 0 {
        let p = evs.drop_last();
        lemma_with_ids_members(p);
        let w = with_ids(evs);
        let wp = with_ids(p);
        assert forall|j: int| 0 <= j < w.len() implies evs.contains(#[trigger] w[j]) by {
            if j < wp.len() {
                assert(w[j] == wp[j]);
                assert(p.contains(wp[j]));
                let k = choose|k: int| 0 <= k < p.len() && p[k] == wp[j];
                assert(evs[k] == p[k]);
            } else {
                assert(w[j] == evs.last());
                assert(evs[evs.len() - 1] == evs.last());
            }
        }
    }
}

} // verus!
