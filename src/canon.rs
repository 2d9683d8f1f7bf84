//! Raw runtime log records and their canonical events.
use vstd::prelude::*;
use crate::event::{
    key_t, key_type, lemma_merge_all_well_formed, lemma_put_new_key, merge_all, put, well_formed, CanonicalEvent, Fields, Value, ValueView,
};
use crate::payload::{
    fractions_fit, has_long_fraction, members_view, parse_payload, parsed_payload, Payload, PayloadView,
};

verus! {

/// Metrics of an invocation report. Durations arrive as JSON number text.
#[derive(Clone, Debug, PartialEq, Eq)]
pub struct ReportMetrics {
    pub duration_ms: String,
    pub billed_duration_ms: u64,
    pub memory_size_mb: u64,
    pub max_memory_used_mb: u64,
    /// Present only after a cold start; absence is not zero.
    pub init_duration_ms: Option<String>,
}

/// A log record as the host delivers it; `timestamp` is in milliseconds since the epoch.
#[derive(Clone, Debug, PartialEq, Eq)]
pub enum RawLogRecord {
    /// A line written by the function's own code, free text or JSON.
    FunctionLog { timestamp: i64, payload: String },
    PlatformStart { timestamp: i64, request_id: String },
    PlatformEnd { timestamp: i64, request_id: String },
    PlatformFault { timestamp: i64, payload: String },
    PlatformReport { timestamp: i64, request_id: String, metrics: ReportMetrics },
    /// Any kind that is not forwarded.
    Other { timestamp: i64 },
}

/// The reserved members of an event of the given kind.
pub open spec fn base_fields(t: int, kind: Seq<char>) -> Fields {
    seq![(key_t(), ValueView::Num(t)), (key_type(), ValueView::Str(kind))]
}

/// JSON text of a boolean.
pub open spec fn bool_text(b: bool) -> Seq<char> {
    if b {
        "true"@
    } else {
        "false"@
    }
}

/// What a function log's payload reads as: texts that the JSON parser cannot
/// take safely (see `FRACTION_DIGITS_MAX`) are kept as plain text.
pub open spec fn payload_reading(raw: Seq<char>) -> PayloadView {
    if has_long_fraction(raw) {
        PayloadView::Invalid
    } else {
        parsed_payload(raw)
    }
}

/// Event of a function log, given its raw payload and what it reads as.
pub open spec fn function_fields(t: int, raw: Seq<char>, p: PayloadView) -> Fields {
    let base = base_fields(t, "function"@);
    match p {
        PayloadView::Object(ms) => merge_all(base, ms),
        PayloadView::Null => base,
        PayloadView::Str(text) => base.push(("record"@, ValueView::Raw(text))),
        PayloadView::Number(text) => base.push(("record"@, ValueView::Raw(text))),
        PayloadView::Boolean(b) => base.push(("record"@, ValueView::Raw(bool_text(b)))),
        PayloadView::Array(text) => base.push(("record"@, ValueView::Raw(text))),
        PayloadView::Invalid => base.push(("record"@, ValueView::Str(raw))),
    }
}

pub open spec fn report_fields(t: int, id: Seq<char>, m: ReportMetrics) -> Fields {
    let fs = base_fields(t, "platform_report"@) + seq![
        ("request_id"@, ValueView::Str(id)),
        ("duration_ms"@, ValueView::Raw(m.duration_ms@)),
        ("billed_duration_ms"@, ValueView::Num(m.billed_duration_ms as int)),
        ("memory_size_mb"@, ValueView::Num(m.memory_size_mb as int)),
        ("max_memory_used_mb"@, ValueView::Num(m.max_memory_used_mb as int)),
    ];
    match m.init_duration_ms {
        Some(d) => fs.push(("init_duration_ms"@, ValueView::Raw(d@))),
        None => fs,
    }
}

/// The canonical event of a record, or none for a kind that is not forwarded.
pub open spec fn canonical_of(r: RawLogRecord) -> Option<Fields> {
    match r {
        RawLogRecord::FunctionLog { timestamp, payload } => Some(
            function_fields(timestamp as int, payload@, payload_reading(payload@)),
        ),
        RawLogRecord::PlatformStart { timestamp, request_id } => Some(
            base_fields(timestamp as int, "platform_start"@).push(("request_id"@, ValueView::Str(request_id@))),
        ),
        RawLogRecord::PlatformEnd { timestamp, request_id } => Some(
            base_fields(timestamp as int, "platform_end"@).push(("request_id"@, ValueView::Str(request_id@))),
        ),
        RawLogRecord::PlatformFault { timestamp, payload } => Some(
            base_fields(timestamp as int, "platform_fault"@).push(("record"@, ValueView::Str(payload@))),
        ),
        RawLogRecord::PlatformReport { timestamp, request_id, metrics } => Some(
            report_fields(timestamp as int, request_id@, metrics),
        ),
        RawLogRecord::Other { .. } => None,
    }
}

pub open spec fn event_view(e: Option<CanonicalEvent>) -> Option<Fields> {
    match e {
        Some(e) => Some(e@),
        None => None,
    }
}

/// The events of a batch, in batch order, with unforwarded records left out.
pub open spec fn batch_of(rs: Seq<RawLogRecord>) -> Seq<Fields>
    decreases rs.len(),
{
    if rs.len() == 0 {
        Seq::empty()
    } else {
        match canonical_of(rs.last()) {
            Some(fs) => batch_of(rs.drop_last()).push(fs),
            None => batch_of(rs.drop_last()),
        }
    }
}

pub open spec fn events_view(es: Seq<CanonicalEvent>) -> Seq<Fields> {
    es.map_values(|e: CanonicalEvent| e@)
}

proof fn lemma_record_is_new(fs: Fields)
    requires
        fs.len() == 2,
        fs[0].0 == key_t(),
        fs[1].0 == key_type(),
    ensures
        forall|v: ValueView| put(fs, "record"@, v) == #[trigger] fs.push(("record"@, v)),
{
    reveal_strlit("record");
    assert("record"@ != key_t() && "record"@ != key_type()) by {
        assert("record"@.len() != key_t().len());
        assert("record"@[1] != key_type()[1]);
    }
    assert forall|v: ValueView| put(fs, "record"@, v) == #[trigger] fs.push(("record"@, v)) by {
        lemma_put_new_key(fs, "record"@, v);
    }
}

/// The event of a function log whose payload reads as `parsed`: object members
/// are merged at the top level, `null` adds nothing, any other value goes under
/// `record`, and a payload that is not JSON goes under `record` as it was.
pub fn function_event(timestamp: i64, payload: &String, parsed: Payload) -> (r: CanonicalEvent)
    ensures
        r@ == function_fields(timestamp as int, payload@, parsed@),
{
    let mut ev = CanonicalEvent::new(timestamp, "function");
    match parsed {
        Payload::Object(ms) => {
            let ghost base = ev@;
            let n = ms.len();
            let mut i: usize = 0;
            while i < n
                invariant
                    n == ms.len(),
                    0 <= i <= n,
                    base == base_fields(timestamp as int, "function"@),
                    ev@ == merge_all(base, members_view(ms@).take(i as int)),
                decreases n - i,
            {
                let k = ms[i].0.clone();
                let t = ms[i].1.clone();
                ev.merge(k, t);
                proof {
                    let mv = members_view(ms@);
                    assert(mv.take(i + 1).drop_last() =~= mv.take(i as int));
                }
                i = i + 1;
            }
            proof {
                assert(members_view(ms@).take(n as int) =~= members_view(ms@));
            }
        },
        Payload::Null => {},
        Payload::Str(text) => {
            proof {
                lemma_record_is_new(ev@);
            }
            ev.insert(String::from_str("record"), Value::Raw(text));
        },
        Payload::Number(text) => {
            proof {
                lemma_record_is_new(ev@);
            }
            ev.insert(String::from_str("record"), Value::Raw(text));
        },
        Payload::Boolean(b) => {
            proof {
                lemma_record_is_new(ev@);
            }
            let text = if b {
                String::from_str("true")
            } else {
                String::from_str("false")
            };
            ev.insert(String::from_str("record"), Value::Raw(text));
        },
        Payload::Array(text) => {
            proof {
                lemma_record_is_new(ev@);
            }
            ev.insert(String::from_str("record"), Value::Raw(text));
        },
        Payload::Invalid => {
            proof {
                lemma_record_is_new(ev@);
            }
            ev.insert(String::from_str("record"), Value::Str(payload.clone()));
        },
    }
    ev
}

proof fn lemma_push_well_formed(fs: Fields, k: Seq<char>, v: ValueView)
    requires
        fs.len() == 2,
        well_formed(fs),
        k.len() > 4,
    ensures
        well_formed(fs.push((k, v))),
{
    let p = fs.push((k, v));
    assert(fs[0].0.len() < 5 && fs[1].0.len() < 5);
    assert forall|i: int, j: int| 0 <= i < j < p.len() implies p[i].0 != p[j].0 by {
        assert(p[i] == fs[i]);
    }
}

/// Every event that canonicalisation makes starts with `t` and then `type`,
/// with no two members sharing a key: payload members never replace the
/// reserved keys.
pub proof fn lemma_canonical_well_formed(a: RawLogRecord)
    ensures
        canonical_of(a) matches Some(fs) ==> well_formed(fs),
{
    reveal_strlit("function");
    reveal_strlit("record");
    reveal_strlit("request_id");
    reveal_strlit("duration_ms");
    reveal_strlit("billed_duration_ms");
    reveal_strlit("memory_size_mb");
    reveal_strlit("max_memory_used_mb");
    reveal_strlit("init_duration_ms");
    assert forall|t: int, kind: Seq<char>| well_formed(#[trigger] base_fields(t, kind)) by {
        assert(key_t().len() != key_type().len());
    }
    match a {
        RawLogRecord::FunctionLog { timestamp, payload } => {
            let b = base_fields(timestamp as int, "function"@);
            match payload_reading(payload@) {
                PayloadView::Object(ms) => lemma_merge_all_well_formed(b, ms),
                PayloadView::Null => {},
                PayloadView::Str(text) => lemma_push_well_formed(b, "record"@, ValueView::Raw(text)),
                PayloadView::Number(text) => lemma_push_well_formed(b, "record"@, ValueView::Raw(text)),
                PayloadView::Boolean(v) => lemma_push_well_formed(b, "record"@, ValueView::Raw(bool_text(v))),
                PayloadView::Array(text) => lemma_push_well_formed(b, "record"@, ValueView::Raw(text)),
                PayloadView::Invalid => lemma_push_well_formed(b, "record"@, ValueView::Str(payload@)),
            }
        },
        RawLogRecord::PlatformStart { timestamp, request_id } => {
            lemma_push_well_formed(base_fields(timestamp as int, "platform_start"@), "request_id"@, ValueView::Str(request_id@));
        },
        RawLogRecord::PlatformEnd { timestamp, request_id } => {
            lemma_push_well_formed(base_fields(timestamp as int, "platform_end"@), "request_id"@, ValueView::Str(request_id@));
        },
        RawLogRecord::PlatformFault { timestamp, payload } => {
            lemma_push_well_formed(base_fields(timestamp as int, "platform_fault"@), "record"@, ValueView::Str(payload@));
        },
        RawLogRecord::PlatformReport { timestamp, request_id, metrics } => {
            let fs = report_fields(timestamp as int, request_id@, metrics);
            assert("billed_duration_ms"@[0] != "max_memory_used_mb"@[0]);
            assert forall|i: int, j: int| 0 <= i < j < fs.len() implies fs[i].0 != fs[j].0 by {
                assert(fs[i].0.len() != fs[j].0.len() || fs[i].0[0] != fs[j].0[0]);
            }
        },
        RawLogRecord::Other { .. } => {},
    }
}

/// The canonical event of one record; a kind that is not forwarded gives none.
pub fn canonicalize(record: &RawLogRecord) -> (r: Option<CanonicalEvent>)
    ensures
        event_view(r) == canonical_of(*record),
{
    match record {
        RawLogRecord::FunctionLog { timestamp, payload } => {
            let parsed = if fractions_fit(payload.as_str()) {
                parse_payload(payload.as_str())
            } else {
                Payload::Invalid
            };
            Some(function_event(*timestamp, payload, parsed))
        },
        RawLogRecord::PlatformStart { timestamp, request_id } => {
            let mut ev = CanonicalEvent::new(*timestamp, "platform_start");
            ev.push_field("request_id", Value::Str(request_id.clone()));
            Some(ev)
        },
        RawLogRecord::PlatformEnd { timestamp, request_id } => {
            let mut ev = CanonicalEvent::new(*timestamp, "platform_end");
            ev.push_field("request_id", Value::Str(request_id.clone()));
            Some(ev)
        },
        RawLogRecord::PlatformFault { timestamp, payload } => {
            let mut ev = CanonicalEvent::new(*timestamp, "platform_fault");
            ev.push_field("record", Value::Str(payload.clone()));
            Some(ev)
        },
        RawLogRecord::PlatformReport { timestamp, request_id, metrics } => {
            let mut ev = CanonicalEvent::new(*timestamp, "platform_report");
            ev.push_field("request_id", Value::Str(request_id.clone()));
            ev.push_field("duration_ms", Value::Raw(metrics.duration_ms.clone()));
            ev.push_field("billed_duration_ms", Value::UInt(metrics.billed_duration_ms));
            ev.push_field("memory_size_mb", Value::UInt(metrics.memory_size_mb));
            ev.push_field("max_memory_used_mb", Value::UInt(metrics.max_memory_used_mb));
            match &metrics.init_duration_ms {
                Some(d) => ev.push_field("init_duration_ms", Value::Raw(d.clone())),
                None => {},
            }
            assert(ev@ =~= report_fields(*timestamp as int, request_id@, *metrics));
            Some(ev)
        },
        RawLogRecord::Other { .. } => None,
    }
}

/// The events to enqueue for a batch: one per forwarded record, in batch order.
pub fn batch_events(records: &Vec<RawLogRecord>) -> (r: Vec<CanonicalEvent>)
    ensures
        events_view(r@) == batch_of(records@),
{
    let mut out: Vec<CanonicalEvent> = Vec::new();
    let n = records.len();
    let mut i: usize = 0;
    while i < n
        invariant
            n == records.len(),
            0 <= i <= n,
            events_view(out@) == batch_of(records@.take(i as int)),
        decreases n - i,
    {
        let ev = canonicalize(&records[i]);
        proof {
            assert(records@.take(i + 1).drop_last() =~= records@.take(i as int));
        }
        match ev {
            Some(e) => {
                let ghost before = out@;
                out.push(e);
                assert(events_view(out@) =~= events_view(before).push(e@));
            },
            None => {},
        }
        i = i + 1;
    }
    assert(records@.take(n as int) =~= records@);
    out
}

} // verus!
