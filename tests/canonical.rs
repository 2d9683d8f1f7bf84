use logship::canon::{batch_events, canonicalize, function_event, RawLogRecord, ReportMetrics};
use logship::event::{CanonicalEvent, Value};
use logship::payload::{fractions_fit, Payload, FRACTION_DIGITS_MAX};
use logship::text::{push_int, push_nat};

fn function_log(timestamp: i64, payload: &str) -> RawLogRecord {
    RawLogRecord::FunctionLog { timestamp, payload: payload.to_string() }
}

fn line(record: &RawLogRecord) -> String {
    canonicalize(record).expect("a forwarded kind").to_line()
}

fn keys(ev: &CanonicalEvent) -> Vec<String> {
    ev.fields.iter().map(|(k, _)| k.clone()).collect()
}

fn metrics(init: Option<&str>) -> ReportMetrics {
    ReportMetrics {
        duration_ms: "12.5".to_string(),
        billed_duration_ms: 13,
        memory_size_mb: 128,
        max_memory_used_mb: 64,
        init_duration_ms: init.map(|s| s.to_string()),
    }
}

#[test]
fn integers_are_written_in_decimal() {
    let mut s = String::new();
    push_nat(&mut s, 0);
    s.push(' ');
    push_nat(&mut s, 1234567890);
    s.push(' ');
    push_int(&mut s, -45);
    s.push(' ');
    push_int(&mut s, i64::MIN);
    s.push(' ');
    push_nat(&mut s, u64::MAX);
    assert_eq!(s, "0 1234567890 -45 -9223372036854775808 18446744073709551615");
}

#[test]
fn json_object_payload_is_flattened() {
    let r = function_log(1700000000000, r#"{"level":"info","msg":"hi"}"#);
    let ev = canonicalize(&r).unwrap();
    assert_eq!(keys(&ev), vec!["t", "type", "level", "msg"]);
    assert!(!keys(&ev).contains(&"record".to_string()));
    assert_eq!(ev.to_line(), "{\"t\":1700000000000,\"type\":\"function\",\"level\":\"info\",\"msg\":\"hi\"}\n");
}

#[test]
fn null_payload_adds_nothing() {
    assert_eq!(line(&function_log(5, "null")), "{\"t\":5,\"type\":\"function\"}\n");
}

#[test]
fn json_string_payload_goes_under_record() {
    assert_eq!(
        line(&function_log(5, "\"plain text\"")),
        "{\"t\":5,\"type\":\"function\",\"record\":\"plain text\"}\n"
    );
}

#[test]
fn other_json_values_go_under_record() {
    assert_eq!(line(&function_log(1, "[1, 2,3]")), "{\"t\":1,\"type\":\"function\",\"record\":[1,2,3]}\n");
    assert_eq!(line(&function_log(1, "42")), "{\"t\":1,\"type\":\"function\",\"record\":42}\n");
    assert_eq!(line(&function_log(1, "true")), "{\"t\":1,\"type\":\"function\",\"record\":true}\n");
}

#[test]
fn unparseable_payload_is_kept_as_text() {
    assert_eq!(
        line(&function_log(7, "not json")),
        "{\"t\":7,\"type\":\"function\",\"record\":\"not json\"}\n"
    );
}

#[test]
fn reserved_keys_win_over_payload_members() {
    let r = function_log(9, r#"{"t":1,"type":"mine","a":2}"#);
    assert_eq!(line(&r), "{\"t\":9,\"type\":\"function\",\"a\":2}\n");
}

#[test]
fn nested_payload_values_keep_their_shape() {
    let r = function_log(3, r#"{"n": {"x": [1, "y", null]}, "b": false}"#);
    assert_eq!(line(&r), "{\"t\":3,\"type\":\"function\",\"n\":{\"x\":[1,\"y\",null]},\"b\":false}\n");
}

#[test]
fn repeated_payload_key_appears_once() {
    let r = function_log(3, r#"{"a":1,"b":2,"a":3}"#);
    let ev = canonicalize(&r).unwrap();
    assert_eq!(keys(&ev), vec!["t", "type", "a", "b"]);
    assert_eq!(ev.to_line(), "{\"t\":3,\"type\":\"function\",\"a\":3,\"b\":2}\n");
}

#[test]
fn strings_are_escaped() {
    let r = RawLogRecord::PlatformFault { timestamp: 2, payload: "he said \"hi\"\n\\".to_string() };
    assert_eq!(line(&r), "{\"t\":2,\"type\":\"platform_fault\",\"record\":\"he said \\\"hi\\\"\\n\\\\\"}\n");
}

#[test]
fn fault_payload_is_not_parsed() {
    let r = RawLogRecord::PlatformFault { timestamp: 2, payload: "{\"a\":1}".to_string() };
    assert_eq!(line(&r), "{\"t\":2,\"type\":\"platform_fault\",\"record\":\"{\\\"a\\\":1}\"}\n");
}

#[test]
fn start_and_end_carry_the_request_id() {
    let s = RawLogRecord::PlatformStart { timestamp: 10, request_id: "abc".to_string() };
    let e = RawLogRecord::PlatformEnd { timestamp: 11, request_id: "abc".to_string() };
    assert_eq!(line(&s), "{\"t\":10,\"type\":\"platform_start\",\"request_id\":\"abc\"}\n");
    assert_eq!(line(&e), "{\"t\":11,\"type\":\"platform_end\",\"request_id\":\"abc\"}\n");
}

#[test]
fn report_without_init_duration_omits_it() {
    let r = RawLogRecord::PlatformReport { timestamp: 4, request_id: "id".to_string(), metrics: metrics(None) };
    let ev = canonicalize(&r).unwrap();
    assert!(!keys(&ev).contains(&"init_duration_ms".to_string()));
    assert_eq!(
        ev.to_line(),
        "{\"t\":4,\"type\":\"platform_report\",\"request_id\":\"id\",\"duration_ms\":12.5,\"billed_duration_ms\":13,\"memory_size_mb\":128,\"max_memory_used_mb\":64}\n"
    );
}

#[test]
fn report_with_init_duration_includes_it() {
    let r = RawLogRecord::PlatformReport { timestamp: 4, request_id: "id".to_string(), metrics: metrics(Some("0")) };
    let ev = canonicalize(&r).unwrap();
    assert_eq!(ev.fields.last().unwrap(), &("init_duration_ms".to_string(), Value::Raw("0".to_string())));
    assert!(ev.to_line().ends_with(",\"max_memory_used_mb\":64,\"init_duration_ms\":0}\n"));
}

#[test]
fn unforwarded_kinds_give_no_event() {
    assert!(canonicalize(&RawLogRecord::Other { timestamp: 1 }).is_none());
}

#[test]
fn canonicalize_is_deterministic() {
    let r = function_log(8, r#"{"k":"v"}"#);
    assert_eq!(canonicalize(&r), canonicalize(&r));
    assert_eq!(canonicalize(&function_log(8, "x")), canonicalize(&function_log(8, "x")));
}

#[test]
fn batch_keeps_order_and_skips_unforwarded() {
    let batch = vec![
        function_log(1, "first"),
        RawLogRecord::Other { timestamp: 2 },
        RawLogRecord::PlatformStart { timestamp: 3, request_id: "r".to_string() },
        function_log(4, "{\"n\":4}"),
    ];
    let lines: Vec<String> = batch_events(&batch).iter().map(|e| e.to_line()).collect();
    assert_eq!(
        lines,
        vec![
            "{\"t\":1,\"type\":\"function\",\"record\":\"first\"}\n",
            "{\"t\":3,\"type\":\"platform_start\",\"request_id\":\"r\"}\n",
            "{\"t\":4,\"type\":\"function\",\"n\":4}\n",
        ]
    );
    assert!(batch_events(&Vec::new()).is_empty());
}

#[test]
fn function_event_from_each_payload_shape() {
    let raw = "raw".to_string();
    let obj = Payload::Object(vec![
        ("type".to_string(), "1".to_string()),
        ("a".to_string(), "[true]".to_string()),
        ("a".to_string(), "null".to_string()),
    ]);
    assert_eq!(function_event(6, &raw, obj).to_line(), "{\"t\":6,\"type\":\"function\",\"a\":null}\n");
    assert_eq!(function_event(6, &raw, Payload::Null).to_line(), "{\"t\":6,\"type\":\"function\"}\n");
    assert_eq!(
        function_event(6, &raw, Payload::Number("1.5".to_string())).to_line(),
        "{\"t\":6,\"type\":\"function\",\"record\":1.5}\n"
    );
    assert_eq!(
        function_event(6, &raw, Payload::Str("\"s\"".to_string())).to_line(),
        "{\"t\":6,\"type\":\"function\",\"record\":\"s\"}\n"
    );
    assert_eq!(
        function_event(6, &raw, Payload::Boolean(false)).to_line(),
        "{\"t\":6,\"type\":\"function\",\"record\":false}\n"
    );
    assert_eq!(
        function_event(6, &raw, Payload::Array("[]".to_string())).to_line(),
        "{\"t\":6,\"type\":\"function\",\"record\":[]}\n"
    );
    assert_eq!(
        function_event(-6, &raw, Payload::Invalid).to_line(),
        "{\"t\":-6,\"type\":\"function\",\"record\":\"raw\"}\n"
    );
}

#[test]
fn insert_replaces_in_place_or_appends() {
    let mut ev = CanonicalEvent::new(0, "k");
    ev.insert("x".to_string(), Value::UInt(1));
    ev.insert("y".to_string(), Value::Int(-2));
    ev.insert("x".to_string(), Value::Str("z".to_string()));
    assert_eq!(ev.to_line(), "{\"t\":0,\"type\":\"k\",\"x\":\"z\",\"y\":-2}\n");
    ev.merge("t".to_string(), "5".to_string());
    ev.merge("w".to_string(), "{}".to_string());
    assert_eq!(ev.to_line(), "{\"t\":0,\"type\":\"k\",\"x\":\"z\",\"y\":-2,\"w\":{}}\n");
}

#[test]
fn fraction_runs_are_measured() {
    let at_limit = format!("0.{}", "0".repeat(FRACTION_DIGITS_MAX));
    let over_limit = format!("0.{}", "0".repeat(FRACTION_DIGITS_MAX + 1));
    assert!(fractions_fit(""));
    assert!(fractions_fit("{\"a\":1.25}"));
    assert!(fractions_fit(&at_limit));
    assert!(!fractions_fit(&over_limit));
    assert!(!fractions_fit(&format!("x {} y", over_limit)));
    assert!(fractions_fit(&format!("{}.{}", "1".repeat(40000), "1".repeat(10))));
}

#[test]
fn payload_with_fraction_at_the_limit_is_parsed() {
    let payload = format!("0.{}", "0".repeat(FRACTION_DIGITS_MAX));
    assert_eq!(line(&function_log(1, &payload)), "{\"t\":1,\"type\":\"function\",\"record\":0}\n");
}

#[test]
fn payload_with_overlong_fraction_is_kept_as_text() {
    let payload = format!("0.{}", "0".repeat(FRACTION_DIGITS_MAX + 2));
    let expected = format!("{{\"t\":1,\"type\":\"function\",\"record\":\"{}\"}}\n", payload);
    assert_eq!(line(&function_log(1, &payload)), expected);
}
