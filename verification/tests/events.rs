use ox::events::{
    default_signal_match_retriable, is_origin_active, kinds, origins_match_for_dedup, EventEnvelope, ExecutionOrigin,
    IngestEventData, SourceEventData, TriggerFailedData, TriggerFailureReason, SOURCE_OX,
};
use ox::json::{parse_json, Json};
use ox::types::EventSeq;

fn json(text: &str) -> Json {
    parse_json(text).expect("valid JSON")
}

fn envelope(source: &str, kind: &str, subject_id: &str, data: Json) -> EventEnvelope {
    EventEnvelope {
        seq: EventSeq(1),
        ts: "2026-04-15T12:00:00Z".into(),
        source: source.into(),
        kind: kind.into(),
        subject_id: subject_id.into(),
        data,
    }
}

#[test]
fn secret_set_redaction() {
    let ev = envelope(
        SOURCE_OX,
        kinds::SECRET_SET,
        "api_key",
        json(r#"{"name":"api_key","value":"sk-secret-123"}"#),
    );
    let redacted = ev.redacted_for_sse();
    assert!(matches!(redacted.data, Json::Object(_)));
    assert!(redacted.data.get("name").is_some());
    assert!(redacted.data.get("value").is_none());
    assert_eq!(redacted.data.get_str("name"), Some("api_key"));
    assert_eq!(redacted.subject_id, "api_key");
    assert_eq!(redacted.seq, EventSeq(1));
}

#[test]
fn non_secret_event_not_redacted() {
    let ev = envelope(
        SOURCE_OX,
        kinds::RUNNER_REGISTERED,
        "run-0001",
        json(r#"{"runner_id":"run-0001","environment":"test","labels":{}}"#),
    );
    let redacted = ev.redacted_for_sse();
    assert_eq!(ev.data.to_text(), redacted.data.to_text());
}

#[test]
fn secrets_of_other_sources_are_not_redacted() {
    let ev = envelope("cx", kinds::SECRET_SET, "x", json(r#"{"value":"v"}"#));
    assert_eq!(ev.redacted_for_sse().data.get_str("value"), Some("v"));
    let odd = envelope(SOURCE_OX, kinds::SECRET_SET, "x", json(r#"["value"]"#));
    assert_eq!(odd.redacted_for_sse().data.to_text(), r#"["value"]"#);
}

#[test]
fn resolve_top_level_and_data() {
    let ev = envelope(
        "cx",
        "node.ready",
        "Q6cY",
        json(r#"{ "title": "hi", "tags": ["workflow:code-task"] }"#),
    );
    assert_eq!(ev.resolve("event.source"), Some("cx".into()));
    assert_eq!(ev.resolve("event.kind"), Some("node.ready".into()));
    assert_eq!(ev.resolve("event.subject_id"), Some("Q6cY".into()));
    assert_eq!(ev.resolve("event.data.title"), Some("hi".into()));
    assert_eq!(ev.resolve("event.data.bogus"), None);
    assert_eq!(
        ev.resolve_value("event.data.tags").map(|v| v.to_text()),
        Some(r#"["workflow:code-task"]"#.to_string())
    );
}

#[test]
fn resolve_walks_and_prints_scalars() {
    let ev = envelope("cx", "k", "s", json(r#"{"a":{"b":{"n":-7,"f":1.5,"t":true,"z":null}},"l":[1]}"#));
    assert_eq!(ev.resolve("event.data.a.b.n"), Some("-7".into()));
    assert_eq!(ev.resolve("event.data.a.b.f"), Some("1.5".into()));
    assert_eq!(ev.resolve("event.data.a.b.t"), Some("true".into()));
    assert_eq!(ev.resolve("event.data.a.b.z"), None, "null is no scalar");
    assert_eq!(ev.resolve("event.data.a.b"), None);
    assert_eq!(ev.resolve("event.data.l.0"), None, "arrays are not walked into");
    assert_eq!(ev.resolve("data.a"), None);
    assert_eq!(ev.resolve("event.ts"), None);
    assert_eq!(ev.resolve("event.data"), None);
}

// ── ExecutionOrigin ────────────────────────────────────────────────

fn src_origin(subject: &str) -> ExecutionOrigin {
    ExecutionOrigin::Event {
        source: "cx".into(),
        kind: "node.ready".into(),
        subject_id: subject.into(),
        seq: EventSeq(42),
    }
}

#[test]
fn origins_match_for_dedup_ignores_seq() {
    let a = src_origin("aJuO");
    let mut b = src_origin("aJuO");
    if let ExecutionOrigin::Event { seq, .. } = &mut b {
        *seq = EventSeq(999);
    }
    assert!(origins_match_for_dedup(&a, &b));
}

#[test]
fn origins_match_for_dedup_respects_subject() {
    let a = src_origin("aJuO");
    let b = src_origin("other");
    assert!(!origins_match_for_dedup(&a, &b));
}

#[test]
fn manual_never_matches_for_dedup() {
    let a = src_origin("aJuO");
    let m = ExecutionOrigin::Manual { user: None };
    assert!(!origins_match_for_dedup(&a, &m));
    assert!(!origins_match_for_dedup(&m, &m));
}

#[test]
fn is_origin_active_matches_on_origin_workflow_and_liveness() {
    let origin_a = src_origin("aJuO");
    let origin_b = src_origin("other");
    let wf = "consultation";
    let active = |s: &str| s == "running";

    let existing = [(&origin_a, wf, "running")];
    assert!(is_origin_active(&existing, &origin_a, wf, active));

    let existing = [(&origin_b, wf, "running")];
    assert!(!is_origin_active(&existing, &origin_a, wf, active));

    let existing = [(&origin_a, "other-wf", "running")];
    assert!(!is_origin_active(&existing, &origin_a, wf, active));

    let existing = [(&origin_a, wf, "completed")];
    assert!(!is_origin_active(&existing, &origin_a, wf, active));
}

#[test]
fn default_origin_is_manual() {
    assert_eq!(ExecutionOrigin::default(), ExecutionOrigin::Manual { user: None });
    assert!(default_signal_match_retriable());
}

#[test]
fn trigger_failures_keep_what_they_are_made_of() {
    let missing = TriggerFailedData::from_missing_field(
        EventSeq(42),
        "node.ready",
        "consultation",
        "event.bogus".into(),
    );
    assert_eq!(missing.source_seq, EventSeq(42));
    assert_eq!(missing.on, "node.ready");
    assert_eq!(missing.workflow, "consultation");
    assert_eq!(missing.reason, TriggerFailureReason::MissingEventField { path: "event.bogus".into() });
    let invalid = TriggerFailedData::from_validation_error(EventSeq(1), "k", "w", "m".into());
    assert_eq!(invalid.reason, TriggerFailureReason::ValidationFailed { message: "m".into() });
    let unknown = TriggerFailedData::for_unknown_workflow(EventSeq(1), "k", "w");
    assert_eq!(unknown.reason, TriggerFailureReason::UnknownWorkflow);
}

#[test]
fn ingested_events_get_the_source_of_their_batch() {
    let source_event = SourceEventData {
        source: "cx".into(),
        kind: "node.ready".into(),
        subject_id: "Q6cY".into(),
        idempotency_key: "k".into(),
        tags: vec![],
        data: json("{}"),
    };
    let data: IngestEventData = source_event.into_ingest();
    assert_eq!(data.idempotency_key, "k");
    let e = data.into_envelope("cx", EventSeq(7), "2026-01-01T00:00:00Z");
    assert_eq!(e.source, "cx");
    assert_eq!(e.kind, "node.ready");
    assert_eq!(e.subject_id, "Q6cY");
    assert_eq!(e.seq, EventSeq(7));
    assert_eq!(e.data.to_text(), "{}");
}
