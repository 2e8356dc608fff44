use ox::client::{CxNodeSnapshot, CxStateSnapshot};
use ox::events::SourceEventData;
use ox::json::{parse_json, Json};
use ox::strmap::StringMap;
use ox::watcher::batch::{build_cold_start_batch, build_incremental_batch, next_cursor, tick_outcome, TickOutcome};
use ox::watcher::client::{
    conflict_of, cursor_endpoint, ingest_status, posts_again, IngestBody, IngestOutcome, IngestResponseBody,
    IngestStatus,
};
use ox::watcher::cx::{parse_cx_list, parse_cx_show, summarise_log_entries, CxCommentEntry, CxLogDiff, CxLogEntry};
use ox::watcher::mapping::{comment_to_event, snapshot_to_event};

fn json(text: &str) -> Json {
    parse_json(text).expect("valid JSON")
}

fn snap(id: &str, state: &str, tags: &[&str], shadowed: bool) -> CxNodeSnapshot {
    CxNodeSnapshot {
        node_id: id.into(),
        state: state.into(),
        tags: tags.iter().map(|s| s.to_string()).collect(),
        shadowed,
        shadow_reason: None,
        comment_count: 0,
    }
}

#[test]
fn ready_node_becomes_node_ready_event() {
    let s = snap("Q6cY", "ready", &["workflow:code-task"], false);
    let ev = snapshot_to_event(&s, "a1b2c3d4e5f6aabb").expect("ready → node.ready");
    assert_eq!(ev.source, "cx");
    assert_eq!(ev.kind, "node.ready");
    assert_eq!(ev.subject_id, "Q6cY");
    assert_eq!(ev.tags, vec!["workflow:code-task".to_string()]);
    assert_eq!(ev.idempotency_key, "Q6cY:node.ready:a1b2c3d4e5f6");
    assert_eq!(ev.data.get_str("state"), Some("ready"));
    assert_eq!(ev.data.get_str("node_id"), Some("Q6cY"));
}

#[test]
fn claimed_node_becomes_node_claimed_event() {
    let s = snap("stuk", "claimed", &["workflow:code-task"], false);
    let ev = snapshot_to_event(&s, "deadbeef11224455").expect("claimed → node.claimed");
    assert_eq!(ev.kind, "node.claimed");
    assert_eq!(ev.idempotency_key, "stuk:node.claimed:deadbeef1122");
}

#[test]
fn integrated_node_becomes_node_done_event() {
    let s = snap("Ygdt", "integrated", &[], false);
    let ev = snapshot_to_event(&s, "cafebabe99887766").expect("integrated → node.done");
    assert_eq!(ev.kind, "node.done");
    assert!(ev.tags.is_empty());
}

#[test]
fn latent_node_emits_nothing() {
    let s = snap("zzz", "latent", &[], false);
    assert!(snapshot_to_event(&s, "abc").is_none());
}

/// State suppression: a shadowed, ready node MUST NOT emit
/// `node.ready`. This is the filter that protects the server-side
/// matcher from knowing cx's lifecycle.
#[test]
fn shadowed_ready_node_is_filtered() {
    let s = snap("Ygdt", "ready", &["workflow:code-task"], true);
    assert!(
        snapshot_to_event(&s, "abc").is_none(),
        "shadowed ready nodes must not emit node.ready"
    );
}

/// Shadowed `integrated` / `claimed` states are still observable
/// facts — only `node.ready` (the spawner event) is filtered on
/// shadow.
#[test]
fn shadowed_integrated_node_still_emits_node_done() {
    let s = snap("Ygdt", "integrated", &[], true);
    let ev = snapshot_to_event(&s, "abc").expect("integrated is observational");
    assert_eq!(ev.kind, "node.done");
}

#[test]
fn idempotency_key_is_stable_for_same_inputs() {
    let s = snap("Q6cY", "ready", &[], false);
    let a = snapshot_to_event(&s, "aaaaaaaaaaaabbbb").unwrap();
    let b = snapshot_to_event(&s, "aaaaaaaaaaaabbbb").unwrap();
    assert_eq!(a.idempotency_key, b.idempotency_key);
}

#[test]
fn idempotency_key_differs_across_cursor_hashes() {
    let s = snap("Q6cY", "ready", &[], false);
    let a = snapshot_to_event(&s, "aaaaaaaaaaaabbbb").unwrap();
    let b = snapshot_to_event(&s, "cccccccccccc1111").unwrap();
    assert_ne!(a.idempotency_key, b.idempotency_key);
}

#[test]
fn comment_becomes_comment_added_event() {
    let c = CxCommentEntry {
        node_id: "Q6cY".into(),
        tag: Some("review".into()),
        author: Some("alice".into()),
        hash: "deadbeef11224455".into(),
    };
    let ev = comment_to_event(&c);
    assert_eq!(ev.source, "cx");
    assert_eq!(ev.kind, "comment.added");
    assert_eq!(ev.subject_id, "Q6cY");
    assert_eq!(ev.tags, vec!["review".to_string()]);
    assert_eq!(ev.idempotency_key, "Q6cY:comment.added:alice:review:deadbeef1122");
    assert_eq!(ev.data.get_str("author"), Some("alice"));
}

#[test]
fn comment_with_no_tag_uses_dash_slots() {
    let c = CxCommentEntry {
        node_id: "Q6cY".into(),
        tag: None,
        author: None,
        hash: "feedfacefeedface".into(),
    };
    let ev = comment_to_event(&c);
    assert!(ev.tags.is_empty());
    assert_eq!(ev.idempotency_key, "Q6cY:comment.added:-:-:feedfacefeed");
}

#[test]
fn parse_cx_list_maps_state_and_tags_correctly() {
    let stdout = br#"[
        {
            "id": "CcoT",
            "state": "ready",
            "tags": ["workflow:code-task"],
            "effective_tags": ["workflow:code-task"],
            "shadowed": false,
            "title": "ready and tagged"
        },
        {
            "id": "stuk",
            "state": "claimed",
            "tags": ["workflow:code-task"],
            "effective_tags": ["workflow:code-task"],
            "shadowed": true,
            "title": "claimed and shadowed"
        }
    ]"#;

    let snap = parse_cx_list(stdout).expect("parses");
    assert_eq!(snap.nodes.len(), 2);
    assert_eq!(snap.nodes.get("CcoT").unwrap().state, "ready");
    assert!(snap.nodes.get("stuk").unwrap().shadowed);
}

#[test]
fn parse_cx_show_extracts_state_tags_shadowed() {
    let stdout = br#"{
        "id": "Ygdt",
        "state": "integrated",
        "tags": ["workflow:code-task"],
        "shadowed": false
    }"#;
    let node = parse_cx_show(stdout).expect("parses");
    assert_eq!(node.state, "integrated");
    assert_eq!(node.tags, vec!["workflow:code-task"]);
}

#[test]
fn cx_output_that_is_not_understood() {
    assert!(parse_cx_list(b"not json").is_none());
    assert!(parse_cx_list(b"{}").is_none());
    assert!(parse_cx_list(b"\xff").is_none());
    assert!(parse_cx_show(br#"{"id":"x"}"#).is_none());
    assert!(parse_cx_show(b"[").is_none());
    let list = parse_cx_list(br#"[{"id":"x"},{"id":"y","state":"ready"}]"#).unwrap();
    assert_eq!(list.nodes.len(), 1, "nodes without a state are left out");
}

#[test]
fn summarise_log_entries_extracts_touched_and_comments() {
    // cx log returns newest-first; the first entry wins as latest_hash.
    let entries = vec![
        CxLogEntry {
            changes: vec![
                json(r#"{"action": "state_changed", "node_id": "CcoT"}"#),
                json(r#"{
                    "action": "comment_added",
                    "node_id": "Ygdt",
                    "tag": "review",
                    "author": "alice"
                }"#),
            ],
            hash: "deadbeef".into(),
            date: "2026-04-15".into(),
            subject: "test".into(),
        },
        CxLogEntry {
            changes: vec![json(r#"{"action": "created", "node_id": "Ygdt"}"#)],
            hash: "cafe1234".into(),
            date: "2026-04-14".into(),
            subject: "test".into(),
        },
    ];

    let diff = summarise_log_entries(&entries);
    assert_eq!(diff.latest_hash.as_deref(), Some("deadbeef"));
    assert_eq!(diff.touched, vec!["CcoT".to_string(), "Ygdt".to_string()]);
    assert_eq!(diff.comments.len(), 1);
    assert_eq!(diff.comments[0].node_id, "Ygdt");
    assert_eq!(diff.comments[0].tag.as_deref(), Some("review"));
    assert_eq!(diff.comments[0].author.as_deref(), Some("alice"));
    assert_eq!(diff.comments[0].hash, "deadbeef");
}

#[test]
fn summarise_log_entries_empty_returns_none_cursor() {
    let diff = summarise_log_entries(&vec![]);
    assert!(diff.touched.is_empty());
    assert!(diff.comments.is_empty());
    assert!(diff.latest_hash.is_none());
}

#[test]
fn cold_start_posts_the_whole_state() {
    let mut nodes = StringMap::new();
    for n in [snap("a", "ready", &[], false), snap("b", "latent", &[], false), snap("c", "integrated", &[], true)] {
        nodes.insert(n.node_id.clone(), n);
    }
    let b = build_cold_start_batch(&CxStateSnapshot { nodes }, "0123456789abcdef");
    assert_eq!(b.source, "cx");
    assert_eq!(b.cursor_before, None);
    assert_eq!(b.cursor_after, "0123456789abcdef");
    let keys: Vec<&str> = b.events.iter().map(|e| e.idempotency_key.as_str()).collect();
    assert_eq!(keys, vec!["a:node.ready:0123456789ab", "c:node.done:0123456789ab"]);
    assert!(b.events.iter().all(|e| e.source == "cx"));
}

#[test]
fn incremental_tick_posts_nodes_then_comments() {
    let diff = CxLogDiff {
        touched: vec!["a".into()],
        comments: vec![CxCommentEntry { node_id: "a".into(), tag: None, author: None, hash: "feedfacefeedface".into() }],
        latest_hash: Some("0123456789abcdef".into()),
    };
    let b = build_incremental_batch(&diff, &vec![snap("a", "claimed", &[], false)], "old").unwrap();
    assert_eq!(b.cursor_before.as_deref(), Some("old"));
    assert_eq!(b.cursor_after, "0123456789abcdef");
    let kinds: Vec<&str> = b.events.iter().map(|e| e.kind.as_str()).collect();
    assert_eq!(kinds, vec!["node.claimed", "comment.added"]);
    let quiet = CxLogDiff { touched: vec![], comments: vec![], latest_hash: None };
    assert!(build_incremental_batch(&quiet, &vec![], "old").is_none());
}

fn sample_event(key: &str) -> SourceEventData {
    SourceEventData {
        source: "cx".into(),
        kind: "node.ready".into(),
        subject_id: "Q6cY".into(),
        idempotency_key: key.into(),
        tags: vec![],
        data: json("{}"),
    }
}

#[test]
fn committed_batches_advance_the_cursor() {
    let body = IngestBody {
        source: "cx".into(),
        cursor_before: None,
        cursor_after: "sha-abc".into(),
        events: vec![sample_event("Q6cY:node.ready:sha-abc")],
    };
    assert_eq!(ingest_status(200), IngestStatus::Committed);
    let outcome = IngestOutcome::Committed(IngestResponseBody { appended: 1, deduped: 0 });
    let tick = tick_outcome(Some(&body.cursor_after), Some(&outcome));
    assert_eq!(tick, TickOutcome::Advanced("sha-abc".into()));
    assert_eq!(next_cursor(None, tick, None), Some("sha-abc".to_string()));
    assert_eq!(next_cursor(Some("x".into()), tick_outcome(None, None), None), Some("x".to_string()));
}

#[test]
fn conflicting_batches_leave_the_cursor_to_the_server() {
    assert_eq!(ingest_status(409), IngestStatus::Conflict);
    assert_eq!(ingest_status(500), IngestStatus::Failed);
    assert!(posts_again(1, IngestStatus::Conflict));
    assert!(!posts_again(2, IngestStatus::Conflict));
    assert!(!posts_again(1, IngestStatus::Failed));
    let outcome = conflict_of(&json(r#"{"expected":null,"actual":"sha-realhead"}"#));
    match &outcome {
        IngestOutcome::Conflict { expected, actual } => {
            assert_eq!(*expected, None);
            assert_eq!(actual.as_deref(), Some("sha-realhead"));
        }
        other => panic!("expected Conflict, got {other:?}"),
    }
    assert_eq!(tick_outcome(Some("sha-new"), Some(&outcome)), TickOutcome::CasConflict);
    let refetched = Some(Some("sha-realhead".to_string()));
    assert_eq!(next_cursor(None, TickOutcome::CasConflict, refetched), Some("sha-realhead".to_string()));
    assert_eq!(next_cursor(Some("x".into()), TickOutcome::CasConflict, None), Some("x".to_string()));
    assert_eq!(cursor_endpoint("cx"), "/api/watchers/cx/cursor");
}
