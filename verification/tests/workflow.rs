use ox::events::EventEnvelope;
use ox::json::{parse_json, Json};
use ox::strmap::StringMap;
use ox::types::EventSeq;
use ox::workflow::{
    interpolate_event_template, reserved_step_advance, transition_matches, RetryDecision, RetryTracker, StepAdvance,
    StepDef, TransitionDef, TriggerDef, TriggerError, TriggerWhere, TriggersFile, VarDef, VarType, WorkflowDef,
    WorkflowEngine,
};

fn json(text: &str) -> Json {
    parse_json(text).expect("valid JSON")
}

fn map(pairs: &[(&str, &str)]) -> StringMap<String> {
    let mut m = StringMap::new();
    for (k, v) in pairs {
        m.insert(k.to_string(), v.to_string());
    }
    m
}

fn make_step(name: &str) -> StepDef {
    StepDef {
        name: name.into(),
        persona: None,
        prompt: None,
        skills: vec![],
        runtime: None,
        action: None,
        output: None,
        workspace: None,
        artifacts: vec![],
        transitions: vec![],
        max_retries: None,
        max_visits: None,
        max_visits_goto: None,
        on_fail: None,
        squash: false,
    }
}

fn make_engine() -> WorkflowEngine {
    let def = WorkflowDef {
        name: "test".into(),
        description: String::new(),
        persona: None,
        skills: vec![],
        vars: StringMap::new(),
        steps: vec![
            StepDef {
                max_visits: Some(3),
                max_visits_goto: Some("tiebreak".into()),
                ..make_step("propose")
            },
            StepDef {
                transitions: vec![
                    TransitionDef {
                        match_pattern: "pass".into(),
                        goto: "implement".into(),
                    },
                    TransitionDef {
                        match_pattern: "fail".into(),
                        goto: "propose".into(),
                    },
                    TransitionDef {
                        match_pattern: "*".into(),
                        goto: "escalate".into(),
                    },
                ],
                ..make_step("review")
            },
            make_step("implement"),
            make_step("tiebreak"),
        ],
    };
    WorkflowEngine::from_def(def)
}

#[test]
fn transition_prefix_match() {
    assert!(transition_matches("pass", "pass"));
    assert!(transition_matches("pass", "pass:7"));
    assert!(!transition_matches("pass", "passing"));
    assert!(!transition_matches("pass", "fail"));
    assert!(transition_matches("*", "anything"));
}

#[test]
fn transition_pattern_may_end_with_the_colon() {
    assert!(transition_matches("fail:", "fail:lint"));
    assert!(!transition_matches("fail:", "fail"));
    assert!(!transition_matches("fail:", "failing"));
}

#[test]
fn advance_via_transition() {
    let engine = make_engine();
    let mut visits = StringMap::new();
    let result = engine.next_step("review", "pass", &mut visits);
    assert_eq!(result, StepAdvance::Goto("implement".into()));
}

#[test]
fn advance_via_declaration_order() {
    let engine = make_engine();
    let mut visits = StringMap::new();
    let result = engine.next_step("propose", "done", &mut visits);
    assert_eq!(result, StepAdvance::Goto("review".into()));
    assert_eq!(visits.get("review"), Some(&1));
    assert_eq!(visits.len(), 1, "only the visited step is counted");
}

#[test]
fn last_step_completes() {
    let engine = make_engine();
    let mut visits = StringMap::new();
    let result = engine.next_step("tiebreak", "done", &mut visits);
    assert_eq!(result, StepAdvance::Complete);
}

#[test]
fn transition_can_complete_execution() {
    let mut engine = make_engine();
    engine.steps.get_mut("review").unwrap().transitions.insert(
        0,
        TransitionDef {
            match_pattern: "none".into(),
            goto: "complete".into(),
        },
    );

    let mut visits = StringMap::new();
    let result = engine.next_step("review", "none", &mut visits);

    assert_eq!(result, StepAdvance::Complete);
    assert!(
        !visits.contains_key("complete"),
        "reserved terminal target should not be counted as a step visit"
    );
}

#[test]
fn max_visits_triggers_goto() {
    let engine = make_engine();
    let mut visits = StringMap::new();
    visits.insert("propose".to_string(), 2); // already visited twice

    // Third visit — still ok (max_visits = 3)
    let result = engine.next_step("review", "fail", &mut visits);
    assert_eq!(result, StepAdvance::Goto("propose".into()));

    // Fourth visit — exceeds max_visits, goes to tiebreak
    let result = engine.next_step("review", "fail", &mut visits);
    assert_eq!(result, StepAdvance::Goto("tiebreak".into()));
}

#[test]
fn visit_limit_holds_over_a_run() {
    let engine = make_engine(); // propose: three visits, then tiebreak
    let mut visits = StringMap::new();
    for n in 1..=6u32 {
        let result = engine.next_step("review", "fail", &mut visits);
        let want = if n <= 3 { "propose" } else { "tiebreak" };
        assert_eq!(result, StepAdvance::Goto(want.into()), "visit {n}");
        assert_eq!(visits.get("propose"), Some(&n));
        assert_eq!(visits.len(), 1, "the redirect target is not counted");
    }
}

#[test]
fn each_visit_is_counted_and_checked() {
    let engine = make_engine(); // propose: three visits, then tiebreak
    let mut visits = StringMap::new();
    for n in 1..=5u32 {
        let want = if n <= 3 { "propose" } else { "tiebreak" };
        assert_eq!(engine.check_visits("propose", &mut visits), StepAdvance::Goto(want.into()), "visit {n}");
        assert_eq!(visits.get("propose"), Some(&n));
    }
    assert_eq!(engine.check_visits("nowhere", &mut visits), StepAdvance::Goto("nowhere".into()));
    assert_eq!(visits.get("nowhere"), Some(&1));
}

#[test]
fn max_visits_without_a_target_escalates() {
    let mut engine = make_engine();
    engine.steps.get_mut("propose").unwrap().max_visits = Some(0);
    engine.steps.get_mut("propose").unwrap().max_visits_goto = None;
    let mut visits = StringMap::new();
    assert_eq!(engine.next_step("review", "fail", &mut visits), StepAdvance::Escalate);
    engine.steps.get_mut("propose").unwrap().max_visits_goto = Some("complete".into());
    assert_eq!(engine.next_step("review", "fail", &mut visits), StepAdvance::Complete);
}

#[test]
fn wildcard_catches_unknown_output() {
    let engine = make_engine();
    let mut visits = StringMap::new();
    let result = engine.next_step("review", "unknown-output", &mut visits);
    // * catch-all goes to "escalate" but escalate isn't a step, so it becomes Escalate
    assert_eq!(result, StepAdvance::Escalate);
}

#[test]
fn unknown_step_escalates() {
    let engine = make_engine();
    let mut visits = StringMap::new();
    assert_eq!(engine.next_step("nowhere", "x", &mut visits), StepAdvance::Escalate);
    assert!(visits.is_empty());
}

#[test]
fn first_step() {
    let engine = make_engine();
    assert_eq!(engine.first_step(), Some("propose"));
}

#[test]
fn last_declaration_of_a_step_counts_in_the_first_place() {
    let def = WorkflowDef {
        name: "dup".into(),
        description: String::new(),
        persona: None,
        skills: vec![],
        vars: StringMap::new(),
        steps: vec![make_step("a"), make_step("b"), StepDef { squash: true, ..make_step("a") }],
    };
    let engine = WorkflowEngine::from_def(def);
    assert_eq!(engine.first_step(), Some("a"));
    assert!(engine.step("a").unwrap().squash);
    assert!(engine.step("c").is_none());
    let mut visits = StringMap::new();
    assert_eq!(engine.next_step("b", "", &mut visits), StepAdvance::Complete);
}

#[test]
fn reserved_targets() {
    assert_eq!(reserved_step_advance("complete"), Some(StepAdvance::Complete));
    assert_eq!(reserved_step_advance("escalate"), Some(StepAdvance::Escalate));
    assert_eq!(reserved_step_advance("merge"), None);
}

#[test]
fn retry_within_budget() {
    let mut tracker = RetryTracker::new();
    assert_eq!(
        tracker.record_failure("propose", Some(2), false),
        RetryDecision::Retry { attempt: 2 }
    );
    assert_eq!(
        tracker.record_failure("propose", Some(2), false),
        RetryDecision::Retry { attempt: 3 }
    );
    assert_eq!(
        tracker.record_failure("propose", Some(2), false),
        RetryDecision::Exhausted
    );
}

#[test]
fn retry_resets_on_step_change() {
    let mut tracker = RetryTracker::new();
    tracker.record_failure("propose", Some(1), false);
    // Moving to a different step resets the count
    assert_eq!(
        tracker.record_failure("review", Some(1), false),
        RetryDecision::Retry { attempt: 2 }
    );
    assert_eq!(tracker.failures("propose"), 0);
}

#[test]
fn retry_default_budget() {
    let mut tracker = RetryTracker::new();
    for _ in 0..3 {
        assert!(matches!(
            tracker.record_failure("step", None, false),
            RetryDecision::Retry { .. }
        ));
    }
    assert_eq!(
        tracker.record_failure("step", None, false),
        RetryDecision::Exhausted
    );
}

#[test]
fn force_escalate_exhausts_immediately_and_clears_counter() {
    let mut tracker = RetryTracker::new();
    // First failure with force_escalate=true must skip the budget.
    assert_eq!(
        tracker.record_failure("propose", Some(5), true),
        RetryDecision::Exhausted,
        "force_escalate=true must return Exhausted on the first failure"
    );
    // Counter must be cleared so a manual rerun isn't poisoned —
    // the next failure on the same step starts at attempt 2 again.
    assert_eq!(
        tracker.record_failure("propose", Some(5), false),
        RetryDecision::Retry { attempt: 2 },
        "force_escalate must reset the counter so reruns aren't poisoned"
    );
}

#[test]
fn reset_grants_a_fresh_budget() {
    let mut tracker = RetryTracker::default();
    assert_eq!(tracker.record_failure("s", Some(1), false), RetryDecision::Retry { attempt: 2 });
    tracker.reset();
    assert_eq!(tracker.failures("s"), 0);
    assert_eq!(tracker.record_failure("s", Some(1), false), RetryDecision::Retry { attempt: 2 });
    assert_eq!(tracker.record_failure("s", Some(0), false), RetryDecision::Exhausted);
}

fn declared(name: &str, required: bool, default: Option<&str>) -> WorkflowDef {
    let mut vars = StringMap::new();
    vars.insert(name.to_string(), VarDef {
        var_type: VarType::default(),
        required,
        default: default.map(String::from),
        description: None,
        search_dir: None,
    });
    WorkflowDef {
        name: "test".into(),
        description: String::new(),
        persona: None,
        skills: vec![],
        vars,
        steps: vec![],
    }
}

#[test]
fn validate_vars_required() {
    let def = declared("task_id", true, None);

    // Missing required var
    let result = def.validate_vars(&StringMap::new());
    assert!(result.is_err());
    assert_eq!(result.unwrap_err(), "missing required variable: task_id");

    // Provided
    let input = map(&[("task_id", "abc")]);
    let result = def.validate_vars(&input).unwrap();
    assert_eq!(result.get("task_id").map(String::as_str), Some("abc"));
}

#[test]
fn validate_vars_defaults() {
    let def = declared("branch", false, Some("main"));

    // No input — default fills in
    let result = def.validate_vars(&StringMap::new()).unwrap();
    assert_eq!(result.get("branch").map(String::as_str), Some("main"));

    // Caller overrides default
    let input = map(&[("branch", "feature-x")]);
    let result = def.validate_vars(&input).unwrap();
    assert_eq!(result.get("branch").map(String::as_str), Some("feature-x"));

    // Validation accepts its own result
    let again = def.validate_vars(&result).unwrap();
    assert_eq!(again.len(), 1);
    assert_eq!(again.get("branch").map(String::as_str), Some("feature-x"));
}

#[test]
fn engine_validates_like_its_definition() {
    let engine = WorkflowEngine::from_def(declared("task_id", true, None));
    assert!(engine.validate_vars(&StringMap::new()).is_err());
    let kept = engine.validate_vars(&map(&[("task_id", "x"), ("extra", "y")])).unwrap();
    assert_eq!(kept.get("extra").map(String::as_str), Some("y"));
}

#[test]
fn optional_var_without_default_stays_out() {
    let def = declared("note", false, None);
    assert!(def.validate_vars(&StringMap::new()).unwrap().is_empty());
}

// ── Triggers ───────────────────────────────────────────────────────

fn sample_envelope(subject: &str, data: Json) -> EventEnvelope {
    EventEnvelope {
        seq: EventSeq(1),
        ts: "2026-04-15T12:00:00Z".into(),
        source: "cx".into(),
        kind: "node.ready".into(),
        subject_id: subject.into(),
        data,
    }
}

fn sample_source_ctx(subject: &str) -> EventEnvelope {
    sample_envelope(
        subject,
        json(r#"{
            "tags": ["workflow:code-task"],
            "state": "ready"
        }"#),
    )
}

fn trigger(source: Option<&str>, workflow: &str, vars: &[(&str, &str)]) -> TriggerDef {
    TriggerDef {
        on: "node.ready".into(),
        source: source.map(String::from),
        where_: StringMap::new(),
        workflow: workflow.into(),
        poll_interval: None,
        vars: map(vars),
    }
}

#[test]
fn where_block_filters_on_tags() {
    let mut t = trigger(Some("cx"), "consultation", &[("branch", "{event.subject_id}")]);
    t.where_.insert(
        "data.tags".to_string(),
        TriggerWhere::Contains { contains: "workflow:consultation".into() },
    );
    assert!(t.matches_where(&sample_envelope(
        "Q6cY",
        json(r#"{ "tags": ["workflow:consultation"] }"#),
    )));
    assert!(!t.matches_where(&sample_envelope(
        "Q6cY",
        json(r#"{ "tags": ["workflow:other"] }"#),
    )));
    assert!(!t.matches_where(&sample_envelope("Q6cY", json("{}"))));
}

#[test]
fn where_conditions_compare_scalars_as_text() {
    let eq = |s: &str| TriggerWhere::Eq(s.into());
    let contains = |s: &str| TriggerWhere::Contains { contains: s.into() };
    assert!(eq("7").matches(Some(json("7"))));
    assert!(eq("true").matches(Some(json("true"))));
    assert!(eq("1.5").matches(Some(json("1.5"))));
    assert!(!eq("null").matches(Some(json("null"))));
    assert!(!eq("x").matches(None));
    assert!(contains("7").matches(Some(json(r#"["a", 7]"#))));
    assert!(contains("abc").matches(Some(json(r#""abc""#))));
    assert!(contains("code").matches(Some(json(r#""code-task""#))));
    assert!(contains("").matches(Some(json(r#""""#))));
    assert!(!contains("abd").matches(Some(json(r#""abc""#))));
    assert!(!contains("ab").matches(Some(json(r#"["abc"]"#))), "an array contains whole items");
    assert!(!contains("7").matches(Some(json("7"))));
}

#[test]
fn trigger_matches_kind_and_source() {
    let ev = sample_source_ctx("n");
    assert!(trigger(Some("cx"), "w", &[]).matches(&ev));
    assert!(trigger(None, "w", &[]).matches(&ev));
    assert!(!trigger(Some("github"), "w", &[]).matches(&ev));
    let mut other = trigger(None, "w", &[]);
    other.on = "node.done".into();
    assert!(!other.matches(&ev));
}

#[test]
fn tag_is_short_for_a_predicate_on_tags() {
    let t = trigger(None, "code-task", &[]).with_tag(Some("workflow:code-task".into()));
    assert_eq!(
        t.where_.get("data.tags"),
        Some(&TriggerWhere::Contains { contains: "workflow:code-task".into() })
    );
    assert!(t.matches(&sample_source_ctx("n")));
    assert!(!t.matches(&sample_envelope("n", json(r#"{"tags":[]}"#))));
    let kept = t.with_tag(Some("other".into()));
    assert!(kept.matches(&sample_source_ctx("n")), "a predicate that is there stays");
    assert!(trigger(None, "w", &[]).with_tag(None).where_.is_empty());
    let file = TriggersFile { trigger: vec![kept] };
    assert_eq!(file.trigger.len(), 1);
}

#[test]
fn build_vars_interpolates_subject_id_into_named_var() {
    // The consultation workflow uses `branch` as its var name.
    // Its trigger maps event.subject_id → branch.
    let trigger = trigger(Some("cx"), "consultation", &[("branch", "{event.subject_id}")]);
    let ctx = sample_source_ctx("aJuO");

    let result = trigger.build_vars(&ctx).expect("build_vars should succeed");

    assert_eq!(result.get("branch").map(String::as_str), Some("aJuO"));
    assert!(
        !result.contains_key("task_id"),
        "consultation trigger must NOT silently populate task_id"
    );
}

#[test]
fn build_vars_interpolates_for_code_task_shape() {
    // The code-task workflow uses `task_id` as its var name.
    let trigger = trigger(Some("cx"), "code-task", &[("task_id", "{event.subject_id}")]);
    let ctx = sample_source_ctx("bXYz");

    let result = trigger.build_vars(&ctx).unwrap();

    assert_eq!(result.get("task_id").map(String::as_str), Some("bXYz"));
}

#[test]
fn build_vars_errors_on_unknown_event_field() {
    let trigger = trigger(None, "whatever", &[("x", "{event.bogus}")]);
    let ctx = sample_source_ctx("n");

    let err = trigger
        .build_vars(&ctx)
        .expect_err("should fail on bogus field");

    assert_eq!(
        err,
        TriggerError::MissingEventField {
            path: "event.bogus".into()
        }
    );
    assert_eq!(err.message(), "missing event field: event.bogus");
}

#[test]
fn build_vars_empty_block_returns_empty_map() {
    // A trigger with no [trigger.vars] block should produce no vars —
    // NOT magically inject task_id or anything else.
    let trigger = trigger(None, "whatever", &[]);
    let ctx = sample_source_ctx("n");

    let result = trigger.build_vars(&ctx).unwrap();
    assert!(result.is_empty());
}

#[test]
fn event_templates_pass_other_braces_through() {
    let ev = sample_source_ctx("n1");
    let out = interpolate_event_template("{event.kind}/{branch}-{event.data.state}", &ev).unwrap();
    assert_eq!(out, "node.ready/{branch}-ready");
    assert_eq!(interpolate_event_template("plain", &ev).unwrap(), "plain");
    assert_eq!(interpolate_event_template("a{b", &ev).unwrap(), "a{b");
    assert_eq!(interpolate_event_template("{event.kind}{event.kind", &ev).unwrap(), "node.ready{event.kind");
}
