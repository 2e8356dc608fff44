use ox::client::{CxNodeSnapshot, CxStateSnapshot, Payload};
use ox::events::{
    ExecutionCreatedData, ExecutionEscalatedData, ExecutionOrigin, RunnerDrainedData, RunnerHeartbeatMissedData,
    RunnerRegisteredData, SignalMatch, StepConfirmedData, StepDispatchedData, StepDoneData, StepFailedData,
    StepSignalsData, StepTimeoutData, TriggerFailureReason,
};
use ox::herder::events::{classify_event, HerderEvent, HerderEventKind};
use ox::herder::schedule::{next_backoff, stream_url, Progress, Request};
use ox::herder::state::{ExecPhase, ExecStatus, ExecutionView, Herder};
use ox::herder::triggers::{ready_nodes, NodeRef, TriggerOutcome};
use ox::json::Json;
use ox::strmap::StringMap;
use ox::types::{EventSeq, ExecutionId, RunnerId};
use ox::workflow::{
    RetryTracker, StepDef, TransitionDef, TriggerDef, WorkflowDef, WorkspaceDef,
};

fn step(name: &str) -> StepDef {
    StepDef {
        name: name.into(),
        persona: None,
        prompt: None,
        skills: vec![],
        runtime: None,
        action: None,
        output: None,
        workspace: None,
        artifacts: vec![],
        transitions: vec![],
        max_retries: None,
        max_visits: None,
        max_visits_goto: None,
        on_fail: None,
        squash: false,
    }
}

fn workflow(name: &str, steps: Vec<StepDef>) -> WorkflowDef {
    WorkflowDef {
        name: name.into(),
        description: String::new(),
        persona: None,
        skills: vec![],
        vars: StringMap::new(),
        steps,
    }
}

// ── Triggers ────────────────────────────────────────────────────────

fn ready_node(node_id: &str, tags: &[&str]) -> CxNodeSnapshot {
    CxNodeSnapshot {
        node_id: node_id.to_string(),
        state: "ready".into(),
        tags: tags.iter().map(|s| s.to_string()).collect(),
        shadowed: false,
        shadow_reason: None,
        comment_count: 0,
    }
}

fn snapshot(nodes: Vec<CxNodeSnapshot>) -> CxStateSnapshot {
    let mut m = StringMap::new();
    for n in nodes {
        m.insert(n.node_id.clone(), n);
    }
    CxStateSnapshot { nodes: m }
}

fn code_task_trigger() -> TriggerDef {
    TriggerDef {
        on: "cx.task_ready".into(),
        source: None,
        where_: StringMap::new(),
        workflow: "code-task".into(),
        poll_interval: None,
        vars: StringMap::new(),
    }
    .with_tag(Some("workflow:code-task".into()))
}

fn herder_with_trigger() -> Herder {
    let mut h = Herder::new(0);
    h.triggers = vec![code_task_trigger()];
    h.replaying = false;
    h
}

/// Evaluates all triggers for all ready nodes, and takes every execution that they
/// call for as created. Returns what was created.
fn reconcile_triggers(h: &mut Herder, snap: &CxStateSnapshot) -> Vec<(String, String, ExecutionOrigin)> {
    let mut created = Vec::new();
    for node in ready_nodes(snap) {
        for i in 0..h.triggers.len() {
            if let TriggerOutcome::Create(x) = h.evaluate_trigger(&h.triggers[i], &node) {
                created.push((x.workflow.clone(), x.trigger.clone(), x.origin.clone()));
                h.execution_started(format!("exec-mock-{}-{}", node.node_id, created.len()), x);
            }
        }
    }
    created
}

fn node_origin(node_id: &str) -> ExecutionOrigin {
    ExecutionOrigin::Event {
        source: "cx".into(),
        kind: "cx.task_ready".into(),
        subject_id: node_id.into(),
        seq: EventSeq(0),
    }
}

fn existing_execution(node_id: &str) -> ExecutionView {
    ExecutionView {
        vars: StringMap::new(),
        origin: node_origin(node_id),
        workflow: "code-task".into(),
        status: ExecStatus::Running,
        phase: ExecPhase::AwaitingStep,
        visit_counts: StringMap::new(),
        last_output: None,
        retry_tracker: RetryTracker::new(),
        force_escalate: false,
    }
}

/// Two reconcile passes in rapid succession (faster than the SSE
/// round-trip that would carry the execution.created event back to
/// the herder) must NOT both fire. The dedup gate has to see the
/// freshly-created execution immediately, before SSE catches up.
#[test]
fn reconcile_does_not_double_fire_before_sse_catches_up() {
    let snap = snapshot(vec![ready_node("Ygdt", &["workflow:code-task"])]);
    let mut h = herder_with_trigger();
    let mut calls = reconcile_triggers(&mut h, &snap);
    calls.extend(reconcile_triggers(&mut h, &snap));
    assert_eq!(
        calls.len(),
        1,
        "expected exactly one execution to be created, got {}",
        calls.len()
    );
}

/// Reconcile must fire for a ready+tagged node that has no active
/// execution: a node was already in `state: ready` and the tag was
/// added later, so the event-driven path never saw a state transition.
#[test]
fn reconcile_fires_for_ready_tagged_node() {
    let snap = snapshot(vec![ready_node("CcoT", &["workflow:code-task"])]);
    let mut h = herder_with_trigger();
    let calls = reconcile_triggers(&mut h, &snap);
    assert_eq!(calls.len(), 1, "expected one execution to be created");
    assert_eq!(calls[0].0, "code-task");
    assert_eq!(calls[0].1, "cx.task_ready");
    assert_eq!(calls[0].2, node_origin("CcoT"));
}

/// Reconcile must NOT fire if an execution for the same (origin,
/// workflow) is already running. Idempotency under repeated ticks is
/// the whole point of state-driven reconciliation.
#[test]
fn reconcile_skips_when_origin_already_active() {
    let snap = snapshot(vec![ready_node("CcoT", &["workflow:code-task"])]);
    let mut h = herder_with_trigger();
    h.executions.insert("exec-existing".into(), existing_execution("CcoT"));
    let mut calls = reconcile_triggers(&mut h, &snap);
    calls.extend(reconcile_triggers(&mut h, &snap));
    assert_eq!(
        calls.len(),
        0,
        "expected no executions when origin already active"
    );
}

/// Two ready+tagged nodes, one with an active execution. Reconcile
/// must fire exactly once — for the unblocked node.
#[test]
fn reconcile_fires_only_for_unblocked_nodes() {
    let snap = snapshot(vec![
        ready_node("CcoT", &["workflow:code-task"]),
        ready_node("aBcD", &["workflow:code-task"]),
    ]);
    let mut h = herder_with_trigger();
    h.executions.insert("exec-existing".into(), existing_execution("CcoT"));
    let calls = reconcile_triggers(&mut h, &snap);
    assert_eq!(calls.len(), 1, "expected exactly one new execution");
    assert_eq!(calls[0].2, node_origin("aBcD"));
}

#[test]
fn escalated_executions_block_and_completed_ones_do_not() {
    let snap = snapshot(vec![ready_node("CcoT", &["workflow:code-task"])]);
    let mut h = herder_with_trigger();
    let mut e = existing_execution("CcoT");
    e.status = ExecStatus::Escalated;
    h.executions.insert("e".into(), e);
    assert!(reconcile_triggers(&mut h, &snap).is_empty());
    let mut e = existing_execution("CcoT");
    e.status = ExecStatus::Completed;
    h.executions.insert("e".into(), e);
    assert_eq!(reconcile_triggers(&mut h, &snap).len(), 1);
}

#[test]
fn nodes_that_are_not_ready_call_for_nothing() {
    let mut shadowed = ready_node("a", &["workflow:code-task"]);
    shadowed.shadowed = true;
    let mut claimed = ready_node("b", &["workflow:code-task"]);
    claimed.state = "claimed".into();
    let untagged = ready_node("c", &[]);
    let mut h = herder_with_trigger();
    assert!(reconcile_triggers(&mut h, &snapshot(vec![shadowed, claimed, untagged])).is_empty());
    let node = NodeRef {
        node_id: "d".into(),
        event_type: "cx.task_ready".into(),
        tags: vec!["workflow:code-task".into()],
        state: Some("integrated".into()),
    };
    assert!(matches!(h.evaluate_trigger(&h.triggers[0], &node), TriggerOutcome::Skip));
}

#[test]
fn triggers_with_missing_fields_are_reported() {
    let mut h = herder_with_trigger();
    h.triggers[0].vars.insert("task_id".to_string(), "{event.data.title}".to_string());
    h.last_seq = 7;
    let node = &ready_nodes(&snapshot(vec![ready_node("CcoT", &["workflow:code-task"])]))[0];
    match h.evaluate_trigger(&h.triggers[0], node) {
        TriggerOutcome::Failed(d) => {
            assert_eq!(d.source_seq, EventSeq(7));
            assert_eq!(d.on, "cx.task_ready");
            assert_eq!(d.workflow, "code-task");
            match d.reason {
                TriggerFailureReason::MissingEventField { path } => assert_eq!(path, "event.data.title"),
                other => panic!("{other:?}"),
            }
        }
        other => panic!("{other:?}"),
    }
    h.triggers[0].vars.insert("task_id".to_string(), "{event.subject_id}".to_string());
    match h.evaluate_trigger(&h.triggers[0], node) {
        TriggerOutcome::Create(x) => assert_eq!(x.vars.get("task_id").map(String::as_str), Some("CcoT")),
        other => panic!("{other:?}"),
    }
}

// ── Events and scheduling ───────────────────────────────────────────

fn herder(steps: Vec<StepDef>) -> Herder {
    let mut h = Herder::new(0);
    h.load_workflows(vec![], vec![workflow("w", steps)]);
    h.finish_replay();
    h
}

fn exec_id() -> ExecutionId {
    ExecutionId("e-1".into())
}

fn feed(h: &mut Herder, event: HerderEvent) {
    assert!(h.fits(&event));
    let seq = h.last_seq + 1;
    h.handle_event(seq, event);
    assert_eq!(h.last_seq, seq);
}

fn register(h: &mut Herder, id: &str) {
    feed(
        h,
        HerderEvent::RunnerRegistered(RunnerRegisteredData {
            runner_id: RunnerId(id.into()),
            environment: "local".into(),
            labels: StringMap::new(),
        }),
    );
}

fn create(h: &mut Herder, start_step: Option<&str>) {
    let mut vars = StringMap::new();
    vars.insert("task_id".to_string(), "T1".to_string());
    feed(
        h,
        HerderEvent::ExecutionCreated(ExecutionCreatedData {
            execution_id: exec_id(),
            workflow: "w".into(),
            trigger: "manual".into(),
            vars,
            origin: ExecutionOrigin::Manual { user: None },
            start_step: start_step.map(String::from),
        }),
    );
}

fn dispatch_event(s: &str, runner: &str) -> HerderEvent {
    HerderEvent::StepDispatched(StepDispatchedData {
        execution_id: exec_id(),
        step: s.into(),
        attempt: 1,
        runner_id: RunnerId(runner.into()),
        secret_refs: vec![],
        runtime: Json::Null,
        workspace: Json::Null,
        artifacts: vec![],
    })
}

fn done(s: &str, output: &str) -> HerderEvent {
    HerderEvent::StepDone(StepDoneData { execution_id: exec_id(), step: s.into(), attempt: 1, output: output.into() })
}

fn confirmed(s: &str) -> HerderEvent {
    HerderEvent::StepConfirmed(StepConfirmedData {
        execution_id: exec_id(),
        step: s.into(),
        attempt: 1,
        metrics: None,
    })
}

fn failed(s: &str) -> HerderEvent {
    HerderEvent::StepFailed(StepFailedData {
        execution_id: exec_id(),
        step: s.into(),
        attempt: 1,
        error: "signal:exited_silent".into(),
    })
}

fn process(h: &mut Herder) -> Progress {
    assert!(h.can_process("e-1"));
    h.process_execution("e-1")
}

fn phase(h: &Herder) -> &ExecPhase {
    &h.executions.get("e-1").unwrap().phase
}

#[test]
fn event_types_are_told_apart() {
    assert_eq!(classify_event("runner.registered"), HerderEventKind::RunnerRegistered);
    assert_eq!(classify_event("step.timeout"), HerderEventKind::StepTimeout);
    assert_eq!(classify_event("cx.task_ready"), HerderEventKind::CxTaskReady);
    assert_eq!(classify_event("step.running"), HerderEventKind::Other);
}

#[test]
fn an_execution_from_creation_to_completion() {
    let mut h = herder(vec![step("propose"), step("review")]);
    register(&mut h, "run-1");
    create(&mut h, None);
    assert!(matches!(process(&mut h), Progress::Unchanged));
    let ready = h.ready_steps();
    assert_eq!(ready.len(), 1);
    assert_eq!((ready[0].step.as_str(), ready[0].attempt), ("propose", 1));
    let params = h.assign(&ready[0]).expect("the runner is idle");
    assert_eq!(params.runner_id.0, "run-1");
    assert_eq!(params.execution_id, "e-1");
    assert_eq!(params.vars.get("task_id").map(String::as_str), Some("T1"));
    assert!(matches!(params.runtime, Payload::Null));
    assert!(h.assign(&ready[0]).is_none(), "work goes to idle runners only");
    h.dispatch_succeeded("e-1");
    assert!(matches!(phase(&h), ExecPhase::AwaitingStep));
    assert!(h.ready_steps().is_empty());

    feed(&mut h, done("propose", "proposed"));
    feed(&mut h, confirmed("propose"));
    assert!(h.runners.get("run-1").unwrap().idle);
    match process(&mut h) {
        Progress::Changed(Some(Request::Advance { from_step, to_step, .. })) => {
            assert_eq!((from_step.as_str(), to_step.as_str()), ("propose", "review"));
        }
        other => panic!("{other:?}"),
    }
    assert!(matches!(phase(&h), ExecPhase::Ready { step, attempt: 1 } if step == "review"));

    feed(&mut h, confirmed("review"));
    assert!(matches!(process(&mut h), Progress::Changed(Some(Request::Complete { .. }))));
    assert_eq!(h.executions.get("e-1").unwrap().status, ExecStatus::Completed);
    assert!(h.running_executions().is_empty());
    feed(&mut h, failed("review"));
    assert!(matches!(phase(&h), ExecPhase::Done), "ended executions stay ended");
}

#[test]
fn transitions_may_escalate() {
    let mut review = step("review");
    review.transitions = vec![TransitionDef { match_pattern: "*".into(), goto: "escalate".into() }];
    let mut h = herder(vec![review]);
    create(&mut h, None);
    feed(&mut h, done("review", "hm"));
    feed(&mut h, confirmed("review"));
    match process(&mut h) {
        Progress::Changed(Some(Request::Escalate { step, reason, .. })) => {
            assert_eq!(step, "review");
            assert_eq!(reason, "max visits exceeded or wildcard escalation");
        }
        other => panic!("{other:?}"),
    }
    assert_eq!(h.executions.get("e-1").unwrap().status.as_str(), "escalated");
}

#[test]
fn failures_use_up_the_retries() {
    let mut s = step("propose");
    s.max_retries = Some(1);
    let mut h = herder(vec![s]);
    create(&mut h, None);
    feed(&mut h, failed("propose"));
    assert!(matches!(process(&mut h), Progress::Changed(None)));
    assert!(matches!(phase(&h), ExecPhase::Ready { attempt: 2, .. }));
    feed(&mut h, failed("propose"));
    match process(&mut h) {
        Progress::Changed(Some(Request::Escalate { reason, .. })) => assert_eq!(reason, "retries exhausted"),
        other => panic!("{other:?}"),
    }
}

#[test]
fn repeated_failures_escalate_once() {
    for (max, on_fail) in [(None, None), (Some(0), None), (Some(2), Some("escalate"))] {
        let limit = max.unwrap_or(3);
        let mut s = step("propose");
        s.max_retries = max;
        s.on_fail = on_fail.map(String::from);
        let mut h = herder(vec![s]);
        create(&mut h, None);
        for k in 1..=limit + 3 {
            feed(&mut h, dispatch_event("propose", "run-1"));
            assert!(matches!(process(&mut h), Progress::Unchanged));
            feed(&mut h, failed("propose"));
            let progress = process(&mut h);
            let status = h.executions.get("e-1").unwrap().status;
            if k <= limit {
                assert!(matches!(progress, Progress::Changed(None)), "failure {k}");
                assert!(matches!(phase(&h), ExecPhase::Ready { step, attempt } if step == "propose" && *attempt == k + 1));
                assert_eq!(status, ExecStatus::Running);
            } else {
                match progress {
                    Progress::Changed(Some(Request::Escalate { execution_id, step, reason })) => {
                        assert_eq!(k, limit + 1, "one escalation");
                        assert_eq!(
                            (execution_id.as_str(), step.as_str(), reason.as_str()),
                            ("e-1", "propose", "retries exhausted")
                        );
                    }
                    Progress::Unchanged => assert!(k > limit + 1),
                    other => panic!("{other:?}"),
                }
                assert_eq!(status, ExecStatus::Escalated);
                assert!(matches!(phase(&h), ExecPhase::Done));
            }
        }
    }
}

#[test]
fn late_events_leave_ended_executions_alone() {
    let mut h = herder(vec![step("propose")]);
    register(&mut h, "run-1");
    create(&mut h, None);
    feed(&mut h, done("propose", "proposed"));
    feed(&mut h, confirmed("propose"));
    process(&mut h);
    let late = vec![
        dispatch_event("propose", "run-1"),
        done("propose", "other"),
        HerderEvent::StepSignals(StepSignalsData {
            execution_id: exec_id(),
            step: "propose".into(),
            attempt: 1,
            signals: vec![],
            signal_matches: vec![],
        }),
        confirmed("propose"),
        failed("propose"),
        HerderEvent::StepTimeout(StepTimeoutData {
            execution_id: exec_id(),
            step: "propose".into(),
            attempt: 1,
            timeout_secs: 60,
            runner_id: RunnerId("run-1".into()),
        }),
        HerderEvent::RunnerHeartbeatMissed(RunnerHeartbeatMissedData {
            runner_id: RunnerId("run-1".into()),
            last_seen: "t".into(),
            grace_period_secs: 60,
            execution_id: Some("e-1".into()),
            step: Some("propose".into()),
            attempt: Some(1),
        }),
    ];
    for event in late {
        feed(&mut h, event);
        let e = h.executions.get("e-1").unwrap();
        assert_eq!(e.status, ExecStatus::Completed);
        assert!(matches!(e.phase, ExecPhase::Done));
        assert_eq!(e.last_output.as_deref(), Some("proposed"));
    }
}

#[test]
fn final_signals_grant_no_retry() {
    let mut h = herder(vec![step("propose")]);
    create(&mut h, None);
    feed(
        &mut h,
        HerderEvent::StepSignals(StepSignalsData {
            execution_id: exec_id(),
            step: "propose".into(),
            attempt: 1,
            signals: vec!["auth".into()],
            signal_matches: vec![SignalMatch { name: "auth".into(), line: "l".into(), retriable: false }],
        }),
    );
    feed(&mut h, failed("propose"));
    assert!(matches!(process(&mut h), Progress::Changed(Some(Request::Escalate { .. }))));
}

#[test]
fn exhausted_steps_go_where_they_say() {
    let mut s = step("propose");
    s.max_retries = Some(0);
    s.on_fail = Some("review".into());
    let mut review = step("review");
    review.max_visits = Some(1);
    let mut h = herder(vec![s, review]);
    create(&mut h, None);
    feed(&mut h, failed("propose"));
    assert!(matches!(process(&mut h), Progress::Changed(None)));
    assert!(matches!(phase(&h), ExecPhase::Ready { step, attempt: 1 } if step == "review"));
    feed(&mut h, failed("propose"));
    match process(&mut h) {
        Progress::Changed(Some(Request::Escalate { step, reason, .. })) => {
            assert_eq!(step, "review");
            assert_eq!(reason, "on_fail target exceeded max_visits");
        }
        other => panic!("{other:?}"),
    }
}

#[test]
fn infrastructure_failures_burn_no_retry() {
    let mut h = herder(vec![step("propose")]);
    register(&mut h, "run-1");
    create(&mut h, None);
    feed(&mut h, dispatch_event("propose", "run-1"));
    assert!(!h.runners.get("run-1").unwrap().idle);
    feed(
        &mut h,
        HerderEvent::RunnerHeartbeatMissed(RunnerHeartbeatMissedData {
            runner_id: RunnerId("run-1".into()),
            last_seen: "2026-04-15T12:00:00Z".into(),
            grace_period_secs: 60,
            execution_id: Some("e-1".into()),
            step: Some("propose".into()),
            attempt: Some(1),
        }),
    );
    assert!(h.runners.is_empty());
    assert!(matches!(phase(&h), ExecPhase::Ready { attempt: 1, .. }));
    assert_eq!(h.executions.get("e-1").unwrap().retry_tracker.failures("propose"), 0);
    feed(
        &mut h,
        HerderEvent::StepTimeout(StepTimeoutData {
            execution_id: exec_id(),
            step: "propose".into(),
            attempt: 1,
            runner_id: RunnerId("run-1".into()),
            timeout_secs: 5,
        }),
    );
    assert!(matches!(phase(&h), ExecPhase::Ready { attempt: 1, .. }));
}

#[test]
fn retried_executions_start_where_they_failed() {
    let mut h = herder(vec![step("propose"), step("review")]);
    create(&mut h, Some("review"));
    assert!(matches!(phase(&h), ExecPhase::Ready { step, .. } if step == "review"));
    feed(
        &mut h,
        HerderEvent::ExecutionEscalated(ExecutionEscalatedData {
            execution_id: exec_id(),
            step: "review".into(),
            reason: "r".into(),
        }),
    );
    assert_eq!(h.executions.get("e-1").unwrap().status, ExecStatus::Escalated);
}

#[test]
fn merges_are_asked_for_and_reported_back() {
    let mut merge = step("merge");
    merge.action = Some("merge_to_main".into());
    merge.squash = true;
    merge.workspace = Some(WorkspaceDef {
        git_clone: true,
        branch: Some("task-{task_id}".into()),
        push: true,
        read_only: false,
    });
    let mut h = herder(vec![merge]);
    create(&mut h, None);
    assert!(h.is_action_step("e-1", "merge"));
    assert!(h.ready_steps().is_empty(), "actions are not dispatched");
    match process(&mut h) {
        Progress::Merge(m) => {
            assert_eq!(m.branch, "task-T1");
            assert!(m.squash);
            assert_eq!(m.attempt, 1);
        }
        other => panic!("{other:?}"),
    }
    h.merge_failed("e-1", "merge", "conflict");
    assert!(matches!(phase(&h), ExecPhase::NeedsFailure { error, .. } if error == "conflict"));
    h.merge_succeeded("e-1", "merge");
    assert_eq!(h.executions.get("e-1").unwrap().last_output.as_deref(), Some("pass"));
    assert!(matches!(process(&mut h), Progress::Changed(Some(Request::Complete { .. }))));
}

#[test]
fn unknown_actions_fail_their_step() {
    let mut odd = step("odd");
    odd.action = Some("dance".into());
    let mut h = herder(vec![odd]);
    create(&mut h, None);
    match process(&mut h) {
        Progress::Changed(Some(Request::Fail { step, attempt, error, .. })) => {
            assert_eq!((step.as_str(), attempt), ("odd", 1));
            assert_eq!(error, "unknown action: dance");
        }
        other => panic!("{other:?}"),
    }
}

#[test]
fn surplus_runners_are_drained() {
    let mut h = herder(vec![step("propose")]);
    for id in ["run-1", "run-2", "run-3"] {
        register(&mut h, id);
    }
    assert!(h.surplus_runners().is_empty(), "no target, no limit");
    h.pool_target = 2;
    create(&mut h, None);
    let ready = h.ready_steps();
    let runner = h.assign(&ready[0]).unwrap().runner_id;
    let drained = h.surplus_runners();
    assert_eq!(drained.len(), 1);
    assert_ne!(drained[0], runner, "busy runners are left alone");
    h.dispatch_failed(&runner);
    assert!(h.runners.get(runner.0.as_str()).unwrap().idle);
    feed(
        &mut h,
        HerderEvent::RunnerDrained(RunnerDrainedData { runner_id: RunnerId("run-3".into()), reason: "x".into() }),
    );
    assert_eq!(h.runners.len(), 2);
}

#[test]
fn replay_queues_nothing() {
    let ready = || HerderEvent::CxTaskReady { node_id: "n".into(), tags: vec!["t".into()] };
    let mut h = Herder::new(0);
    assert!(h.replaying);
    feed(&mut h, ready());
    assert!(h.pending_triggers.is_empty());
    h.finish_replay();
    feed(&mut h, ready());
    let pending = h.take_pending();
    assert_eq!(pending.len(), 1);
    assert_eq!(pending[0].node_id, "n");
    assert!(h.pending_triggers.is_empty());
}

#[test]
fn streams_are_taken_up_again() {
    assert_eq!(next_backoff(1), 2);
    assert_eq!(next_backoff(16), 30);
    assert_eq!(next_backoff(u64::MAX), 30);
    assert_eq!(stream_url("http://s/", 9), "http://s/api/events/stream?last_event_id=9");
}
