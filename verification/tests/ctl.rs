use ox::client::{ExecutionDetail, StatusResponse, StepAttemptDetail, WorkflowEntry};
use ox::ctl::attach::{attach_refusal, attach_url, is_end_of_session, step_alive, tries_again};
use ox::ctl::executions::{
    attempt_row, elapsed_text, format_duration, format_origin, list_executions_text, list_row, list_runners_text,
    list_workflows_text, retry_text, show_execution_text, show_head_text, truncate_with_ellipsis,
};
use ox::ctl::logs::{can_resume, event_line, event_summary, events_url, log_url, passes_filter, unseen_log};
use ox::ctl::render::{
    log_line_figures, strip_bash_wrapper, try_render_log_line, ResultFigures, BOLD, CYAN, DIM, RED, RESET,
};
use ox::ctl::reports::{check_report, reload_report};
use ox::ctl::status::{
    collect_runner_rows, format_runners_section, format_watchers_section, parse_step_attempt, process_line,
    status_report, wanted_executions, RunnerRow, WatcherRow,
};
use ox::events::ExecutionOrigin;
use ox::json::{parse_json, Json};
use ox::strmap::StringMap;
use ox::types::{EventSeq, ExecutionId, StepAttemptId};

#[test]
fn event_summary_source_event() {
    // Canonical envelope: source/kind/subject_id live at the top level.
    let data = r#"{"seq":1,"ts":"2026-01-01T00:00:00Z","source":"cx","kind":"node.ready","subject_id":"aJuO","data":{"tags":["workflow:code-task"]}}"#;
    assert_eq!(event_summary(data), "cx aJuO");
}

#[test]
fn event_summary_step_done() {
    let data = r#"{"seq":1,"ts":"2026-01-01T00:00:00Z","source":"ox","kind":"step.done","subject_id":"e-1","data":{"execution_id":"e-1","step":"propose","output":"proposed"}}"#;
    assert_eq!(event_summary(data), "e-1 propose output=proposed");
}

#[test]
fn format_origin_event_cx_node() {
    let o = ExecutionOrigin::Event {
        source: "cx".into(),
        kind: "node.ready".into(),
        subject_id: "aJuO".into(),
        seq: EventSeq(42),
    };
    assert_eq!(format_origin(&o), "cx:aJuO");
}

#[test]
fn format_origin_manual_anonymous() {
    let o = ExecutionOrigin::Manual { user: None };
    assert_eq!(format_origin(&o), "manual");
}

#[test]
fn format_origin_manual_with_user() {
    let o = ExecutionOrigin::Manual {
        user: Some("alice".into()),
    };
    assert_eq!(format_origin(&o), "manual:alice");
}

#[test]
fn format_origin_truncates_long_values_with_ellipsis() {
    let o = ExecutionOrigin::Event {
        source: "cx".into(),
        kind: "node.ready".into(),
        subject_id: "thisIsAReallyLongNodeIdentifierForcingTruncation".into(),
        seq: EventSeq(1),
    };
    let s = format_origin(&o);
    assert!(s.chars().count() <= 24, "got {:?}", s);
    assert!(s.ends_with('…'), "got {:?}", s);
    assert!(s.starts_with("cx:"), "got {:?}", s);
}

// ── Log lines ───────────────────────────────────────────────────────

fn figures(line: &str) -> ResultFigures {
    match log_line_figures(line) {
        Some((ms, cost)) => ResultFigures {
            seconds: format!("{:.1}", ms as f64 / 1000.0),
            cost: format!("{:.4}", cost.parse::<f64>().unwrap()),
        },
        None => ResultFigures {
            seconds: String::new(),
            cost: String::new(),
        },
    }
}

fn render(line: &str) -> String {
    let mut out = String::new();
    assert!(try_render_log_line(&mut out, line, &figures(line)), "got {line:?}");
    out
}

#[test]
fn claude_assistant_text_is_bold() {
    let out = render(
        r#"{"type":"assistant","message":{"content":[{"type":"text","text":"hello world"}]}}"#,
    );
    assert!(out.contains("hello world"), "got {out:?}");
    assert!(out.contains(BOLD), "missing bold: {out:?}");
}

#[test]
fn claude_system_init_shows_session_header() {
    let out = render(
        r#"{"type":"system","subtype":"init","model":"sonnet-4-6","cwd":"/tmp/x"}"#,
    );
    assert!(out.contains("session:"));
    assert!(out.contains("model=sonnet-4-6"));
    assert!(out.contains("cwd=/tmp/x"));
}

#[test]
fn claude_bash_tool_use_renders_dollar_prompt() {
    let out = render(
        r#"{"type":"assistant","message":{"content":[{"type":"tool_use","name":"Bash","input":{"command":"ls -la","description":"list"}}]}}"#,
    );
    assert!(out.contains("$ ls -la"));
    assert!(out.contains("# list"));
}

#[test]
fn claude_tool_result_error_is_red() {
    let out = render(
        r#"{"type":"user","message":{"content":[{"type":"tool_result","is_error":true,"content":"boom"}]}}"#,
    );
    assert!(out.contains("error: boom"));
    assert!(out.contains(RED));
}

#[test]
fn claude_result_shows_done_footer() {
    let out = render(
        r#"{"type":"result","cost_usd":0.12,"duration_ms":3400,"usage":{"input_tokens":100,"output_tokens":42}}"#,
    );
    assert!(out.contains("done:"));
    assert!(out.contains("100in/42out"));
    assert!(out.contains("$0.1200"));
}

#[test]
fn invalid_json_falls_through_to_raw() {
    let out = render("not json at all");
    assert_eq!(out, "not json at all\n");
}

#[test]
fn empty_line_renders_nothing() {
    let out = render("   ");
    assert_eq!(out, "");
}



#[test]
fn codex_thread_started_shows_session_header() {
    let out = render(
        r#"{"type":"thread.started","thread_id":"019d8de2-fb51-7bb2-a40d-b02f4475724f"}"#,
    );
    assert!(out.contains("session:"), "got {out:?}");
    assert!(out.contains("thread="), "got {out:?}");
    // Full id should appear — short-form was considered but kept full for grep.
    assert!(out.contains("019d8de2-fb51-7bb2-a40d-b02f4475724f"));
    assert!(out.contains(DIM));
}

#[test]
fn codex_turn_started_is_silent() {
    let out = render(r#"{"type":"turn.started"}"#);
    assert_eq!(out, "");
}

#[test]
fn codex_agent_message_is_bold() {
    let out = render(
        r#"{"type":"item.completed","item":{"id":"item_0","type":"agent_message","text":"I'll read the file first."}}"#,
    );
    assert!(out.contains("I'll read the file first."));
    assert!(out.contains(BOLD));
}

#[test]
fn codex_agent_message_on_item_started_is_silent() {
    // agent_message is only rendered on completion to avoid double output.
    let out = render(
        r#"{"type":"item.started","item":{"id":"item_0","type":"agent_message","text":"partial"}}"#,
    );
    assert_eq!(out, "");
}

#[test]
fn codex_command_execution_started_prints_dollar_prompt() {
    let out = render(
        r#"{"type":"item.started","item":{"id":"item_1","type":"command_execution","command":"/bin/bash -lc \"sed -n '1,5p' /tmp/x\"","aggregated_output":"","exit_code":null,"status":"in_progress"}}"#,
    );
    // Bash wrapper stripped — inner command shown.
    assert!(out.contains("$ sed -n '1,5p' /tmp/x"), "got {out:?}");
    assert!(!out.contains("/bin/bash -lc"), "wrapper leaked: {out:?}");
    assert!(out.contains(CYAN));
}

#[test]
fn codex_command_execution_without_bash_wrapper_prints_raw() {
    let out = render(
        r#"{"type":"item.started","item":{"id":"i","type":"command_execution","command":"ls /tmp","aggregated_output":"","exit_code":null,"status":"in_progress"}}"#,
    );
    assert!(out.contains("$ ls /tmp"));
}

#[test]
fn codex_command_execution_completed_success_shows_dim_output_line() {
    let out = render(
        r#"{"type":"item.completed","item":{"id":"i","type":"command_execution","command":"ls","aggregated_output":"file1.txt\nfile2.txt\n","exit_code":0,"status":"completed"}}"#,
    );
    assert!(out.contains("→ file1.txt"), "got {out:?}");
    assert!(out.contains(DIM));
    assert!(!out.contains("file2.txt"), "only first line should render: {out:?}");
}

#[test]
fn codex_command_execution_completed_error_shows_red() {
    let out = render(
        r#"{"type":"item.completed","item":{"id":"i","type":"command_execution","command":"false","aggregated_output":"permission denied","exit_code":1,"status":"completed"}}"#,
    );
    assert!(out.contains("error"));
    assert!(out.contains("permission denied"));
    assert!(out.contains(RED));
}

#[test]
fn codex_file_change_started_lists_each_path() {
    let out = render(
        r#"{"type":"item.started","item":{"id":"i","type":"file_change","changes":[{"path":"/tmp/a.md","kind":"add"},{"path":"/tmp/b.md","kind":"update"}],"status":"in_progress"}}"#,
    );
    assert!(out.contains("add /tmp/a.md"), "got {out:?}");
    assert!(out.contains("update /tmp/b.md"), "got {out:?}");
    assert!(out.contains(CYAN));
}

#[test]
fn codex_file_change_completed_is_silent() {
    // Already announced on start — completion is noise.
    let out = render(
        r#"{"type":"item.completed","item":{"id":"i","type":"file_change","changes":[{"path":"/tmp/a.md","kind":"add"}],"status":"completed"}}"#,
    );
    assert_eq!(out, "");
}

#[test]
fn codex_turn_completed_shows_done_footer() {
    let out = render(
        r#"{"type":"turn.completed","usage":{"input_tokens":289532,"cached_input_tokens":268672,"output_tokens":2213}}"#,
    );
    assert!(out.contains("done:"), "got {out:?}");
    assert!(out.contains("289532in"));
    assert!(out.contains("2213out"));
    assert!(out.contains("268672 cached"));
    assert!(out.contains(DIM));
}

// ── Status ──────────────────────────────────────────────────────────

fn row(
    source: &str,
    cursor: Option<&str>,
    updated_at: &str,
    last_error: Option<&str>,
) -> WatcherRow {
    WatcherRow {
        source: source.into(),
        cursor: cursor.map(String::from),
        updated_at: updated_at.into(),
        last_error: last_error.map(String::from),
    }
}

fn runner_row(
    id: &str,
    status: &str,
    workflow: Option<&str>,
    exec_id: Option<&str>,
    step: Option<&str>,
    attempt: Option<u32>,
) -> RunnerRow {
    RunnerRow {
        id: id.into(),
        status: status.into(),
        workflow: workflow.map(String::from),
        exec_id: exec_id.map(String::from),
        step: step.map(String::from),
        attempt,
    }
}

#[test]
fn format_runners_section_empty_returns_empty_string() {
    assert_eq!(format_runners_section(&[]), "");
}

#[test]
fn format_runners_section_renders_header_and_busy_row() {
    let out = format_runners_section(&[runner_row(
        "run-4a2f",
        "executing",
        Some("deploy-api"),
        Some("aJuO-e1"),
        Some("propose"),
        Some(2),
    )]);
    assert!(out.contains("ID"), "header missing ID: {out}");
    assert!(out.contains("STATUS"), "header missing STATUS: {out}");
    assert!(out.contains("WORKFLOW"), "header missing WORKFLOW: {out}");
    assert!(out.contains("STEP"), "header missing STEP: {out}");
    assert!(out.contains("run-4a2f"));
    assert!(out.contains("executing"));
    assert!(out.contains("deploy-api"));
    assert!(out.contains("aJuO-e1"));
    assert!(out.contains("propose"));
    // Attempt number surfaces somewhere (e.g. "propose#2" or "propose/2").
    assert!(out.contains('2'), "attempt number missing: {out}");
}

#[test]
fn format_runners_section_renders_idle_as_dashes() {
    let out = format_runners_section(&[runner_row(
        "run-91bc",
        "idle",
        None,
        None,
        None,
        None,
    )]);
    assert!(out.contains("run-91bc"));
    assert!(out.contains("idle"));
    // No raw "None" or "null" in the display.
    assert!(
        !out.contains("None") && !out.contains("null"),
        "raw null should not leak: {out}"
    );
    // A dash placeholder appears for the missing workflow/step fields.
    assert!(out.contains('-'), "expected dash placeholder, got: {out}");
}

#[test]
fn format_runners_section_renders_multiple_rows() {
    let out = format_runners_section(&[
        runner_row(
            "run-4a2f",
            "executing",
            Some("deploy-api"),
            Some("aJuO-e1"),
            Some("propose"),
            Some(2),
        ),
        runner_row("run-91bc", "idle", None, None, None, None),
    ]);
    assert!(out.contains("run-4a2f"));
    assert!(out.contains("run-91bc"));
    let lines: Vec<_> = out.lines().collect();
    assert!(
        lines.len() >= 3,
        "expected header + 2 data rows, got {lines:?}"
    );
}

#[test]
fn parse_step_attempt_canonical() {
    assert_eq!(
        parse_step_attempt("aJuO-e1/propose/2"),
        Some(("aJuO-e1".to_string(), "propose".to_string(), 2))
    );
}

#[test]
fn parse_step_attempt_empty_returns_none() {
    assert_eq!(parse_step_attempt(""), None);
}

#[test]
fn parse_step_attempt_missing_parts_returns_none() {
    assert_eq!(parse_step_attempt("aJuO-e1"), None);
    assert_eq!(parse_step_attempt("aJuO-e1/propose"), None);
}

#[test]
fn parse_step_attempt_non_numeric_attempt_returns_none() {
    assert_eq!(parse_step_attempt("aJuO-e1/propose/abc"), None);
}

#[test]
fn format_watchers_section_empty_returns_empty_string() {
    assert_eq!(format_watchers_section(&[]), "");
}

#[test]
fn format_watchers_section_renders_header_and_alive_row() {
    let out = format_watchers_section(&[row(
        "cx",
        Some("d59b010abc12def3"),
        "2026-04-15T12:00:03Z",
        None,
    )]);
    assert!(out.contains("SOURCE"), "header row missing: {out}");
    assert!(out.contains("LAST INGEST"));
    assert!(out.contains("CURSOR"));
    assert!(out.contains("STATUS"));
    assert!(out.contains("cx"));
    assert!(out.contains("2026-04-15T12:00:03Z"));
    assert!(out.contains("alive"));
    // Full cursor truncated for display — leading prefix still present.
    assert!(out.contains("d59b010abc12"), "cursor prefix missing in: {out}");
}

#[test]
fn format_watchers_section_shows_last_error_in_status_column() {
    let out = format_watchers_section(&[row(
        "cx",
        Some("sha-abc"),
        "2026-04-15T12:00:03Z",
        Some("cas:expected None got \"sha-real\""),
    )]);
    assert!(
        out.contains("cas:expected"),
        "last_error should appear in status column: {out}"
    );
    assert!(
        !out.contains(" alive "),
        "alive must not be shown when last_error is set: {out}"
    );
}

#[test]
fn format_watchers_section_renders_null_cursor_as_placeholder() {
    let out = format_watchers_section(&[row(
        "cx",
        None,
        "2026-04-15T12:00:03Z",
        None,
    )]);
    // Missing cursor: show "-" or similar placeholder, not "null".
    assert!(
        !out.contains("null"),
        "raw null should not leak to display: {out}"
    );
    assert!(
        out.contains(" - ") || out.contains(" -\n") || out.contains("  -"),
        "expected dash placeholder, got: {out}"
    );
}

#[test]
fn format_watchers_section_renders_multiple_rows() {
    let out = format_watchers_section(&[
        row("cx", Some("aaaaaaaabbbbcccc"), "2026-04-15T11:00:00Z", None),
        row(
            "linear",
            Some("2026-04-15T12:00:00Z"),
            "2026-04-15T12:00:03Z",
            None,
        ),
    ]);
    assert!(out.contains("cx"));
    assert!(out.contains("linear"));
    // Both have their own line.
    let lines: Vec<_> = out.lines().collect();
    assert!(
        lines.len() >= 3,
        "expected header + 2 data rows, got {lines:?}"
    );
}

fn json(text: &str) -> Json {
    parse_json(text).expect("valid JSON")
}

#[test]
fn summaries_of_other_events() {
    assert_eq!(event_summary("not json"), "");
    assert_eq!(event_summary(r#"{"source":"cx"}"#), "cx");
    assert_eq!(event_summary(r#"{"data":{"runner_id":"run-1","error":"boom"}}"#), "run-1 error=boom");
    assert_eq!(event_summary(r#"{"source":"ox","name":"token"}"#), "token");
}

#[test]
fn truncation_keeps_the_width() {
    assert_eq!(truncate_with_ellipsis("abcdef", 6), "abcdef");
    assert_eq!(truncate_with_ellipsis("abcdef", 5), "abcd…");
    assert_eq!(truncate_with_ellipsis("äöü", 2), "ä…");
}

#[test]
fn durations() {
    assert_eq!(format_duration(59), "59s");
    assert_eq!(format_duration(60), "1m0s");
    assert_eq!(format_duration(125), "2m5s");
    assert_eq!(format_duration(-5), "-5s");
}

#[test]
fn failed_lines_are_cut() {
    let long = "x".repeat(250);
    let out = render(&format!(
        r#"{{"type":"user","message":{{"content":[{{"type":"tool_result","is_error":true,"content":"{long}"}}]}}}}"#
    ));
    assert_eq!(out, format!("{RED}  error: {}...{RESET}\n", "x".repeat(200)));
    let long = format!("{}ä", "x".repeat(199));
    let line =
        format!(r#"{{"type":"user","message":{{"content":[{{"type":"tool_result","is_error":true,"content":"{long}"}}]}}}}"#);
    let mut out = String::from("kept");
    assert!(!try_render_log_line(&mut out, &line, &figures(&line)), "the cut falls inside a character");
    assert_eq!(out, "kept");
}

#[test]
fn tools_have_their_own_lines() {
    let tool = |name: &str, input: &str| {
        render(&format!(
            r#"{{"type":"assistant","message":{{"content":[{{"type":"tool_use","name":"{name}","input":{input}}}]}}}}"#
        ))
    };
    assert_eq!(tool("Read", r#"{"file_path":"/a"}"#), format!("{CYAN}  read /a{RESET}\n"));
    assert_eq!(tool("Write", r#"{"file_path":"/a"}"#), format!("{CYAN}  write /a{RESET}\n"));
    assert_eq!(tool("Edit", r#"{}"#), format!("{CYAN}  edit ?{RESET}\n"));
    assert_eq!(tool("Glob", r#"{"pattern":"*.rs"}"#), format!("{CYAN}  glob *.rs{RESET}\n"));
    assert_eq!(tool("Grep", r#"{"pattern":"x"}"#), format!("{CYAN}  grep x{RESET}\n"));
    assert_eq!(tool("Task", r#"{"a":[1,"q\"b"]}"#), format!("{CYAN}  Task({{\"a\":[1,\"q\\\"b\"]}}){RESET}\n"));
}

#[test]
fn footer_of_a_session_in_full() {
    let out = render(r#"{"type":"result","cost_usd":0.12,"duration_ms":3400,"usage":{"input_tokens":100,"output_tokens":42}}"#);
    assert_eq!(out, format!("{DIM}── done: 3.4s, 100in/42out, $0.1200 ──{RESET}\n"));
    assert_eq!(render(r#"{"type":"result","duration_ms":3400}"#), "");
}

#[test]
fn bash_wrapper_is_stripped_once() {
    assert_eq!(strip_bash_wrapper(r#"/bin/bash -lc "echo \"hi\"""#), r#"echo "hi""#);
    assert_eq!(strip_bash_wrapper("/bin/bash -lc ls"), "/bin/bash -lc ls");
    assert_eq!(strip_bash_wrapper(r#"/bin/bash -lc ""#), r#"/bin/bash -lc ""#);
}

#[test]
fn executions_table() {
    let resp = json(
        r#"{"total":3,"executions":[
            {"id":"e-1","workflow":"code-task","status":"running","created_at":"2026-04-15T12:30:00Z"},
            {"id":"e-2","status":"completed","current_step":"review","created_at":"yesterday"}
        ]}"#,
    );
    let origins = vec![Some(ExecutionOrigin::Manual { user: None }), None];
    let out = list_executions_text(&resp, &origins);
    let lines: Vec<&str> = out.lines().collect();
    assert_eq!(
        lines[0],
        format!("{:<22} {:<16} {:<26} {:<14} {:<12} {:<20}", "ID", "WORKFLOW", "ORIGIN", "STEP", "STATUS", "CREATED")
    );
    assert_eq!(
        lines[1],
        format!("{:<22} {:<16} {:<26} {:<14} {:<12} {:<20}", "e-1", "code-task", "manual", "-", "pending", "2026-04-15 12:30:00")
    );
    assert_eq!(
        lines[2],
        format!("{:<22} {:<16} {:<26} {:<14} {:<12} {:<20}", "e-2", "-", "-", "review", "completed", "-")
    );
    assert_eq!(lines[4], "2 of 3 total (use --all or -n to see more)");
}

fn attempt(step: &str, completed_at: Option<&str>) -> StepAttemptDetail {
    StepAttemptDetail {
        step: step.into(),
        attempt: 1,
        runner_id: Some("run-1".into()),
        status: "done".into(),
        output: None,
        signals: vec![],
        error: None,
        transition: completed_at.map(|_| "review".into()),
        started_at: "2026-04-15T12:00:00Z".into(),
        completed_at: completed_at.map(String::from),
    }
}

fn detail(status: &str, current_step: Option<&str>) -> ExecutionDetail {
    let mut vars = StringMap::new();
    vars.insert("task_id".to_string(), "aJuO".to_string());
    ExecutionDetail {
        id: "e-1".into(),
        vars,
        origin: ExecutionOrigin::Manual { user: Some("alice".into()) },
        workflow: "code-task".into(),
        status: status.into(),
        current_step: current_step.map(String::from),
        current_attempt: 1,
        created_at: "2026-04-15T12:00:00Z".into(),
        attempts: vec![attempt("propose", Some("2026-04-15T12:01:05Z")), attempt("review", None)],
    }
}

#[test]
fn execution_in_full() {
    let out = show_execution_text(&detail("running", Some("review")), "2026-04-15T12:00:07Z");
    let lines: Vec<&str> = out.lines().collect();
    assert_eq!(lines[0], "Execution: e-1");
    assert_eq!(lines[1], "Origin:    manual:alice");
    assert_eq!(lines[2], "Created:   2026-04-15 12:00:00");
    assert_eq!(lines[3], "  task_id: aJuO");
    assert_eq!(lines[4], "Workflow:  code-task");
    assert_eq!(lines[5], "Status:    running");
    let row = |cells: [&str; 8]| {
        format!(
            "{:<4} {:<14} {:<8} {:<10} {:<10} {:<10} {:<12} {:<16}",
            cells[0], cells[1], cells[2], cells[3], cells[4], cells[5], cells[6], cells[7]
        )
    };
    assert_eq!(lines[8], row(["1", "propose", "1", "done", "run-1", "1m5s", "-", "→ review"]));
    assert_eq!(lines[9], row(["2", "review", "1", "done", "run-1", "7s…", "-", "-"]));
}

#[test]
fn rows_with_given_times() {
    let e = json(r#"{"id":"e-9","status":"running","current_step":"review"}"#);
    assert_eq!(list_row(&e, &None, Some("then".into())), vec!["e-9", "-", "-", "review", "running", "then"]);
    assert_eq!(elapsed_text(Some(61), false), "1m1s");
    assert_eq!(elapsed_text(Some(61), true), "1m1s…");
    assert_eq!(elapsed_text(None, true), "-");
    assert_eq!(
        attempt_row(3, &attempt("propose", None), "4s".into()),
        vec!["3", "propose", "1", "done", "run-1", "4s", "-", "-"]
    );
    assert!(show_head_text(&detail("running", None), "then").contains("\nCreated:   then\n"));
}

#[test]
fn runners_and_workflows_tables() {
    let out = list_runners_text(&json(r#"{"runners":[{"id":"run-1","environment":"seguro","status":"idle"}]}"#));
    assert_eq!(out.lines().nth(1).unwrap(), format!("{:<12} {:<12} {:<12} {:<24}", "run-1", "seguro", "idle", "-"));
    let out = list_workflows_text(&vec![WorkflowEntry { name: "w".into(), steps: vec!["a".into(), "b".into()] }]);
    assert_eq!(out.lines().nth(1).unwrap(), format!("{:<20} {:<8} {}", "w", 2, "a, b"));
    assert_eq!(retry_text("e-1", true, "e-2"), "Retry of e-1 (from start) → e-2");
}

#[test]
fn logs_are_read_on() {
    assert_eq!(log_url("http://s", "e-1", "propose", None, None), "http://s/api/executions/e-1/steps/propose/log");
    assert_eq!(
        log_url("http://s", "e-1", "propose", Some(2), Some(50)),
        "http://s/api/executions/e-1/steps/propose/log?attempt=2&lines=50"
    );
    assert!(can_resume("abcdef", 3));
    assert_eq!(unseen_log("abcdef", 3), Some("def".to_string()));
    assert_eq!(unseen_log("abc", 3), None);
    assert!(!can_resume("ä", 1));
}

#[test]
fn events_are_tailed() {
    assert_eq!(events_url("http://s", None), "http://s/api/events/stream");
    assert_eq!(events_url("http://s", Some(0)), "http://s/api/events/stream?last_event_id=0");
    assert!(passes_filter("step.done", Some("step.")));
    assert!(!passes_filter("step.done", Some("execution.")));
    assert!(passes_filter("step.done", None));
    assert_eq!(event_line("12", "step.done", "x"), format!("{:<6} {:<24} {}", "12", "step.done", "x"));
}

#[test]
fn configuration_reports() {
    let (ok, text) = reload_report(&json(r#"{"status":"ok","workflows":2,"runtimes":["a"]}"#));
    assert!(ok);
    assert_eq!(text, "Config reloaded:\n  workflows: 2\n  runtimes:  [\"a\"]\n");
    let (ok, text) = reload_report(&json(r#"{"status":"error","errors":["bad",{"x":1}]}"#));
    assert!(!ok);
    assert_eq!(text, "Reload failed:\n  bad\n  {\"x\":1}\n");
    let (ok, text) = check_report(&json(
        r#"{"valid":true,"changes":{"personas":{"added":[],"removed":[]},"workflows":{"added":["a"],"removed":[]}}}"#,
    ));
    assert!(ok);
    assert_eq!(text, "Config valid.\n  workflows: +1 -0\n");
    let (ok, text) = check_report(&json(r#"{"errors":["bad"]}"#));
    assert!(!ok);
    assert_eq!(text, "Config invalid:\n  bad\n");
}

#[test]
fn runner_rows_come_from_the_pool() {
    let pool = json(
        r#"{"runners":[
            {"id":"run-1","status":"executing","current_step":"aJuO-e1/propose/2"},
            {"id":"run-2","status":"idle","current_step":null}
        ]}"#,
    );
    assert_eq!(wanted_executions(&pool), vec!["aJuO-e1"]);
    let mut workflows = StringMap::new();
    workflows.insert("aJuO-e1".to_string(), "code-task".to_string());
    let rows = collect_runner_rows(&pool, &workflows);
    assert_eq!(
        format_runners_section(&rows),
        format!(
            "  {:<12} {:<10} {:<20} STEP\n  {:<12} {:<10} {:<20} aJuO-e1/propose#2\n  {:<12} {:<10} {:<20} -\n",
            "ID", "STATUS", "WORKFLOW", "run-1", "executing", "code-task", "run-2", "idle", "-"
        )
    );
}

#[test]
fn status_in_full() {
    let s = StatusResponse {
        status: "ok".into(),
        pool_size: 3,
        pool_executing: 1,
        pool_idle: 2,
        executions_running: 1,
        workflows_loaded: 4,
        event_seq: 99,
    };
    let head = "ox-server   ok   seq 99\npool        3 runners (1 executing, 2 idle)\nexecutions  1 running\nworkflows   4 loaded\n";
    assert_eq!(status_report(&s, &[], &[]), head);
    let out = status_report(&s, &[], &[row("cx", None, "t", None)]);
    assert_eq!(
        out,
        format!("{head}\nwatchers\n{}", format_watchers_section(&[row("cx", None, "t", None)]))
    );
}

#[test]
fn step_attempts_read_back() {
    let id = StepAttemptId { execution_id: ExecutionId("a/b-e1".into()), step: "propose".into(), attempt: 3 };
    assert_eq!(parse_step_attempt(&id.to_text()), Some(("a/b-e1".to_string(), "propose".to_string(), 3)));
}

#[test]
fn terminals_attach_to_live_steps_only() {
    let e = detail("running", Some("review"));
    assert!(step_alive(&e, "review"));
    assert_eq!(attach_refusal(&e, "e-1", "review"), None);
    assert_eq!(attach_refusal(&e, "e-1", "propose"), Some("current step is 'review', not 'propose'".to_string()));
    let over = detail("completed", None);
    assert!(!step_alive(&over, "review"));
    assert_eq!(attach_refusal(&over, "e-1", "review"), Some("execution e-1 is completed, not running".to_string()));
    assert_eq!(attach_url("https://h:1", "e-1", "s"), "wss://h:1/api/executions/e-1/steps/s/pty");
    assert!(tries_again(8));
    assert!(!tries_again(9));
    assert!(is_end_of_session("__ox_pty_eof__"));
    assert!(!is_end_of_session("ls"));
}

#[test]
fn processes_of_the_ensemble() {
    assert_eq!(process_line("server", 12, true), "  server     pid=12  alive\n");
    assert_eq!(process_line("runner-1", 7, false), "  runner-1   pid=7  dead \n");
}
