use ox::events::SignalMatch;
use ox::json::Json;
use ox::runner::proxy::{
    collect_proxy_metrics, is_hop_header, is_hop_response_header, try_extract_metrics, ProxyMetrics,
};
use ox::runner::pty::pty_url;
use ox::runner::scan::{line_of, scan_failure_signals, tail_start};
use ox::runner::socket::{handle_line, parse_command, RuntimeCommand};
use ox::runner::step::{
    collect_signals, file_mode, is_assigned_to, log_position, log_resume, path_with, resolve_file_path,
    resolve_placeholders, socket_path_of, step_metrics, tmp_dir_of, work_dir_of, ExitReport, Stage, StepAction,
    StepAssignment, StepEvent, StepRun, WorkspaceSpec,
};
use ox::runtime::{compile_signals, CompiledFailureSignal, ResolvedFile, ResolvedStepSpec, RuntimeFailureSignal};
use ox::strmap::StringMap;
use ox::types::RunnerId;

// ── Socket ──────────────────────────────────────────────────────────

#[test]
fn parse_done() {
    let cmd = parse_command("done pass:7").unwrap();
    assert!(matches!(cmd, RuntimeCommand::Done { output } if output == "pass:7"));
}

#[test]
fn parse_done_no_output() {
    let cmd = parse_command("done").unwrap();
    assert!(matches!(cmd, RuntimeCommand::Done { output } if output.is_empty()));
}

#[test]
fn parse_metric() {
    let cmd = parse_command("metric input_tokens 14523").unwrap();
    assert!(
        matches!(cmd, RuntimeCommand::Metric { name, value } if name == "input_tokens" && value == "14523")
    );
}

#[test]
fn parse_artifact() {
    let cmd = parse_command("artifact proposal SGVsbG8=").unwrap();
    assert!(
        matches!(cmd, RuntimeCommand::Artifact { name, data } if name == "proposal" && data == "SGVsbG8=")
    );
}

#[test]
fn parse_artifact_done() {
    let cmd = parse_command("artifact-done proposal").unwrap();
    assert!(matches!(cmd, RuntimeCommand::ArtifactDone { name } if name == "proposal"));
}

#[test]
fn parse_unknown() {
    assert!(parse_command("foobar").is_none());
}

#[test]
fn lines_are_answered() {
    assert!(matches!(handle_line("   \n"), (None, None)));
    let (cmd, reply) = handle_line("foobar\n");
    assert!(cmd.is_none());
    assert_eq!(reply.as_deref(), Some("error: unknown command: foobar\n"));
}

// ── Proxy ───────────────────────────────────────────────────────────

#[test]
fn extract_anthropic_metrics() {
    let body = br#"{"usage":{"input_tokens":100,"output_tokens":50}}"#;

    let mut m = ProxyMetrics::default();
    assert!(try_extract_metrics("anthropic", body, 250, &mut m));

    assert_eq!(m.request_count, 1);
    assert_eq!(m.total_input_tokens, 100);
    assert_eq!(m.total_output_tokens, 50);
    assert_eq!(m.total_latency_ms, 250);
}

#[test]
fn extract_openai_metrics() {
    let body = br#"{"usage":{"prompt_tokens":200,"completion_tokens":75}}"#;

    let mut m = ProxyMetrics::default();
    assert!(try_extract_metrics("openai", body, 500, &mut m));

    assert_eq!(m.total_input_tokens, 200);
    assert_eq!(m.total_output_tokens, 75);
}

#[test]
fn metrics_of_other_responses() {
    let mut m = ProxyMetrics::default();
    assert!(try_extract_metrics("other", br#"{"usage":{"input_tokens":9}}"#, 5, &mut m));
    assert_eq!((m.request_count, m.total_input_tokens, m.total_latency_ms), (1, 0, 5));
    assert!(try_extract_metrics("openai", b"no json", 5, &mut m));
    assert_eq!(m.request_count, 1, "what is not JSON is not counted");
    m.request_count = u64::MAX;
    assert!(!try_extract_metrics("openai", b"{}", 5, &mut m));
    assert_eq!(m.total_latency_ms, 5);
}

#[test]
fn proxy_metrics_are_numbered() {
    let a = ProxyMetrics { request_count: 1, total_input_tokens: 2, total_output_tokens: 3, total_latency_ms: 4 };
    let v = collect_proxy_metrics(&vec![ProxyMetrics::default(), a]);
    let p = v.get("proxy_1").unwrap();
    assert_eq!(p.get("request_count").unwrap().as_u64(), Some(1));
    assert_eq!(p.get("total_latency_ms").unwrap().as_u64(), Some(4));
    assert!(v.get("proxy_2").is_none());
    assert!(is_hop_header("host"));
    assert!(!is_hop_header("authorization"));
    assert!(is_hop_response_header("connection"));
    assert!(!is_hop_response_header("host"));
}

// ── Scan ────────────────────────────────────────────────────────────

fn compile(name: &str, pattern: &str, tail_bytes: usize) -> CompiledFailureSignal {
    let signals = vec![RuntimeFailureSignal {
        name: name.into(),
        pattern: pattern.into(),
        retriable: false,
        tail_bytes,
    }];
    compile_signals(&signals).unwrap().pop().unwrap()
}

#[test]
fn match_found_in_tail() {
    let log = b"info: starting\nerror: authentication_error happened\ninfo: bye\n";
    let sig = compile("auth_failed", "authentication_error", 65_536);
    let matches = scan_failure_signals(log, &[sig]);
    assert_eq!(matches.len(), 1);
    assert_eq!(matches[0].name, "auth_failed");
    assert!(
        matches[0].line.contains("authentication_error"),
        "matched line should contain the pattern, got: {:?}",
        matches[0].line
    );
    assert_eq!(matches[0].line, "error: authentication_error happened");
    assert!(!matches[0].retriable);
}

#[test]
fn no_match_returns_empty() {
    let log = b"all clear\nnothing to see\n";
    let sig = compile("auth_failed", "authentication_error", 65_536);
    let matches = scan_failure_signals(log, &[sig]);
    assert!(matches.is_empty());
}

#[test]
fn partial_utf8_at_tail_boundary_does_not_panic() {
    // A 4-byte UTF-8 char (🦀 = F0 9F A6 80). We craft a tail that
    // begins mid-multibyte: the 3 trailing bytes of 🦀 followed by
    // an ASCII line containing the pattern. With tail_bytes = 16
    // the tail starts inside the 🦀, so the scanner must drop the
    // partial bytes before treating the slice as UTF-8.
    let mut bytes = vec![b'A'; 32];
    bytes.extend_from_slice("🦀rust".as_bytes());
    bytes.extend_from_slice(b"\nauth: authentication_error\n");
    let sig = compile("auth_failed", "authentication_error", 16);
    // The scan must not panic. The pattern lies past the 16-byte
    // tail boundary, so it might not match — the only assertion is
    // that we get a clean Vec back.
    let _ = scan_failure_signals(&bytes, &[sig]);
}

#[test]
fn missing_log_file_returns_empty() {
    // A log that cannot be read counts as an empty one.
    let sig = compile("auth_failed", "authentication_error", 65_536);
    let matches = scan_failure_signals(&[], &[sig]);
    assert!(matches.is_empty());
}

#[test]
fn empty_log_file_returns_empty() {
    let log = b"";
    let sig = compile("auth_failed", "authentication_error", 65_536);
    let matches = scan_failure_signals(log, &[sig]);
    assert!(matches.is_empty());
}

#[test]
fn file_smaller_than_tail_bytes_scans_whole_file() {
    let log = b"oops authentication_error\n";
    // tail_bytes way larger than file — must still match.
    let sig = compile("auth_failed", "authentication_error", 1_048_576);
    let matches = scan_failure_signals(log, &[sig]);
    assert_eq!(matches.len(), 1);
}

#[test]
fn file_larger_than_tail_bytes_misses_early_only_match() {
    // 200 KiB of filler followed by an unrelated tail. The pattern
    // appears only in the early region, well before the 64 KiB
    // tail window — proves the bound is honored, not bypassed.
    let mut bytes = Vec::with_capacity(220_000);
    bytes.extend_from_slice(b"start: authentication_error here\n");
    bytes.extend(std::iter::repeat(b'.').take(200_000));
    bytes.extend_from_slice(b"\nclean tail with no signal\n");
    let sig = compile("auth_failed", "authentication_error", 65_536);
    let matches = scan_failure_signals(&bytes, &[sig]);
    assert!(
        matches.is_empty(),
        "early-only match must be missed once it falls outside the tail window"
    );
}

#[test]
fn multiple_signals_each_match_independently() {
    let log = b"info: launching\nerror: authentication_error\nwarn: rate_limit_exceeded\nbye\n";
    let auth = compile("auth_failed", "authentication_error", 65_536);
    let rate = compile("rate_limited", "rate_limit_exceeded", 65_536);
    let matches = scan_failure_signals(log, &[auth, rate]);
    let names: Vec<_> = matches.iter().map(|m| m.name.as_str()).collect();
    assert!(names.contains(&"auth_failed"));
    assert!(names.contains(&"rate_limited"));
    assert_eq!(matches.len(), 2);
}

#[test]
fn broken_bytes_in_a_log_are_replaced() {
    let sig = compile("s", "bad .+ byte", 65_536);
    let matches = scan_failure_signals(b"bad \xff byte\n", &[sig]);
    assert_eq!(matches[0].line, "bad \u{fffd} byte");
}

#[test]
fn windows_start_with_whole_characters() {
    let log = "xä🦀y".as_bytes();
    assert_eq!(tail_start(log, 100), 0);
    assert_eq!(tail_start(log, 1), 7);
    assert_eq!(tail_start(log, 3), 7, "what is left of a character is dropped");
    assert_eq!(tail_start(log, 5), 3);
    assert_eq!(tail_start(log, 0), 8);
}

#[test]
fn the_first_line_that_matches_is_reported() {
    let text = "ab\nbüc\r\nbd";
    assert_eq!(line_of(text, 0), "ab");
    assert_eq!(line_of(text, 2), "ab", "a line end belongs to the line that it ends");
    assert_eq!(line_of(text, 4), "büc");
    assert_eq!(line_of(text, 9), "bd");
    assert_eq!(line_of(text, text.len()), "bd");
    let sig = compile("s", "b[^a]", 100);
    assert_eq!(scan_failure_signals(b"ab\nbc\nbd", &[sig])[0].line, "ab");
    let sig = compile("s", "(?m)^b", 100);
    assert_eq!(scan_failure_signals(b"ab\nbc\r\nbd", &[sig])[0].line, "bc");
}

#[test]
fn patterns_match_across_lines() {
    let sig = compile("s", "one\\ntwo", 100);
    let matches = scan_failure_signals(b"zero\nand one\ntwo\n", &[sig]);
    assert_eq!(matches.len(), 1);
    assert_eq!(matches[0].line, "and one");
}

// ── Steps ───────────────────────────────────────────────────────────

fn assignment(git_clone: bool, push: bool) -> StepAssignment {
    let mut env = StringMap::new();
    env.insert("KEY".to_string(), "v".to_string());
    StepAssignment {
        execution_id: "aJuO-e1".into(),
        step: "propose".into(),
        attempt: 2,
        resolved: Some(ResolvedStepSpec {
            command: vec!["run".into(), "{workspace}/x".into()],
            interactive_command: None,
            tty: false,
            files: vec![ResolvedFile { content: "c".into(), to: "{tmp_dir}/f".into(), mode: "0600".into() }],
            env,
            proxy: vec![],
            metrics: vec![],
            failure_signals: vec![],
        }),
        workspace: WorkspaceSpec { git_clone, branch: Some("b1".into()), push, read_only: false },
    }
}

fn step_run(a: StepAssignment) -> StepRun {
    StepRun::new(a, "http://s/", "/w", Some("/home/u"), Some(&RunnerId("run-1".into())), Some("/p".into()))
}

fn exit(done: Option<&str>, success: bool) -> ExitReport {
    ExitReport {
        done: done.map(String::from),
        success,
        duration_secs: 40,
        head: Some("abc".into()),
        dirty: false,
        matches: vec![],
    }
}

#[test]
fn a_step_from_clone_to_report() {
    let mut run = step_run(assignment(true, true));
    match run.next(StepEvent::Begin) {
        StepAction::CloneBranch { url, branch } => {
            assert_eq!(url, "http://s/git/");
            assert_eq!(branch, "b1");
        }
        other => panic!("{other:?}"),
    }
    assert!(matches!(run.next(StepEvent::CloneExited { success: false }), StepAction::CloneDefault { .. }));
    assert!(
        matches!(run.next(StepEvent::CloneExited { success: true }), StepAction::CreateBranch { branch } if branch == "b1")
    );
    assert!(matches!(run.next(StepEvent::BranchCreated), StepAction::ReadHead));
    match run.next(StepEvent::HeadRead { head: Some("abc".into()) }) {
        StepAction::Prepare { files } => {
            assert_eq!(files[0].path, "/tmp/ox-step-aJuO-e1-propose-2/f");
            assert_eq!(files[0].mode, Some(0o600));
        }
        other => panic!("{other:?}"),
    }
    let mut proxy_env = StringMap::new();
    proxy_env.insert("URL".to_string(), "http://127.0.0.1:1".to_string());
    match run.next(StepEvent::Prepared { proxy_env }) {
        StepAction::Spawn { command, env } => {
            assert_eq!(command, vec!["run", "/w/current/x"]);
            assert_eq!(env.get("KEY").map(String::as_str), Some("v"));
            assert_eq!(env.get("URL").map(String::as_str), Some("http://127.0.0.1:1"));
            assert_eq!(env.get("PATH").map(String::as_str), Some("/p"));
            assert_eq!(env.get("OX_TASK_ID").map(String::as_str), Some("aJuO"));
            assert_eq!(env.get("OX_EXECUTION_ID").map(String::as_str), Some("aJuO-e1"));
            assert_eq!(env.get("OX_SOCKET"), Some(&run.socket_path));
        }
        other => panic!("{other:?}"),
    }
    assert!(matches!(run.next(StepEvent::Spawned), StepAction::Wait));
    assert!(matches!(run.next(StepEvent::Begin), StepAction::Ignore), "a step does not go back");
    match run.next(StepEvent::Exited(exit(Some("pass"), false))) {
        StepAction::Report(r) => {
            assert_eq!(r.done.as_deref(), Some("pass"));
            assert_eq!(r.signals, vec!["no_commits"]);
            assert_eq!(r.error, None);
        }
        other => panic!("{other:?}"),
    }
    assert!(matches!(run.next(StepEvent::Reported), StepAction::Finish));
    assert_eq!(run.stage, Stage::Over);
}

#[test]
fn a_silent_exit_fails_the_step() {
    let mut run = step_run(assignment(false, false));
    assert!(matches!(run.next(StepEvent::Begin), StepAction::MakeWorkspace));
    run.next(StepEvent::WorkspaceMade);
    run.next(StepEvent::Prepared { proxy_env: StringMap::new() });
    run.next(StepEvent::Spawned);
    match run.next(StepEvent::Exited(exit(None, false))) {
        StepAction::Report(r) => {
            assert_eq!(r.done, None);
            assert_eq!(r.signals, vec!["exited_silent"]);
            assert_eq!(r.error.as_deref(), Some("signal:exited_silent"));
        }
        other => panic!("{other:?}"),
    }
}

#[test]
fn each_obstacle_fails_the_step() {
    let mut run = step_run(assignment(true, false));
    run.next(StepEvent::Begin);
    let r = run.next(StepEvent::CloneNotStarted { error: "no git".into() });
    assert!(matches!(r, StepAction::Fail { error } if error == "git clone failed: no git"));
    assert!(matches!(run.next(StepEvent::Spawned), StepAction::Ignore), "a failed step is over");

    let mut run = step_run(assignment(true, false));
    run.next(StepEvent::Begin);
    run.next(StepEvent::CloneExited { success: false });
    let r = run.next(StepEvent::CloneExited { success: false });
    assert!(matches!(r, StepAction::Fail { error } if error == "git clone from ox-server failed"));

    let mut a = assignment(false, false);
    a.resolved.as_mut().unwrap().command.clear();
    let mut run = step_run(a);
    run.next(StepEvent::Begin);
    run.next(StepEvent::WorkspaceMade);
    let r = run.next(StepEvent::Prepared { proxy_env: StringMap::new() });
    assert!(matches!(r, StepAction::Fail { error } if error == "no command in resolved spec"));

    let mut run = step_run(assignment(false, false));
    run.next(StepEvent::Begin);
    run.next(StepEvent::WorkspaceMade);
    run.next(StepEvent::Prepared { proxy_env: StringMap::new() });
    let r = run.next(StepEvent::SpawnFailed { error: "enoent".into() });
    assert!(matches!(r, StepAction::Fail { error } if error == "spawn failed: enoent"));
}

#[test]
fn signals_of_an_exit() {
    let w = WorkspaceSpec { git_clone: true, branch: None, push: true, read_only: false };
    let mut e = exit(None, true);
    e.duration_secs = 29;
    e.dirty = true;
    e.matches = vec![SignalMatch { name: "auth".into(), line: "l".into(), retriable: false }];
    assert_eq!(
        collect_signals(&w, &Some("abc".into()), &e),
        vec!["fast_exit", "no_commits", "dirty_workspace", "auth"]
    );
    assert_eq!(collect_signals(&w, &Some("other".into()), &exit(None, true)), Vec::<String>::new());
}

#[test]
fn places_of_a_step() {
    let a = assignment(false, false);
    assert_eq!(work_dir_of("/w"), "/w/current");
    assert_eq!(tmp_dir_of(&a), "/tmp/ox-step-aJuO-e1-propose-2");
    assert_eq!(socket_path_of("/t", None, &a), "/t/ox-?-aJuO-e1-propose-2.sock");
    assert_eq!(resolve_placeholders("{workspace}:{tmp_dir}:{home}", "/w", "/t", "/h"), "/w:/t:/h");
    assert_eq!(resolve_file_path("rel/x", "/w", "/t", "/h"), "/t/rel/x");
    assert_eq!(resolve_file_path("/abs", "/w", "/t", "/h"), "/abs");
    assert_eq!(file_mode("0755"), Some(0o755));
    assert_eq!(file_mode("0644"), None);
    assert_eq!(path_with("/ox/bin", "/usr/bin"), "/ox/bin:/usr/bin");
    assert_eq!(pty_url("http://h", "e-1", "s", "runner"), "ws://h/api/executions/e-1/steps/s/pty/runner");
    assert!(is_assigned_to(&RunnerId("r".into()), Some(&RunnerId("r".into()))));
    assert!(!is_assigned_to(&RunnerId("r".into()), None));
}

#[test]
fn logs_are_sent_on() {
    assert_eq!(log_resume(10, 4), 4);
    assert_eq!(log_resume(3, 4), 0);
    assert_eq!(log_position(10, 4, true), 10);
    assert_eq!(log_position(10, 4, false), 4);
    assert_eq!(log_position(3, 4, true), 3);
    assert_eq!(log_position(3, 4, false), 0);
}

#[test]
fn metrics_of_a_step() {
    let v = step_metrics(1500, Some(-1), Json::object(vec![]));
    let runner = v.get("runner").unwrap();
    assert_eq!(runner.get("duration_ms").unwrap().as_u64(), Some(1500));
    assert_eq!(runner.get("exit_code").unwrap().as_i64(), Some(-1));
    assert_eq!(v.get("proxy").unwrap().to_text(), "{}");
    let v = step_metrics(1, None, Json::Null);
    assert_eq!(v.get("runner").unwrap().to_text(), r#"{"duration_ms":1,"exit_code":null}"#);
    assert!(matches!(v.get("proxy"), Some(Json::Null)));
}
