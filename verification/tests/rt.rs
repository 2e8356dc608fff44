use ox::rt::{
    artifact_content, artifact_done_message, artifact_message, check_response, done_message, encoded_message,
    metric_message,
};
use ox::runner::socket::{handle_line, RuntimeCommand};

fn words(v: &[&str]) -> Vec<String> {
    v.iter().map(|s| s.to_string()).collect()
}

/// The line that goes over the socket.
fn line(message: String) -> String {
    format!("{message}\n")
}

#[test]
fn metric_sends_newline_terminated_message() {
    assert_eq!(line(metric_message("input_tokens", "14523")), "metric input_tokens 14523\n");
}

#[test]
fn done_with_force_sends_done_with_output() {
    assert_eq!(line(done_message(&words(&["pass:7"]))), "done pass:7\n");
}

#[test]
fn done_with_force_no_output_sends_bare_done() {
    assert_eq!(line(done_message(&words(&[]))), "done\n");
}

#[test]
fn artifact_with_inline_content_is_base64_encoded() {
    let content = artifact_content(&words(&["Hello"])).unwrap();
    // "Hello" -> "SGVsbG8="
    assert_eq!(line(artifact_message("proposal", &content)), "artifact proposal SGVsbG8=\n");
}

#[test]
fn artifact_done_sends_name() {
    assert_eq!(line(artifact_done_message("proposal")), "artifact-done proposal\n");
}

#[test]
fn error_response_surfaces_as_failure() {
    let err = check_response("error: no such step\n").expect_err("should fail");
    assert!(err.contains("no such step"), "got: {err}");
    assert_eq!(err, "ox-runner rejected command: no such step");
}

#[test]
fn other_responses() {
    assert_eq!(check_response("ok\n"), Ok(()));
    assert_eq!(check_response("hm"), Err("unexpected response from ox-runner: hm".to_string()));
}

#[test]
fn artifact_words_are_joined() {
    assert_eq!(artifact_content(&words(&["a", "b"])), Some(b"a b".to_vec()));
    assert_eq!(artifact_content(&words(&[])), None);
    assert_eq!(artifact_content(&words(&["ä"])), Some("ä".as_bytes().to_vec()));
}

#[test]
fn messages_reach_the_runner() {
    let (cmd, reply) = handle_line(&line(done_message(&words(&["all", "good"]))));
    assert!(matches!(cmd, Some(RuntimeCommand::Done { output }) if output == "all good"));
    assert_eq!(reply.as_deref(), Some("ok\n"));
    let (cmd, _) = handle_line(&line(encoded_message("log", "QQ==")));
    assert!(matches!(cmd, Some(RuntimeCommand::Artifact { name, data }) if name == "log" && data == "QQ=="));
    let (cmd, _) = handle_line(&line(artifact_done_message("log")));
    assert!(matches!(cmd, Some(RuntimeCommand::ArtifactDone { name }) if name == "log"));
    let (cmd, _) = handle_line(&line(metric_message("tokens", "7")));
    assert!(matches!(cmd, Some(RuntimeCommand::Metric { name, value }) if name == "tokens" && value == "7"));
}
