//! Commands that a runtime sends to the runner over the step's socket.

use vstd::prelude::*;

use crate::text::{cat, has_prefix, split_once, split_once_spec, strip_prefix, text_option, trim, trim_spec};

verus! {

/// Commands received from the runtime via the unix socket.
#[derive(Debug)]
pub enum RuntimeCommand {
    /// Step complete with output value.
    Done { output: String },
    /// Write artifact content (base64-encoded).
    Artifact { name: String, data: String },
    /// Close a declared artifact.
    ArtifactDone { name: String },
    /// Report a metric.
    Metric { name: String, value: String },
}

/// What a command is.
pub enum CommandView {
    Done { output: Seq<char> },
    Artifact { name: Seq<char>, data: Seq<char> },
    ArtifactDone { name: Seq<char> },
    Metric { name: Seq<char>, value: Seq<char> },
}

impl View for RuntimeCommand {
    type V = CommandView;

    open spec fn view(&self) -> CommandView {
        match self {
            RuntimeCommand::Done { output } => CommandView::Done { output: output@ },
            RuntimeCommand::Artifact { name, data } => CommandView::Artifact { name: name@, data: data@ },
            RuntimeCommand::ArtifactDone { name } => CommandView::ArtifactDone { name: name@ },
            RuntimeCommand::Metric { name, value } => CommandView::Metric { name: name@, value: value@ },
        }
    }
}

/// The text behind a prefix.
pub open spec fn behind(line: Seq<char>, prefix: Seq<char>) -> Seq<char> {
    line.skip(prefix.len() as int)
}

/// The part in front of the first space, without white space around it.
pub open spec fn first_word(s: Seq<char>) -> Seq<char> {
    match split_once_spec(s, ' ') {
        Some((a, b)) => trim_spec(a),
        None => trim_spec(s),
    }
}

/// The part behind the first space, without white space around it.
pub open spec fn other_words(s: Seq<char>) -> Seq<char> {
    match split_once_spec(s, ' ') {
        Some((a, b)) => trim_spec(b),
        None => trim_spec(seq![]),
    }
}

/// The command that a line stands for.
pub open spec fn command_spec(line: Seq<char>) -> Option<CommandView> {
    if has_prefix(line, "done"@) {
        Some(CommandView::Done { output: trim_spec(behind(line, "done"@)) })
    } else if has_prefix(line, "artifact-done "@) {
        Some(CommandView::ArtifactDone { name: trim_spec(behind(line, "artifact-done "@)) })
    } else if has_prefix(line, "artifact "@) {
        let rest = behind(line, "artifact "@);
        Some(CommandView::Artifact { name: first_word(rest), data: other_words(rest) })
    } else if has_prefix(line, "metric "@) {
        let rest = behind(line, "metric "@);
        Some(CommandView::Metric { name: first_word(rest), value: other_words(rest) })
    } else {
        None
    }
}

fn split_words(rest: &str) -> (r: (String, String))
    ensures
        r.0@ == first_word(rest@),
        r.1@ == other_words(rest@),
{
    match split_once(rest, ' ') {
        Some((a, b)) => (trim(a.as_str()), trim(b.as_str())),
        None => (trim(rest), trim(String::new().as_str())),
    }
}

/// Reads a command.
pub fn parse_command(line: &str) -> (r: Option<RuntimeCommand>)
    ensures
        match r {
            Some(c) => command_spec(line@) == Some(c@),
            None => command_spec(line@) is None,
        },
{
    if let Some(rest) = strip_prefix(line, "done") {
        return Some(RuntimeCommand::Done { output: trim(rest.as_str()) });
    }
    if let Some(rest) = strip_prefix(line, "artifact-done ") {
        return Some(RuntimeCommand::ArtifactDone { name: trim(rest.as_str()) });
    }
    if let Some(rest) = strip_prefix(line, "artifact ") {
        let (name, data) = split_words(rest.as_str());
        return Some(RuntimeCommand::Artifact { name, data });
    }
    if let Some(rest) = strip_prefix(line, "metric ") {
        let (name, value) = split_words(rest.as_str());
        return Some(RuntimeCommand::Metric { name, value });
    }
    None
}

/// The answer to a line from the socket; none to a blank one.
pub open spec fn reply_of(line: Seq<char>) -> Option<Seq<char>> {
    let text = trim_spec(line);
    if text.len() == 0 {
        None
    } else {
        match command_spec(text) {
            Some(c) => Some("ok\n"@),
            None => Some("error: unknown command: "@ + text + "\n"@),
        }
    }
}

/// What a line from the socket leads to: a command for the runner, where it is one,
/// and an answer; for a blank line neither.
pub fn handle_line(line: &str) -> (r: (Option<RuntimeCommand>, Option<String>))
    ensures
        ({
            let text = trim_spec(line@);
            if text.len() == 0 {
                r.0 is None && r.1 is None
            } else {
                match command_spec(text) {
                    Some(c) => r.0 is Some && r.0->0@ == c && r.1 is Some && r.1->0@ == "ok\n"@,
                    None => r.0 is None && r.1 is Some && r.1->0@ == "error: unknown command: "@ + text + "\n"@,
                }
            }
        }),
        text_option(r.1) == reply_of(line@),
{
    let text = trim(line);
    if text.as_str().is_empty() {
        return (None, None);
    }
    match parse_command(text.as_str()) {
        Some(c) => (Some(c), Some("ok\n".to_owned())),
        None => {
            let mut reply = cat("error: unknown command: ", text.as_str());
            reply.append("\n");
            (None, Some(reply))
        },
    }
}

/// A line that starts with none of the command words is no command.
pub proof fn other_lines_are_no_commands(line: Seq<char>)
    requires
        !has_prefix(line, "done"@),
        !has_prefix(line, "artifact "@),
        !has_prefix(line, "artifact-done "@),
        !has_prefix(line, "metric "@),
    ensures
        command_spec(line) is None,
{
}

} // verus!
