//! Agent logs, one JSON event to a line, rendered for a terminal: the `stream-json` format
//! and that of Codex.

use vstd::prelude::*;

use crate::json::{json_text, number_text, parse_json, parsed_json, Json, JsonView};
use crate::text::{
    can_ellipsize, cat, dec, dec_i64, dec_int, dec_u64, ellipsize, ellipsize_spec, has_prefix, has_suffix, lines,
    lines_are_told_apart, lines_spec, may_ellipsize, occurs_at, replace, replace_spec, same, starts_with, strip_prefix,
    strip_suffix, texts_without_an_occurrence_stay, trim, trim_spec, views,
};

verus! {

pub const DIM: &'static str = "\x1b[2m";
pub const BOLD: &'static str = "\x1b[1m";
pub const CYAN: &'static str = "\x1b[36m";
pub const RED: &'static str = "\x1b[31m";
pub const RESET: &'static str = "\x1b[0m";

/// A line in a colour.
pub open spec fn colored(color: Seq<char>, text: Seq<char>) -> Seq<char> {
    color + text + RESET@ + "\n"@
}

fn push_colored(out: &mut String, color: &str, text: &str)
    ensures
        final(out)@ == old(out)@ + colored(color@, text@),
{
    let ghost before = out@;
    out.append(color);
    out.append(text);
    out.append(RESET);
    out.append("\n");
    assert(out@ =~= before + colored(color@, text@));
}

/// The first line of a text.
pub open spec fn first_line(s: Seq<char>) -> Seq<char> {
    if lines_spec(s).len() > 0 {
        lines_spec(s)[0]
    } else {
        seq![]
    }
}

fn first_line_of(s: &str) -> (r: String)
    ensures
        r@ == first_line(s@),
{
    let all = lines(s);
    if all.len() > 0 {
        assert(views(all@)[0] == all@[0]@);
        all[0].clone()
    } else {
        assert(first_line(s@) =~= seq![]);
        String::new()
    }
}

/// The command inside `/bin/bash -lc "…"`, with its quotes unescaped; any other command
/// as it is.
pub open spec fn bash_inner(cmd: Seq<char>) -> Seq<char> {
    let prefix = "/bin/bash -lc \""@;
    let rest = cmd.skip(prefix.len() as int);
    if has_prefix(cmd, prefix) && has_suffix(rest, "\""@) {
        replace_spec(rest.take(rest.len() - "\""@.len()), "\\\""@, "\""@)
    } else {
        cmd
    }
}

/// Codex wraps shell tool calls as `/bin/bash -lc "…"`. Strip that wrapper
/// so the rendered `$` line shows the inner command directly. If the input
/// doesn't match the wrapper shape, return it unchanged.
pub fn strip_bash_wrapper(cmd: &str) -> (r: String)
    ensures
        r@ == bash_inner(cmd@),
{
    proof {
        reveal_strlit("\\\"");
    }
    if let Some(rest) = strip_prefix(cmd, "/bin/bash -lc \"") {
        if let Some(inner) = strip_suffix(rest.as_str(), "\"") {
            return replace(inner.as_str(), "\\\"", "\"");
        }
    }
    cmd.to_owned()
}

// ── Codex ───────────────────────────────────────────────────────────

/// The exit code of a command; zero where none is given.
pub open spec fn exit_of(item: JsonView) -> int {
    match item.at("exit_code"@).as_i64() {
        Some(n) => n as int,
        None => 0,
    }
}

/// A completed command: its output where it failed, the first line of it otherwise.
pub open spec fn codex_command(item: JsonView) -> Seq<char> {
    let agg = item.at("aggregated_output"@).str_or(seq![]);
    let exit = exit_of(item);
    if exit != 0 {
        colored(RED@, "  error (exit "@ + dec_int(exit) + "): "@ + ellipsize_spec(agg, 200))
    } else if agg.len() > 0 {
        colored(DIM@, "  → "@ + ellipsize_spec(first_line(agg), 120))
    } else {
        seq![]
    }
}

/// The output of a completed command can be cut where it has to be.
pub open spec fn codex_command_ok(item: JsonView) -> bool {
    let agg = item.at("aggregated_output"@).str_or(seq![]);
    if exit_of(item) != 0 {
        can_ellipsize(agg, 200)
    } else {
        agg.len() > 0 ==> can_ellipsize(first_line(agg), 120)
    }
}

/// A completed item.
pub open spec fn codex_completed(item: JsonView) -> Seq<char> {
    let ty = item.at("type"@).str_or(seq![]);
    if ty == "agent_message"@ {
        let text = item.at("text"@).str_or(seq![]);
        if text.len() > 0 {
            colored(BOLD@, text)
        } else {
            seq![]
        }
    } else if ty == "command_execution"@ {
        codex_command(item)
    } else {
        seq![]
    }
}

/// One line for each change of files.
pub open spec fn codex_changes(changes: Seq<JsonView>) -> Seq<char>
    decreases changes.len(),
{
    if changes.len() == 0 {
        seq![]
    } else {
        let c = changes.last();
        codex_changes(changes.drop_last()) + colored(
            CYAN@,
            "  "@ + c.at("kind"@).str_or("?"@) + " "@ + c.at("path"@).str_or("?"@),
        )
    }
}

/// A started item.
pub open spec fn codex_started(item: JsonView) -> Seq<char> {
    let ty = item.at("type"@).str_or(seq![]);
    if ty == "command_execution"@ {
        colored(CYAN@, "$ "@ + bash_inner(item.at("command"@).str_or(seq![])))
    } else if ty == "file_change"@ {
        codex_changes(item.at("changes"@).elements())
    } else {
        seq![]
    }
}

/// A Codex event.
pub open spec fn codex_text(v: JsonView) -> Seq<char> {
    let ty = v.at("type"@).str_or(seq![]);
    if ty == "thread.started"@ {
        colored(DIM@, "── session: thread="@ + v.at("thread_id"@).str_or("?"@) + " ──"@)
    } else if ty == "turn.completed"@ {
        let usage = v.at("usage"@);
        colored(
            DIM@,
            "── done: "@ + dec(usage.at("input_tokens"@).u64_or(0) as nat) + "in ("@ + dec(
                usage.at("cached_input_tokens"@).u64_or(0) as nat,
            ) + " cached) / "@ + dec(usage.at("output_tokens"@).u64_or(0) as nat) + "out ──"@,
        )
    } else if ty == "item.completed"@ {
        codex_completed(v.at("item"@))
    } else if ty == "item.started"@ {
        codex_started(v.at("item"@))
    } else {
        seq![]
    }
}

/// What a Codex event shows can be cut where it has to be.
pub open spec fn codex_ok(v: JsonView) -> bool {
    let item = v.at("item"@);
    v.at("type"@).str_or(seq![]) == "item.completed"@ && item.at("type"@).str_or(seq![]) == "command_execution"@
        ==> codex_command_ok(item)
}

fn text_at(v: &Json, key: &str) -> (s: String)
    ensures
        s@ == v@.at(key@).str_or(seq![]),
{
    match v.get_str(key) {
        Some(s) => s.to_owned(),
        None => {
            assert(v@.at(key@).str_or(seq![]) =~= seq![]);
            String::new()
        },
    }
}

fn count_at(v: Option<&Json>, key: &str) -> (n: u64)
    ensures
        n == (match v {
            Some(x) => x@.at(key@).u64_or(0),
            None => 0,
        }),
{
    match v {
        Some(x) => match x.get(key) {
            Some(y) => match y.as_u64() {
                Some(n) => n,
                None => 0,
            },
            None => 0,
        },
        None => 0,
    }
}

fn exit_at(item: &Json) -> (n: i64)
    ensures
        n == exit_of(item@),
{
    match item.get("exit_code") {
        Some(c) => match c.as_i64() {
            Some(n) => n,
            None => 0,
        },
        None => 0,
    }
}

fn render_codex_command(out: &mut String, item: &Json)
    requires
        codex_command_ok(item@),
    ensures
        final(out)@ == old(out)@ + codex_command(item@),
{
    let exit = exit_at(item);
    let agg = text_at(item, "aggregated_output");
    if exit != 0 {
        let mut text = "  error (exit ".to_owned();
        text.append(dec_i64(exit).as_str());
        text.append("): ");
        text.append(ellipsize(agg.as_str(), 200).as_str());
        push_colored(out, RED, text.as_str());
    } else if !agg.as_str().is_empty() {
        let first = first_line_of(agg.as_str());
        push_colored(out, DIM, cat("  → ", ellipsize(first.as_str(), 120).as_str()).as_str());
    } else {
        assert(out@ =~= old(out)@ + seq![]);
    }
}

fn render_codex_changes(out: &mut String, item: &Json)
    ensures
        final(out)@ == old(out)@ + codex_changes(item@.at("changes"@).elements()),
{
    let ghost before = out@;
    if let Some(changes) = item.get("changes") {
        if let Some(items) = changes.as_array() {
            let ghost all = changes@.elements();
            let mut i: usize = 0;
            assert(all.take(0) =~= seq![]);
            assert(out@ =~= before + codex_changes(all.take(0)));
            while i < items.len()
                invariant
                    0 <= i <= items@.len(),
                    all == items@.map_values(|v: Json| v@),
                    out@ == before + codex_changes(all.take(i as int)),
                decreases items@.len() - i,
            {
                let ghost now = out@;
                let ghost next = all.take(i + 1);
                let change = &items[i];
                assert(next.drop_last() =~= all.take(i as int));
                assert(next.last() == change@);
                let mut text = "  ".to_owned();
                text.append(change.str_or("kind", "?"));
                text.append(" ");
                text.append(change.str_or("path", "?"));
                push_colored(out, CYAN, text.as_str());
                assert(out@ =~= before + codex_changes(next));
                i += 1;
            }
            assert(all.take(i as int) =~= all);
            return ;
        }
        assert(changes@.elements() =~= seq![]);
    } else {
        assert(item@.at("changes"@).elements() =~= seq![]);
    }
    assert(out@ =~= before + seq![]);
}

/// Renders a Codex event.
pub fn render_codex_event(out: &mut String, v: &Json)
    requires
        codex_ok(v@),
    ensures
        final(out)@ == old(out)@ + codex_text(v@),
{
    let ghost before = out@;
    let ty = text_at(v, "type");
    if same(ty.as_str(), "thread.started") {
        let mut text = cat("── session: thread=", v.str_or("thread_id", "?"));
        text.append(" ──");
        push_colored(out, DIM, text.as_str());
        return ;
    }
    if same(ty.as_str(), "turn.completed") {
        let usage = v.get("usage");
        let mut text = "── done: ".to_owned();
        text.append(dec_u64(count_at(usage, "input_tokens")).as_str());
        text.append("in (");
        text.append(dec_u64(count_at(usage, "cached_input_tokens")).as_str());
        text.append(" cached) / ");
        text.append(dec_u64(count_at(usage, "output_tokens")).as_str());
        text.append("out ──");
        push_colored(out, DIM, text.as_str());
        return ;
    }
    let completed = same(ty.as_str(), "item.completed");
    let started = same(ty.as_str(), "item.started");
    if completed || started {
        if let Some(item) = v.get("item") {
            let kind = text_at(item, "type");
            if completed {
                if same(kind.as_str(), "agent_message") {
                    let text = text_at(item, "text");
                    if !text.as_str().is_empty() {
                        push_colored(out, BOLD, text.as_str());
                        return ;
                    }
                } else if same(kind.as_str(), "command_execution") {
                    render_codex_command(out, item);
                    return ;
                }
            } else {
                if same(kind.as_str(), "command_execution") {
                    let cmd = text_at(item, "command");
                    push_colored(out, CYAN, cat("$ ", strip_bash_wrapper(cmd.as_str()).as_str()).as_str());
                    return ;
                } else if same(kind.as_str(), "file_change") {
                    render_codex_changes(out, item);
                    return ;
                }
            }
        } else {
            proof {
                reveal_strlit("agent_message");
                reveal_strlit("command_execution");
                reveal_strlit("file_change");
                assert(v@.at("item"@).at("type"@).str_or(seq![]).len() == 0);
            }
        }
    }
    assert(codex_text(v@) =~= seq![]);
    assert(out@ =~= before + seq![]);
}

// ── Stream-json ─────────────────────────────────────────────────────

/// A tool call whose one argument says what it is about.
pub open spec fn named_tool(word: Seq<char>, what: Seq<char>) -> Seq<char> {
    colored(CYAN@, "  "@ + word + " "@ + what)
}

/// A call of the shell tool: the command, and its description where there is one.
pub open spec fn bash_tool(input: JsonView) -> Seq<char> {
    let cmd = input.at("command"@).str_or(seq![]);
    let desc = input.at("description"@).str_or(seq![]);
    if desc.len() > 0 {
        colored(CYAN@, "$ "@ + cmd + RESET@ + "  "@ + DIM@ + "# "@ + desc)
    } else {
        colored(CYAN@, "$ "@ + cmd)
    }
}

/// A call of a tool.
pub open spec fn tool_use(block: JsonView) -> Seq<char> {
    let name = block.at("name"@).str_or("?"@);
    let input = block.at("input"@);
    if name == "Bash"@ {
        bash_tool(input)
    } else if name == "Read"@ {
        named_tool("read"@, input.at("file_path"@).str_or("?"@))
    } else if name == "Write"@ {
        named_tool("write"@, input.at("file_path"@).str_or("?"@))
    } else if name == "Edit"@ {
        named_tool("edit"@, input.at("file_path"@).str_or("?"@))
    } else if name == "Glob"@ {
        named_tool("glob"@, input.at("pattern"@).str_or("?"@))
    } else if name == "Grep"@ {
        named_tool("grep"@, input.at("pattern"@).str_or("?"@))
    } else {
        colored(CYAN@, "  "@ + name + "("@ + ellipsize_spec(json_text(input), 80) + ")"@)
    }
}

/// A tool that is shown by its own line.
pub open spec fn known_tool(name: Seq<char>) -> bool {
    name == "Bash"@ || name == "Read"@ || name == "Write"@ || name == "Edit"@ || name == "Glob"@ || name == "Grep"@
}

/// A block of a message.
pub open spec fn assistant_block(block: JsonView) -> Seq<char> {
    let ty = block.at("type"@).str_or(seq![]);
    if ty == "text"@ {
        let text = block.at("text"@).str_or(seq![]);
        if text.len() > 0 {
            colored(BOLD@, text)
        } else {
            seq![]
        }
    } else if ty == "tool_use"@ {
        tool_use(block)
    } else {
        seq![]
    }
}

/// The arguments of an unknown tool can be cut where they have to be.
pub open spec fn assistant_block_ok(block: JsonView) -> bool {
    block.at("type"@).str_or(seq![]) == "tool_use"@ && !known_tool(block.at("name"@).str_or("?"@)) ==> can_ellipsize(
        json_text(block.at("input"@)),
        80,
    )
}

/// The result of a tool: all of it where it is an error, the first line of it otherwise.
pub open spec fn user_block(block: JsonView) -> Seq<char> {
    if block.at("type"@).as_str() == Some("tool_result"@) {
        let content = block.at("content"@).str_or(seq![]);
        if block.at("is_error"@).as_bool() == Some(true) {
            colored(RED@, "  error: "@ + ellipsize_spec(content, 200))
        } else if content.len() > 0 {
            colored(DIM@, "  → "@ + ellipsize_spec(first_line(content), 120))
        } else {
            seq![]
        }
    } else {
        seq![]
    }
}

/// The result of a tool can be cut where it has to be.
pub open spec fn user_block_ok(block: JsonView) -> bool {
    let content = block.at("content"@).str_or(seq![]);
    block.at("type"@).as_str() == Some("tool_result"@) ==> if block.at("is_error"@).as_bool() == Some(true) {
        can_ellipsize(content, 200)
    } else {
        content.len() > 0 ==> can_ellipsize(first_line(content), 120)
    }
}

/// The blocks of a message, one behind the other.
pub open spec fn blocks_text(blocks: Seq<JsonView>, assistant: bool) -> Seq<char>
    decreases blocks.len(),
{
    if blocks.len() == 0 {
        seq![]
    } else {
        blocks_text(blocks.drop_last(), assistant) + (if assistant {
            assistant_block(blocks.last())
        } else {
            user_block(blocks.last())
        })
    }
}

/// What the blocks of a message show can be cut where it has to be.
pub open spec fn blocks_ok(blocks: Seq<JsonView>, assistant: bool) -> bool {
    forall|i: int|
        0 <= i < blocks.len() ==> if assistant {
            assistant_block_ok(#[trigger] blocks[i])
        } else {
            user_block_ok(blocks[i])
        }
}

/// The figures of a finished session, as they are shown: seconds with one decimal, and
/// US dollars with four.
#[derive(Debug, Clone)]
pub struct ResultFigures {
    pub seconds: String,
    pub cost: String,
}

/// The footer of a session: it is shown where the cost and the duration are given.
pub open spec fn result_text(v: JsonView, seconds: Seq<char>, cost: Seq<char>) -> Seq<char> {
    if v.at("cost_usd"@) is Number && v.at("duration_ms"@).as_u64() is Some {
        let usage = v.at("usage"@);
        colored(
            DIM@,
            "── done: "@ + seconds + "s, "@ + dec(usage.at("input_tokens"@).u64_or(0) as nat) + "in/"@ + dec(
                usage.at("output_tokens"@).u64_or(0) as nat,
            ) + "out, $"@ + cost + " ──"@,
        )
    } else {
        seq![]
    }
}

/// A `stream-json` event.
pub open spec fn claude_text(v: JsonView, seconds: Seq<char>, cost: Seq<char>) -> Seq<char> {
    let ty = v.at("type"@).str_or(seq![]);
    let blocks = v.at("message"@).at("content"@).elements();
    if ty == "system"@ {
        if v.at("subtype"@).as_str() == Some("init"@) {
            colored(
                DIM@,
                "── session: model="@ + v.at("model"@).str_or("?"@) + " cwd="@ + v.at("cwd"@).str_or("?"@) + " ──"@,
            )
        } else {
            seq![]
        }
    } else if ty == "assistant"@ {
        blocks_text(blocks, true)
    } else if ty == "user"@ {
        blocks_text(blocks, false)
    } else if ty == "result"@ {
        result_text(v, seconds, cost)
    } else {
        seq![]
    }
}

/// What a `stream-json` event shows can be cut where it has to be.
pub open spec fn claude_ok(v: JsonView) -> bool {
    let ty = v.at("type"@).str_or(seq![]);
    let blocks = v.at("message"@).at("content"@).elements();
    &&& ty == "assistant"@ ==> blocks_ok(blocks, true)
    &&& ty == "user"@ ==> blocks_ok(blocks, false)
}

fn render_named(out: &mut String, word: &str, input: Option<&Json>, key: &str)
    ensures
        final(out)@ == old(out)@ + named_tool(
            word@,
            match input {
                Some(v) => v@.at(key@).str_or("?"@),
                None => "?"@,
            },
        ),
{
    let what: &str = match input {
        Some(v) => v.str_or(key, "?"),
        None => "?",
    };
    let mut text = cat("  ", word);
    text.append(" ");
    text.append(what);
    push_colored(out, CYAN, text.as_str());
}

fn render_bash(out: &mut String, input: Option<&Json>)
    ensures
        final(out)@ == old(out)@ + bash_tool(
            match input {
                Some(v) => v@,
                None => JsonView::Null,
            },
        ),
{
    let (cmd, desc): (String, String) = match input {
        Some(v) => (text_at(v, "command"), text_at(v, "description")),
        None => {
            assert(JsonView::Null.at("command"@).str_or(seq![]) =~= seq![]);
            assert(JsonView::Null.at("description"@).str_or(seq![]) =~= seq![]);
            (String::new(), String::new())
        },
    };
    let mut text = cat("$ ", cmd.as_str());
    if !desc.as_str().is_empty() {
        text.append(RESET);
        text.append("  ");
        text.append(DIM);
        text.append("# ");
        text.append(desc.as_str());
    }
    push_colored(out, CYAN, text.as_str());
}

fn input_text(input: Option<&Json>) -> (s: String)
    ensures
        s@ == json_text(
            match input {
                Some(v) => v@,
                None => JsonView::Null,
            },
        ),
{
    match input {
        Some(v) => v.to_text(),
        None => Json::Null.to_text(),
    }
}

fn is_known_tool(name: &str) -> (r: bool)
    ensures
        r == known_tool(name@),
{
    same(name, "Bash") || same(name, "Read") || same(name, "Write") || same(name, "Edit") || same(name, "Glob") || same(
        name,
        "Grep",
    )
}

fn render_tool_use(out: &mut String, block: &Json)
    requires
        !known_tool(block@.at("name"@).str_or("?"@)) ==> can_ellipsize(json_text(block@.at("input"@)), 80),
    ensures
        final(out)@ == old(out)@ + tool_use(block@),
{
    let name = block.str_or("name", "?");
    let input = block.get("input");
    if same(name, "Bash") {
        render_bash(out, input);
    } else if same(name, "Read") {
        render_named(out, "read", input, "file_path");
    } else if same(name, "Write") {
        render_named(out, "write", input, "file_path");
    } else if same(name, "Edit") {
        render_named(out, "edit", input, "file_path");
    } else if same(name, "Glob") {
        render_named(out, "glob", input, "pattern");
    } else if same(name, "Grep") {
        render_named(out, "grep", input, "pattern");
    } else {
        let args = input_text(input);
        let mut text = cat("  ", name);
        text.append("(");
        text.append(ellipsize(args.as_str(), 80).as_str());
        text.append(")");
        push_colored(out, CYAN, text.as_str());
    }
}

fn render_assistant_block(out: &mut String, block: &Json)
    requires
        assistant_block_ok(block@),
    ensures
        final(out)@ == old(out)@ + assistant_block(block@),
{
    let ty = text_at(block, "type");
    if same(ty.as_str(), "text") {
        let text = text_at(block, "text");
        if !text.as_str().is_empty() {
            push_colored(out, BOLD, text.as_str());
            return ;
        }
    } else if same(ty.as_str(), "tool_use") {
        render_tool_use(out, block);
        return ;
    }
    assert(assistant_block(block@) =~= seq![]);
    assert(out@ =~= old(out)@ + seq![]);
}

fn is_error(block: &Json) -> (r: bool)
    ensures
        r == (block@.at("is_error"@).as_bool() == Some(true)),
{
    match block.get("is_error") {
        Some(b) => match b.as_bool() {
            Some(b) => b,
            None => false,
        },
        None => false,
    }
}

fn is_tool_result(block: &Json) -> (r: bool)
    ensures
        r == (block@.at("type"@).as_str() == Some("tool_result"@)),
{
    match block.get_str("type") {
        Some(t) => same(t, "tool_result"),
        None => false,
    }
}

fn render_user_block(out: &mut String, block: &Json)
    requires
        user_block_ok(block@),
    ensures
        final(out)@ == old(out)@ + user_block(block@),
{
    if is_tool_result(block) {
        let content = text_at(block, "content");
        if is_error(block) {
            push_colored(out, RED, cat("  error: ", ellipsize(content.as_str(), 200).as_str()).as_str());
            return ;
        } else if !content.as_str().is_empty() {
            let first = first_line_of(content.as_str());
            push_colored(out, DIM, cat("  → ", ellipsize(first.as_str(), 120).as_str()).as_str());
            return ;
        }
    }
    assert(user_block(block@) =~= seq![]);
    assert(out@ =~= old(out)@ + seq![]);
}

fn message_blocks(v: &Json) -> (r: Option<&Vec<Json>>)
    ensures
        match r {
            Some(a) => v@.at("message"@).at("content"@).elements() == a@.map_values(|v: Json| v@),
            None => v@.at("message"@).at("content"@).elements().len() == 0,
        },
{
    match v.get("message") {
        Some(m) => match m.get("content") {
            Some(c) => c.as_array(),
            None => None,
        },
        None => None,
    }
}

fn render_blocks(out: &mut String, v: &Json, assistant: bool)
    requires
        blocks_ok(v@.at("message"@).at("content"@).elements(), assistant),
    ensures
        final(out)@ == old(out)@ + blocks_text(v@.at("message"@).at("content"@).elements(), assistant),
{
    let ghost before = out@;
    let ghost all = v@.at("message"@).at("content"@).elements();
    if let Some(blocks) = message_blocks(v) {
        let mut i: usize = 0;
        assert(all.take(0) =~= seq![]);
        assert(out@ =~= before + blocks_text(all.take(0), assistant));
        while i < blocks.len()
            invariant
                0 <= i <= blocks@.len(),
                all == blocks@.map_values(|v: Json| v@),
                blocks_ok(all, assistant),
                out@ == before + blocks_text(all.take(i as int), assistant),
            decreases blocks@.len() - i,
        {
            let ghost next = all.take(i + 1);
            assert(next.drop_last() =~= all.take(i as int));
            assert(next.last() == blocks@[i as int]@);
            assert(all[i as int] == blocks@[i as int]@);
            if assistant {
                render_assistant_block(out, &blocks[i]);
            } else {
                render_user_block(out, &blocks[i]);
            }
            assert(out@ =~= before + blocks_text(next, assistant));
            i += 1;
        }
        assert(all.take(i as int) =~= all);
    } else {
        assert(all =~= seq![]);
        assert(out@ =~= before + seq![]);
    }
}

/// The figures that the footer of a session is made of: the duration in milliseconds and
/// the cost as a number's text. None where the event has no footer.
pub fn result_figures(v: &Json) -> (r: Option<(u64, String)>)
    ensures
        match r {
            Some((ms, cost)) => {
                &&& v@.at("type"@).as_str() == Some("result"@)
                &&& v@.at("duration_ms"@).as_u64() == Some(ms)
                &&& v@.at("cost_usd"@) is Number
                &&& cost@ == number_text(v@.at("cost_usd"@)->Number_0)
            },
            None => {
                ||| v@.at("type"@).as_str() != Some("result"@)
                ||| v@.at("duration_ms"@).as_u64() is None
                ||| !(v@.at("cost_usd"@) is Number)
            },
        },
{
    let result = match v.get_str("type") {
        Some(t) => same(t, "result"),
        None => false,
    };
    if !result {
        return None;
    }
    let ms: u64 = match v.get("duration_ms") {
        Some(d) => match d.as_u64() {
            Some(n) => n,
            None => {
                return None;
            },
        },
        None => {
            return None;
        },
    };
    match v.get("cost_usd") {
        Some(Json::Number(n)) => Some((ms, n.text())),
        _ => None,
    }
}

fn render_result(out: &mut String, v: &Json, figures: &ResultFigures)
    ensures
        final(out)@ == old(out)@ + result_text(v@, figures.seconds@, figures.cost@),
{
    let timed = match v.get("duration_ms") {
        Some(d) => d.as_u64().is_some(),
        None => false,
    };
    let priced = match v.get("cost_usd") {
        Some(c) => matches!(c, Json::Number(_)),
        None => false,
    };
    if timed && priced {
        let usage = v.get("usage");
        let mut text = cat("── done: ", figures.seconds.as_str());
        text.append("s, ");
        text.append(dec_u64(count_at(usage, "input_tokens")).as_str());
        text.append("in/");
        text.append(dec_u64(count_at(usage, "output_tokens")).as_str());
        text.append("out, $");
        text.append(figures.cost.as_str());
        text.append(" ──");
        push_colored(out, DIM, text.as_str());
    } else {
        assert(out@ =~= old(out)@ + seq![]);
    }
}

/// Renders a `stream-json` event, with the figures of its footer where it has one.
pub fn render_claude_event(out: &mut String, v: &Json, figures: &ResultFigures)
    requires
        claude_ok(v@),
    ensures
        final(out)@ == old(out)@ + claude_text(v@, figures.seconds@, figures.cost@),
{
    let ty = text_at(v, "type");
    if same(ty.as_str(), "system") {
        let init = match v.get_str("subtype") {
            Some(t) => same(t, "init"),
            None => false,
        };
        if init {
            let mut text = cat("── session: model=", v.str_or("model", "?"));
            text.append(" cwd=");
            text.append(v.str_or("cwd", "?"));
            text.append(" ──");
            push_colored(out, DIM, text.as_str());
            return ;
        }
    } else if same(ty.as_str(), "assistant") {
        render_blocks(out, v, true);
        return ;
    } else if same(ty.as_str(), "user") {
        render_blocks(out, v, false);
        return ;
    } else if same(ty.as_str(), "result") {
        render_result(out, v, figures);
        return ;
    }
    assert(claude_text(v@, figures.seconds@, figures.cost@) =~= seq![]);
    assert(out@ =~= old(out)@ + seq![]);
}

// ── Log lines ───────────────────────────────────────────────────────

/// An event is one of Codex.
pub open spec fn is_codex(v: JsonView) -> bool {
    let ty = v.at("type"@).str_or(seq![]);
    has_prefix(ty, "thread."@) || has_prefix(ty, "turn."@) || has_prefix(ty, "item."@)
}

/// An event of either kind.
pub open spec fn event_text(v: JsonView, seconds: Seq<char>, cost: Seq<char>) -> Seq<char> {
    if is_codex(v) {
        codex_text(v)
    } else {
        claude_text(v, seconds, cost)
    }
}

/// What an event shows can be cut where it has to be.
pub open spec fn event_ok(v: JsonView) -> bool {
    if is_codex(v) {
        codex_ok(v)
    } else {
        claude_ok(v)
    }
}

/// A log line that reads as `event`: nothing for a blank line, the line itself where it
/// is not JSON, the event else.
pub open spec fn line_text(
    line: Seq<char>,
    event: Option<JsonView>,
    seconds: Seq<char>,
    cost: Seq<char>,
) -> Seq<char> {
    if line.len() == 0 {
        seq![]
    } else {
        match event {
            Some(v) => event_text(v, seconds, cost),
            None => line + "\n"@,
        }
    }
}

/// What a log line that reads as `event` shows can be cut where it has to be.
pub open spec fn line_ok(line: Seq<char>, event: Option<JsonView>) -> bool {
    line.len() > 0 && event is Some ==> event_ok(event->0)
}

/// Renders an event of either kind.
pub fn render_event(out: &mut String, v: &Json, figures: &ResultFigures)
    requires
        event_ok(v@),
    ensures
        final(out)@ == old(out)@ + event_text(v@, figures.seconds@, figures.cost@),
{
    let ty = text_at(v, "type");
    if starts_with(ty.as_str(), "thread.") || starts_with(ty.as_str(), "turn.") || starts_with(ty.as_str(), "item.") {
        render_codex_event(out, v);
    } else {
        render_claude_event(out, v, figures);
    }
}

/// Render a single ndjson log line, dispatching to the `stream-json` or Codex
/// renderer based on the event's top-level `type` field.
pub fn render_log_line(out: &mut String, line: &str, figures: &ResultFigures)
    requires
        line_ok(trim_spec(line@), parsed_json(trim_spec(line@))),
    ensures
        final(out)@ == old(out)@ + line_text(
            trim_spec(line@),
            parsed_json(trim_spec(line@)),
            figures.seconds@,
            figures.cost@,
        ),
{
    let text = trim(line);
    if text.as_str().is_empty() {
        assert(out@ =~= old(out)@ + seq![]);
        return ;
    }
    match parse_json(text.as_str()) {
        Some(v) => {
            render_event(out, &v, figures);
        },
        None => {
            out.append(text.as_str());
            out.append("\n");
            assert(out@ =~= old(out)@ + (text@ + "\n"@));
        },
    }
}

fn codex_fits(v: &Json) -> (r: bool)
    ensures
        r == codex_ok(v@),
{
    if !same(text_at(v, "type").as_str(), "item.completed") {
        return true;
    }
    match v.get("item") {
        Some(item) => {
            if !same(text_at(item, "type").as_str(), "command_execution") {
                return true;
            }
            let agg = text_at(item, "aggregated_output");
            if exit_at(item) != 0 {
                may_ellipsize(agg.as_str(), 200)
            } else {
                agg.as_str().is_empty() || may_ellipsize(first_line_of(agg.as_str()).as_str(), 120)
            }
        },
        None => {
            proof {
                reveal_strlit("command_execution");
                assert(v@.at("item"@).at("type"@).str_or(seq![]).len() == 0);
            }
            true
        },
    }
}

fn block_fits(block: &Json, assistant: bool) -> (r: bool)
    ensures
        r == (if assistant {
            assistant_block_ok(block@)
        } else {
            user_block_ok(block@)
        }),
{
    if assistant {
        if !same(text_at(block, "type").as_str(), "tool_use") || is_known_tool(block.str_or("name", "?")) {
            return true;
        }
        may_ellipsize(input_text(block.get("input")).as_str(), 80)
    } else {
        if !is_tool_result(block) {
            return true;
        }
        let content = text_at(block, "content");
        if is_error(block) {
            may_ellipsize(content.as_str(), 200)
        } else {
            content.as_str().is_empty() || may_ellipsize(first_line_of(content.as_str()).as_str(), 120)
        }
    }
}

fn claude_fits(v: &Json) -> (r: bool)
    ensures
        r == claude_ok(v@),
{
    let ty = text_at(v, "type");
    let assistant = same(ty.as_str(), "assistant");
    proof {
        reveal_strlit("assistant");
        reveal_strlit("user");
        assert("assistant"@.len() != "user"@.len());
    }
    if !assistant && !same(ty.as_str(), "user") {
        return true;
    }
    let ghost all = v@.at("message"@).at("content"@).elements();
    match message_blocks(v) {
        Some(blocks) => {
            let mut i: usize = 0;
            while i < blocks.len()
                invariant
                    0 <= i <= blocks@.len(),
                    all == v@.at("message"@).at("content"@).elements(),
                    all == blocks@.map_values(|v: Json| v@),
                    ty@ == v@.at("type"@).str_or(seq![]),
                    assistant == (ty@ == "assistant"@),
                    !assistant ==> ty@ == "user"@,
                    "assistant"@ != "user"@,
                    forall|j: int|
                        0 <= j < i ==> if assistant {
                            assistant_block_ok(#[trigger] all[j])
                        } else {
                            user_block_ok(all[j])
                        },
                decreases blocks@.len() - i,
            {
                assert(all[i as int] == blocks@[i as int]@);
                if !block_fits(&blocks[i], assistant) {
                    assert(!blocks_ok(all, assistant));
                    return false;
                }
                i += 1;
            }
            assert(blocks_ok(all, assistant));
            true
        },
        None => true,
    }
}

/// Whether what an event shows can be cut where it has to be.
pub fn event_fits(v: &Json) -> (r: bool)
    ensures
        r == event_ok(v@),
{
    let ty = text_at(v, "type");
    if starts_with(ty.as_str(), "thread.") || starts_with(ty.as_str(), "turn.") || starts_with(ty.as_str(), "item.") {
        codex_fits(v)
    } else {
        claude_fits(v)
    }
}

/// Render a single ndjson log line, unless a text in it would have to be cut inside a
/// character. Returns whether it did; where not, nothing is written.
pub fn try_render_log_line(out: &mut String, line: &str, figures: &ResultFigures) -> (r: bool)
    ensures
        r == line_ok(trim_spec(line@), parsed_json(trim_spec(line@))),
        r ==> final(out)@ == old(out)@ + line_text(
            trim_spec(line@),
            parsed_json(trim_spec(line@)),
            figures.seconds@,
            figures.cost@,
        ),
        !r ==> final(out)@ == old(out)@,
{
    let text = trim(line);
    if !text.as_str().is_empty() {
        if let Some(v) = parse_json(text.as_str()) {
            if !event_fits(&v) {
                return false;
            }
        }
    }
    render_log_line(out, line, figures);
    true
}

/// The figures that the footer on a log line is made of, where it has one.
pub fn log_line_figures(line: &str) -> (r: Option<(u64, String)>)
    ensures
        ({
            let event = parsed_json(trim_spec(line@));
            match r {
                Some((ms, cost)) => {
                    &&& event is Some
                    &&& event->0.at("type"@).as_str() == Some("result"@)
                    &&& event->0.at("duration_ms"@).as_u64() == Some(ms)
                    &&& event->0.at("cost_usd"@) is Number
                    &&& cost@ == number_text(event->0.at("cost_usd"@)->Number_0)
                },
                None => event is Some ==> {
                    ||| event->0.at("type"@).as_str() != Some("result"@)
                    ||| event->0.at("duration_ms"@).as_u64() is None
                    ||| !(event->0.at("cost_usd"@) is Number)
                },
            }
        }),
{
    match parse_json(trim(line).as_str()) {
        Some(v) => result_figures(&v),
        None => None,
    }
}

// ── Laws ────────────────────────────────────────────────────────────

/// A line that is blank shows nothing, one that is no event shows itself, and any other shows
/// its event.
pub proof fn lines_that_are_no_events_are_passed_through(
    line: Seq<char>,
    event: Option<JsonView>,
    seconds: Seq<char>,
    cost: Seq<char>,
)
    ensures
        line.len() == 0 ==> line_text(line, event, seconds, cost).len() == 0,
        line.len() > 0 && event is None ==> line_text(line, event, seconds, cost) == line + "\n"@,
        line.len() > 0 && event is Some ==> line_text(line, event, seconds, cost) == event_text(
            event->0,
            seconds,
            cost,
        ),
{
}

/// Every block of a message is shown behind those before it.
pub proof fn every_block_is_shown(blocks: Seq<JsonView>, block: JsonView)
    ensures
        blocks_text(Seq::empty(), true).len() == 0,
        blocks_text(Seq::empty(), false).len() == 0,
        blocks_text(blocks.push(block), true) == blocks_text(blocks, true) + assistant_block(block),
        blocks_text(blocks.push(block), false) == blocks_text(blocks, false) + user_block(block),
{
    assert(blocks.push(block).drop_last() =~= blocks);
    assert(blocks.push(block).last() == block);
}

/// What an agent says is shown in full, and a tool that it calls by what the call is about:
/// a command, a file or a pattern; other tools by their name and the start of their
/// arguments.
pub proof fn agents_are_shown_by_what_they_say_and_do(block: JsonView)
    ensures
        ({
            let ty = block.at("type"@).as_str();
            let text = block.at("text"@).as_str();
            let name = block.at("name"@).as_str();
            let input = block.at("input"@);
            let file = input.at("file_path"@).as_str();
            let pattern = input.at("pattern"@).as_str();
            let command = input.at("command"@).as_str();
            let description = input.at("description"@).as_str();
            let shown = assistant_block(block);
            &&& ty == Some("text"@) && text is Some && text->0.len() > 0 ==> shown == BOLD@ + text->0 + RESET@ + "\n"@
            &&& ty == Some("tool_use"@) && name == Some("Bash"@) && command is Some && description is None ==> shown
                == CYAN@ + ("$ "@ + command->0) + RESET@ + "\n"@
            &&& ty == Some("tool_use"@) && name == Some("Bash"@) && command is Some && description is Some
                && description->0.len() > 0 ==> shown == CYAN@ + ("$ "@ + command->0 + RESET@ + "  "@ + DIM@ + "# "@
                + description->0) + RESET@ + "\n"@
            &&& ty == Some("tool_use"@) && name == Some("Read"@) && file is Some ==> shown == CYAN@ + ("  "@ + "read"@
                + " "@ + file->0) + RESET@ + "\n"@
            &&& ty == Some("tool_use"@) && name == Some("Write"@) && file is Some ==> shown == CYAN@ + ("  "@ + "write"@
                + " "@ + file->0) + RESET@ + "\n"@
            &&& ty == Some("tool_use"@) && name == Some("Edit"@) && file is Some ==> shown == CYAN@ + ("  "@ + "edit"@
                + " "@ + file->0) + RESET@ + "\n"@
            &&& ty == Some("tool_use"@) && name == Some("Glob"@) && pattern is Some ==> shown == CYAN@ + ("  "@ + "glob"@
                + " "@ + pattern->0) + RESET@ + "\n"@
            &&& ty == Some("tool_use"@) && name == Some("Grep"@) && pattern is Some ==> shown == CYAN@ + ("  "@ + "grep"@
                + " "@ + pattern->0) + RESET@ + "\n"@
            &&& ty == Some("tool_use"@) && name is Some && !known_tool(name->0) ==> shown == CYAN@ + ("  "@ + name->0
                + "("@ + ellipsize_spec(json_text(input), 80) + ")"@) + RESET@ + "\n"@
        }),
{
    reveal_strlit("text");
    reveal_strlit("tool_use");
    assert("text"@.len() != "tool_use"@.len());
    reveal_strlit("Bash");
    reveal_strlit("Read");
    reveal_strlit("Write");
    reveal_strlit("Edit");
    reveal_strlit("Glob");
    reveal_strlit("Grep");
    assert("Bash"@[0] != "Read"@[0] && "Bash"@[0] != "Write"@[0] && "Bash"@[0] != "Edit"@[0]);
    assert("Bash"@[0] != "Glob"@[0] && "Bash"@[0] != "Grep"@[0]);
    assert("Read"@[0] != "Write"@[0] && "Read"@[0] != "Edit"@[0] && "Read"@[0] != "Glob"@[0]);
    assert("Read"@[0] != "Grep"@[0] && "Write"@[0] != "Edit"@[0] && "Write"@[0] != "Glob"@[0]);
    assert("Write"@[0] != "Grep"@[0] && "Edit"@[0] != "Glob"@[0] && "Edit"@[0] != "Grep"@[0]);
    assert("Glob"@[1] != "Grep"@[1]);
}

/// The result of a tool is shown in red and at length where it is an error, and by its first
/// line where it is not; an empty one is not shown.
pub proof fn results_are_shown_by_their_first_line(block: JsonView)
    requires
        block.at("type"@).as_str() == Some("tool_result"@),
        block.at("content"@).as_str() is Some,
    ensures
        ({
            let content = block.at("content"@).as_str()->0;
            let failed = block.at("is_error"@) == JsonView::Bool(true);
            &&& failed ==> user_block(block) == RED@ + ("  error: "@ + ellipsize_spec(content, 200)) + RESET@ + "\n"@
            &&& !failed && content.len() > 0 ==> user_block(block) == DIM@ + ("  → "@ + ellipsize_spec(
                first_line(content),
                120,
            )) + RESET@ + "\n"@
            &&& !failed && content.len() == 0 ==> user_block(block).len() == 0
        }),
{
}

/// The first line of a text ends at its first line end.
pub proof fn first_lines_end_at_the_line_end(line: Seq<char>, rest: Seq<char>)
    requires
        !line.contains('\n'),
    ensures
        line.len() > 0 ==> first_line(line) == line,
        line.len() == 0 || line.last() != '\r' ==> first_line(line + seq!['\n'] + rest) == line,
        first_line(Seq::empty()).len() == 0,
{
    lines_are_told_apart(line, rest);
}

/// A session is told apart by the kind of its events: the start by its model or thread, the
/// messages by their blocks, the end by its figures.
pub proof fn events_are_shown_by_their_kind(v: JsonView, seconds: Seq<char>, cost: Seq<char>)
    ensures
        ({
            let ty = v.at("type"@).as_str();
            let blocks = v.at("message"@).at("content"@).elements();
            &&& ty == Some("assistant"@) ==> claude_text(v, seconds, cost) == blocks_text(blocks, true)
            &&& ty == Some("user"@) ==> claude_text(v, seconds, cost) == blocks_text(blocks, false)
            &&& ty == Some("system"@) && v.at("subtype"@).as_str() == Some("init"@) && v.at("model"@).as_str() is Some
                && v.at("cwd"@).as_str() is Some ==> claude_text(v, seconds, cost) == DIM@ + ("── session: model="@
                + v.at("model"@).as_str()->0 + " cwd="@ + v.at("cwd"@).as_str()->0 + " ──"@) + RESET@ + "\n"@
            &&& ty == Some("result"@) && v.at("cost_usd"@) is Number && v.at("duration_ms"@).as_u64() is Some && v.at(
                "usage"@,
            ).at("input_tokens"@).as_u64() is Some && v.at("usage"@).at("output_tokens"@).as_u64() is Some
                ==> claude_text(v, seconds, cost) == DIM@ + ("── done: "@ + seconds + "s, "@ + dec(
                v.at("usage"@).at("input_tokens"@).as_u64()->0 as nat,
            ) + "in/"@ + dec(v.at("usage"@).at("output_tokens"@).as_u64()->0 as nat) + "out, $"@ + cost + " ──"@) + RESET@
                + "\n"@
            &&& ty == Some("item.completed"@) ==> codex_text(v) == codex_completed(v.at("item"@))
            &&& ty == Some("item.started"@) ==> codex_text(v) == codex_started(v.at("item"@))
            &&& ty == Some("thread.started"@) && v.at("thread_id"@).as_str() is Some ==> codex_text(v) == DIM@ + (
            "── session: thread="@ + v.at("thread_id"@).as_str()->0 + " ──"@) + RESET@ + "\n"@
        }),
{
    reveal_strlit("system");
    reveal_strlit("assistant");
    reveal_strlit("user");
    reveal_strlit("result");
    assert("system"@[0] != "assistant"@[0] && "system"@[0] != "user"@[0] && "system"@[0] != "result"@[0]);
    assert("assistant"@[0] != "user"@[0] && "assistant"@[0] != "result"@[0] && "user"@[0] != "result"@[0]);
    reveal_strlit("thread.started");
    reveal_strlit("turn.completed");
    reveal_strlit("item.completed");
    reveal_strlit("item.started");
    assert("thread.started"@[1] != "turn.completed"@[1]);
    assert("thread.started"@[0] != "item.completed"@[0] && "thread.started"@[0] != "item.started"@[0]);
    assert("turn.completed"@[1] != "item.completed"@[1]);
    assert("turn.completed"@[1] != "item.started"@[1]);
    assert("turn.completed"@[0] == 't' && "item.completed"@[0] == 'i' && "item.started"@[0] == 'i');
    assert("item.completed"@[5] != "item.started"@[5]);
}

/// An event goes to the renderer of its format: that of Codex exactly where its type starts
/// with `thread.`, `turn.` or `item.`.
pub proof fn events_go_to_their_renderer(rest: Seq<char>, v: JsonView, seconds: Seq<char>, cost: Seq<char>)
    ensures
        ({
            let ty = v.at("type"@).as_str();
            &&& ty == Some("thread."@ + rest) || ty == Some("turn."@ + rest) || ty == Some("item."@ + rest)
                ==> event_text(v, seconds, cost) == codex_text(v)
            &&& ty is Some && !has_prefix(ty->0, "thread."@) && !has_prefix(ty->0, "turn."@) && !has_prefix(
                ty->0,
                "item."@,
            ) ==> event_text(v, seconds, cost) == claude_text(v, seconds, cost)
        }),
{
    let (a, b, c) = ("thread."@, "turn."@, "item."@);
    assert((a + rest).subrange(0, a.len() as int) =~= a);
    assert((b + rest).subrange(0, b.len() as int) =~= b);
    assert((c + rest).subrange(0, c.len() as int) =~= c);
}

/// A command of Codex is shown when it starts, without the shell around it. When it is done,
/// a failure shows its exit code and its output, and a success the first line of its output.
/// A message is shown in full.
pub proof fn commands_are_shown_with_their_outcome(item: JsonView)
    ensures
        ({
            let ty = item.at("type"@).as_str();
            let command = item.at("command"@).as_str();
            let output = item.at("aggregated_output"@).as_str();
            let code = item.at("exit_code"@).as_i64();
            let text = item.at("text"@).as_str();
            &&& ty == Some("command_execution"@) && command is Some ==> codex_started(item) == CYAN@ + ("$ "@
                + bash_inner(command->0)) + RESET@ + "\n"@
            &&& ty == Some("command_execution"@) && output is Some && code is Some && code->0 != 0 ==> codex_completed(
                item,
            ) == RED@ + ("  error (exit "@ + dec_int(code->0 as int) + "): "@ + ellipsize_spec(output->0, 200)) + RESET@
                + "\n"@
            &&& ty == Some("command_execution"@) && output is Some && output->0.len() > 0 && (code is None || code->0 == 0)
                ==> codex_completed(item) == DIM@ + ("  → "@ + ellipsize_spec(first_line(output->0), 120)) + RESET@ + "\n"@
            &&& ty == Some("agent_message"@) && text is Some && text->0.len() > 0 ==> codex_completed(item) == BOLD@
                + text->0 + RESET@ + "\n"@
            &&& ty == Some("file_change"@) ==> codex_started(item) == codex_changes(item.at("changes"@).elements())
        }),
{
    reveal_strlit("command_execution");
    reveal_strlit("agent_message");
    reveal_strlit("file_change");
    assert("command_execution"@[0] != "agent_message"@[0]);
    assert("command_execution"@[0] != "file_change"@[0]);
}

/// Every changed file is shown on a line of its own, with what happened to it.
pub proof fn every_changed_file_is_shown(changes: Seq<JsonView>, change: JsonView)
    requires
        change.at("kind"@).as_str() is Some,
        change.at("path"@).as_str() is Some,
    ensures
        codex_changes(Seq::empty()).len() == 0,
        codex_changes(changes.push(change)) == codex_changes(changes) + (CYAN@ + ("  "@ + change.at("kind"@).as_str()->0
            + " "@ + change.at("path"@).as_str()->0) + RESET@ + "\n"@),
{
    assert(changes.push(change).drop_last() =~= changes);
    assert(changes.push(change).last() == change);
}

/// A command in a login shell is shown without the shell, and any other as it is.
pub proof fn the_shell_around_a_command_is_stripped(command: Seq<char>, other: Seq<char>)
    requires
        !command.contains('\\'),
        !has_prefix(other, "/bin/bash -lc \""@),
    ensures
        bash_inner("/bin/bash -lc \""@ + command + "\""@) == command,
        bash_inner(other) == other,
{
    let prefix = "/bin/bash -lc \""@;
    let quote = "\""@;
    let cmd = prefix + command + quote;
    assert(cmd.subrange(0, prefix.len() as int) =~= prefix);
    let rest = cmd.skip(prefix.len() as int);
    assert(rest =~= command + quote);
    assert(rest.subrange(rest.len() - quote.len(), rest.len() as int) =~= quote);
    assert(rest.take(rest.len() - quote.len()) =~= command);
    reveal_strlit("\\\"");
    let escaped = "\\\""@;
    assert(escaped[0] == '\\');
    assert forall|i: int| !occurs_at(command, escaped, i) by {
        if occurs_at(command, escaped, i) {
            assert(command.subrange(i, i + escaped.len())[0] == command[i]);
            assert(command.contains(command[i]));
        }
    }
    texts_without_an_occurrence_stay(command, escaped, quote);
}

} // verus!
