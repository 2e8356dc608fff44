//! Tables of executions, runners and workflows.

use vstd::prelude::*;

use crate::client::{ExecutionDetail, StepAttemptDetail, WorkflowEntry};
use crate::events::{ExecutionOrigin, OriginView};

use crate::json::{Json, JsonView};
use crate::strmap::StringMap;
use crate::text::{
    cat, chars_of, dec, dec_i64, dec_int, dec_u64, holds_text, join, join_spec, pad_right, pad_right_spec,
    parts_occur_in_the_whole, same, text_option, text_range, views,
};

verus! {

// ── Times ───────────────────────────────────────────────────────────

/// How times are shown.
pub const TIME_FORMAT: &'static str = "%Y-%m-%d %H:%M:%S";

/// An RFC 3339 time in another format, as `chrono` parses and formats it; nothing where
/// the text is no such time.
pub uninterp spec fn formatted_time(text: Seq<char>, format: Seq<char>) -> Option<Seq<char>>;

/// The seconds from one RFC 3339 time to another, as `chrono` counts them; nothing where
/// one of the texts is no such time.
pub uninterp spec fn seconds_between_spec(start: Seq<char>, end: Seq<char>) -> Option<i64>;

/// Calls `chrono::DateTime::parse_from_rfc3339` and `DateTime::format`: the result
/// depends on the two texts alone. `DateTime::format` is called with a format that it
/// knows.
#[verifier::external_body]
fn format_time(text: &str, format: &str) -> (r: Option<String>)
    requires
        format@ == TIME_FORMAT@,
    ensures
        match r {
            Some(s) => formatted_time(text@, format@) == Some(s@),
            None => formatted_time(text@, format@) is None,
        },
{
    chrono::DateTime::parse_from_rfc3339(text).ok().map(|t| t.format(format).to_string())
}

/// Calls `chrono::DateTime::parse_from_rfc3339` on both texts, subtracts the times and
/// calls `TimeDelta::num_seconds`: the result depends on the two texts alone.
#[verifier::external_body]
fn seconds_between(start: &str, end: &str) -> (r: Option<i64>)
    ensures
        r == seconds_between_spec(start@, end@),
{
    let s = chrono::DateTime::parse_from_rfc3339(start).ok()?;
    let e = chrono::DateTime::parse_from_rfc3339(end).ok()?;
    Some((e - s).num_seconds())
}

/// A number of seconds, with the minutes told apart from a minute on.
pub open spec fn duration_spec(secs: i64) -> Seq<char> {
    if secs >= 60 {
        dec_int(secs as int / 60) + "m"@ + dec_int(secs as int % 60) + "s"@
    } else {
        dec_int(secs as int) + "s"@
    }
}

/// Writes a number of seconds.
pub fn format_duration(secs: i64) -> (r: String)
    ensures
        r@ == duration_spec(secs),
{
    if secs >= 60 {
        let mut s = dec_i64(secs / 60);
        s.append("m");
        s.append(dec_i64(secs % 60).as_str());
        s.append("s");
        s
    } else {
        cat(dec_i64(secs).as_str(), "s")
    }
}

// ── Origins ─────────────────────────────────────────────────────────

/// The width that origins are shown in.
pub const ORIGIN_DISPLAY_WIDTH: usize = 24;

/// A text of at most a number of characters as it is; a longer one cut, with an ellipsis
/// in the place of the last character.
pub open spec fn truncated(s: Seq<char>, max: nat) -> Seq<char> {
    if s.len() <= max {
        s
    } else {
        s.take(max - 1).push('…')
    }
}

/// Truncates a text to a number of characters.
pub fn truncate_with_ellipsis(s: &str, max: usize) -> (r: String)
    requires
        max > 0 || s@.len() == 0,
    ensures
        r@ == truncated(s@, max as nat),
{
    let v = chars_of(s);
    if v.len() <= max {
        s.to_owned()
    } else {
        // Leave room for the ellipsis char.
        let mut out = text_range(&v, 0, max - 1);
        out.push('…');
        out
    }
}

/// A truncated text is no longer than it may be.
pub proof fn truncation_keeps_the_width(s: Seq<char>, max: nat)
    requires
        max > 0,
    ensures
        truncated(s, max).len() <= max,
        s.len() <= max ==> truncated(s, max) == s,
        s.len() > max ==> truncated(s, max).len() == max && truncated(s, max).last() == '…' && truncated(s, max).take(
            max - 1,
        ) == s.take(max - 1),
{
    if s.len() > max {
        assert(truncated(s, max).take(max - 1) =~= s.take(max - 1));
    }
}

/// An origin in words.
pub open spec fn origin_text(o: OriginView) -> Seq<char> {
    match o {
        OriginView::Event { source, subject_id, .. } => source + ":"@ + subject_id,
        OriginView::Manual { user } => match user {
            Some(u) => "manual:"@ + u,
            None => "manual"@,
        },
    }
}

/// Render an `ExecutionOrigin` for display. Truncates with an ellipsis if
/// longer than `ORIGIN_DISPLAY_WIDTH` characters.
pub fn format_origin(origin: &ExecutionOrigin) -> (r: String)
    ensures
        r@ == truncated(origin_text(origin@), ORIGIN_DISPLAY_WIDTH as nat),
{
    let raw = match origin {
        ExecutionOrigin::Event { source, subject_id, .. } => {
            let mut s = cat(source.as_str(), ":");
            s.append(subject_id.as_str());
            s
        },
        ExecutionOrigin::Manual { user } => match user {
            Some(u) => cat("manual:", u.as_str()),
            None => "manual".to_owned(),
        },
    };
    truncate_with_ellipsis(raw.as_str(), ORIGIN_DISPLAY_WIDTH)
}

// ── Tables ──────────────────────────────────────────────────────────

/// The cells of a table line, each filled up to the width of its column, with a space
/// between neighbours.
pub open spec fn cells_text(cells: Seq<Seq<char>>, widths: Seq<int>) -> Seq<char>
    decreases cells.len(),
{
    if cells.len() == 0 {
        seq![]
    } else {
        let head = cells_text(cells.drop_last(), widths);
        (if cells.len() == 1 {
            head
        } else {
            head + " "@
        }) + pad_right_spec(cells.last(), widths[cells.len() - 1])
    }
}

/// A line of a table.
pub open spec fn row_text(cells: Seq<Seq<char>>, widths: Seq<int>) -> Seq<char> {
    cells_text(cells, widths) + "\n"@
}

/// The widths of columns.
pub open spec fn width_views(w: Seq<usize>) -> Seq<int> {
    w.map_values(|n: usize| n as int)
}

fn push_row(out: &mut String, cells: &Vec<String>, widths: &Vec<usize>)
    requires
        cells@.len() <= widths@.len(),
    ensures
        final(out)@ == old(out)@ + row_text(views(cells@), width_views(widths@)),
{
    let ghost before = out@;
    let ghost all = views(cells@);
    let ghost w = width_views(widths@);
    let mut i: usize = 0;
    assert(all.take(0) =~= seq![]);
    assert(out@ =~= before + cells_text(all.take(0), w));
    while i < cells.len()
        invariant
            0 <= i <= cells@.len() <= widths@.len(),
            all == views(cells@),
            w == width_views(widths@),
            out@ == before + cells_text(all.take(i as int), w),
        decreases cells@.len() - i,
    {
        let ghost next = all.take(i + 1);
        assert(next.drop_last() =~= all.take(i as int));
        assert(next.last() == cells@[i as int]@);
        assert(w[i as int] == widths@[i as int]);
        if i > 0 {
            out.append(" ");
        }
        out.append(pad_right(cells[i].as_str(), widths[i]).as_str());
        assert(out@ =~= before + cells_text(next, w));
        i += 1;
    }
    assert(all.take(i as int) =~= all);
    out.append("\n");
    assert(out@ =~= before + row_text(all, w));
}

/// The widths of the table of executions.
pub open spec fn list_widths() -> Seq<int> {
    seq![22, 16, 26, 14, 12, 20]
}

/// The line of an execution in the table of executions, given when it was created, where
/// that is known. One that runs without a step is pending.
pub open spec fn list_cells(e: JsonView, origin: Option<OriginView>, created: Option<Seq<char>>) -> Seq<Seq<char>> {
    let status = e.at("status"@).str_or("-"@);
    let step = e.at("current_step"@).str_or("-"@);
    seq![
        e.at("id"@).str_or("-"@),
        e.at("workflow"@).str_or("-"@),
        match origin {
            Some(o) => truncated(origin_text(o), ORIGIN_DISPLAY_WIDTH as nat),
            None => "-"@,
        },
        step,
        if status == "running"@ && step == "-"@ {
            "pending"@
        } else {
            status
        },
        match created {
            Some(t) => t,
            None => "-"@,
        },
    ]
}

/// When an execution of a list was created, where that can be told.
pub open spec fn listed_time(e: JsonView) -> Option<Seq<char>> {
    match e.at("created_at"@).as_str() {
        Some(t) => formatted_time(t, TIME_FORMAT@),
        None => None,
    }
}

/// The head of the table of executions.
pub open spec fn list_head() -> Seq<Seq<char>> {
    seq!["ID"@, "WORKFLOW"@, "ORIGIN"@, "STEP"@, "STATUS"@, "CREATED"@]
}

/// The origins of executions.
pub open spec fn origin_views(v: Seq<Option<ExecutionOrigin>>) -> Seq<Option<OriginView>> {
    v.map_values(
        |o: Option<ExecutionOrigin>|
            match o {
                Some(x) => Some(x@),
                None => None,
            },
    )
}

/// The lines of the table of executions.
pub open spec fn list_lines(execs: Seq<JsonView>, origins: Seq<Option<OriginView>>) -> Seq<char>
    decreases execs.len(),
{
    if execs.len() == 0 {
        row_text(list_head(), list_widths())
    } else {
        list_lines(execs.drop_last(), origins) + row_text(
            list_cells(execs.last(), origins[execs.len() - 1], listed_time(execs.last())),
            list_widths(),
        )
    }
}

/// How many of the executions are shown.
pub open spec fn list_foot(shown: nat, total: u64) -> Seq<char> {
    if shown < total {
        "\n"@ + dec(shown) + " of "@ + dec(total as nat) + " total (use --all or -n to see more)\n"@
    } else {
        "\n"@ + dec(total as nat) + " total\n"@
    }
}

fn list_widths_of() -> (w: Vec<usize>)
    ensures
        width_views(w@) == list_widths(),
        w@.len() == 6,
{
    let w: Vec<usize> = vec![22, 16, 26, 14, 12, 20];
    assert(width_views(w@) =~= list_widths());
    w
}

/// Puts together the line of an execution in the table of executions.
pub fn list_row(e: &Json, origin: &Option<ExecutionOrigin>, created: Option<String>) -> (r: Vec<String>)
    ensures
        views(r@) == list_cells(
            e@,
            match origin {
                Some(x) => Some(x@),
                None => None,
            },
            text_option(created),
        ),
        r@.len() == 6,
{
    let status = e.str_or("status", "-");
    let step = e.str_or("current_step", "-");
    let shown: &str = if same(status, "running") && same(step, "-") {
        "pending"
    } else {
        status
    };
    let origin_str = match origin {
        Some(o) => format_origin(o),
        None => "-".to_owned(),
    };
    let ghost want = list_cells(
        e@,
        match origin {
            Some(x) => Some(x@),
            None => None,
        },
        text_option(created),
    );
    let mut cells: Vec<String> = Vec::new();
    cells.push(e.str_or("id", "-").to_owned());
    cells.push(e.str_or("workflow", "-").to_owned());
    cells.push(origin_str);
    cells.push(step.to_owned());
    cells.push(shown.to_owned());
    cells.push(
        match created {
            Some(t) => t,
            None => "-".to_owned(),
        },
    );
    assert(views(cells@) =~= want);
    cells
}

fn time_of(e: &Json) -> (r: Option<String>)
    ensures
        text_option(r) == listed_time(e@),
{
    match e.get_str("created_at") {
        Some(t) => format_time(t, TIME_FORMAT),
        None => None,
    }
}

/// Renders the table of executions that the server lists, with the origins that were
/// read of them.
pub fn list_executions_text(resp: &Json, origins: &Vec<Option<ExecutionOrigin>>) -> (r: String)
    requires
        origins@.len() >= resp@.at("executions"@).elements().len(),
    ensures
        r@ == list_lines(resp@.at("executions"@).elements(), origin_views(origins@)) + (if resp@.at(
            "executions"@,
        ).is_array() {
            list_foot(resp@.at("executions"@).elements().len(), resp@.at("total"@).u64_or(0))
        } else {
            seq![]
        }),
{
    let ghost all = resp@.at("executions"@).elements();
    let ghost os = origin_views(origins@);
    let widths = list_widths_of();
    let mut out = String::new();
    let mut head: Vec<String> = Vec::new();
    head.push("ID".to_owned());
    head.push("WORKFLOW".to_owned());
    head.push("ORIGIN".to_owned());
    head.push("STEP".to_owned());
    head.push("STATUS".to_owned());
    head.push("CREATED".to_owned());
    assert(views(head@) =~= list_head());
    push_row(&mut out, &head, &widths);
    assert(all.take(0) =~= seq![]);
    assert(out@ =~= list_lines(all.take(0), os));
    let execs = match resp.get("executions") {
        Some(v) => v.as_array(),
        None => None,
    };
    match execs {
        Some(execs) => {
            let mut i: usize = 0;
            while i < execs.len()
                invariant
                    0 <= i <= execs@.len(),
                    all == execs@.map_values(|v: Json| v@),
                    os == origin_views(origins@),
                    origins@.len() >= all.len(),
                    width_views(widths@) == list_widths(),
                    widths@.len() == 6,
                    out@ == list_lines(all.take(i as int), os),
                decreases execs@.len() - i,
            {
                let ghost next = all.take(i + 1);
                assert(next.drop_last() =~= all.take(i as int));
                assert(next.last() == execs@[i as int]@);
                let cells = list_row(&execs[i], &origins[i], time_of(&execs[i]));
                push_row(&mut out, &cells, &widths);
                assert(out@ =~= list_lines(next, os));
                i += 1;
            }
            assert(all.take(i as int) =~= all);
            let total: u64 = match resp.get("total") {
                Some(t) => match t.as_u64() {
                    Some(n) => n,
                    None => 0,
                },
                None => 0,
            };
            let shown: u64 = execs.len() as u64;
            let ghost body = out@;
            out.append("\n");
            if shown < total {
                out.append(dec_u64(shown).as_str());
                out.append(" of ");
                out.append(dec_u64(total).as_str());
                out.append(" total (use --all or -n to see more)\n");
            } else {
                out.append(dec_u64(total).as_str());
                out.append(" total\n");
            }
            assert(out@ =~= body + list_foot(all.len(), total));
        },
        None => {
            assert(all =~= all.take(0));
            assert(out@ =~= list_lines(all, os) + seq![]);
        },
    }
    out
}

// ── One execution ───────────────────────────────────────────────────

/// A number of seconds, where it is known; marked where the count goes on.
pub open spec fn elapsed_spec(secs: Option<i64>, running: bool) -> Seq<char> {
    match secs {
        Some(n) => if running {
            duration_spec(n) + "…"@
        } else {
            duration_spec(n)
        },
        None => "-"@,
    }
}

/// Writes a number of seconds, where it is known.
pub fn elapsed_text(secs: Option<i64>, running: bool) -> (r: String)
    ensures
        r@ == elapsed_spec(secs, running),
{
    match secs {
        Some(n) => if running {
            cat(format_duration(n).as_str(), "…")
        } else {
            format_duration(n)
        },
        None => "-".to_owned(),
    }
}

/// How long an attempt took, or has taken so far.
pub open spec fn attempt_duration(a: StepAttemptDetail, now: Seq<char>) -> Seq<char> {
    match a.completed_at {
        Some(end) => elapsed_spec(seconds_between_spec(a.started_at@, end@), false),
        None => elapsed_spec(seconds_between_spec(a.started_at@, now), true),
    }
}

/// The widths of the table of attempts.
pub open spec fn attempt_widths() -> Seq<int> {
    seq![4, 14, 8, 10, 10, 10, 12, 16]
}

/// The head of the table of attempts.
pub open spec fn attempt_head() -> Seq<Seq<char>> {
    seq!["#"@, "STEP"@, "ATTEMPT"@, "STATUS"@, "RUNNER"@, "DURATION"@, "OUTPUT"@, "TRANSITION"@]
}

/// The line of the `n`-th attempt, given how long it took.
pub open spec fn attempt_cells(n: nat, a: StepAttemptDetail, duration: Seq<char>) -> Seq<Seq<char>> {
    seq![
        dec(n),
        a.step@,
        dec(a.attempt as nat),
        a.status@,
        match a.runner_id {
            Some(r) => r@,
            None => "-"@,
        },
        duration,
        match a.output {
            Some(o) => o@,
            None => "-"@,
        },
        match a.transition {
            Some(t) => "→ "@ + t@,
            None => "-"@,
        },
    ]
}

/// The lines of the table of attempts.
pub open spec fn attempt_lines(attempts: Seq<StepAttemptDetail>, now: Seq<char>) -> Seq<char>
    decreases attempts.len(),
{
    if attempts.len() == 0 {
        row_text(attempt_head(), attempt_widths())
    } else {
        attempt_lines(attempts.drop_last(), now) + row_text(
            attempt_cells(attempts.len(), attempts.last(), attempt_duration(attempts.last(), now)),
            attempt_widths(),
        )
    }
}

/// The variables of an execution, one to a line.
pub open spec fn var_lines(vars: Seq<(String, String)>) -> Seq<char>
    decreases vars.len(),
{
    if vars.len() == 0 {
        seq![]
    } else {
        var_lines(vars.drop_last()) + ("  "@ + vars.last().0@ + ": "@ + vars.last().1@ + "\n"@)
    }
}

/// When an execution was created: in the format of times, or as it is given.
pub open spec fn created_spec(e: ExecutionDetail) -> Seq<char> {
    match formatted_time(e.created_at@, TIME_FORMAT@) {
        Some(s) => s,
        None => e.created_at@,
    }
}

/// The head of an execution's description, given when the execution was created.
pub open spec fn show_head(e: ExecutionDetail, created: Seq<char>) -> Seq<char> {
    "Execution: "@ + e.id@ + "\n"@ + "Origin:    "@ + truncated(origin_text(e.origin@), ORIGIN_DISPLAY_WIDTH as nat)
        + "\n"@ + "Created:   "@ + created + "\n"@ + var_lines(e.vars.list()) + "Workflow:  "@ + e.workflow@
        + "\n"@ + "Status:    "@ + e.status@ + "\n"@ + "\n"@
}

fn duration_of(a: &StepAttemptDetail, now: &str) -> (r: String)
    ensures
        r@ == attempt_duration(*a, now@),
{
    match &a.completed_at {
        Some(end) => elapsed_text(seconds_between(a.started_at.as_str(), end.as_str()), false),
        // Still running — show elapsed
        None => elapsed_text(seconds_between(a.started_at.as_str(), now), true),
    }
}

/// Puts together the line of the `n`-th attempt, given how long it took.
pub fn attempt_row(n: usize, a: &StepAttemptDetail, duration: String) -> (r: Vec<String>)
    ensures
        views(r@) == attempt_cells(n as nat, *a, duration@),
        r@.len() == 8,
{
    let ghost want = attempt_cells(n as nat, *a, duration@);
    let mut cells: Vec<String> = Vec::new();
    cells.push(dec_u64(n as u64));
    cells.push(a.step.clone());
    cells.push(dec_u64(a.attempt as u64));
    cells.push(a.status.clone());
    cells.push(
        match &a.runner_id {
            Some(r) => r.clone(),
            None => "-".to_owned(),
        },
    );
    cells.push(duration);
    cells.push(
        match &a.output {
            Some(o) => o.clone(),
            None => "-".to_owned(),
        },
    );
    cells.push(
        match &a.transition {
            Some(t) => cat("→ ", t.as_str()),
            None => "-".to_owned(),
        },
    );
    assert(views(cells@) =~= want);
    cells
}

fn push_vars(out: &mut String, vars: &StringMap<String>)
    ensures
        final(out)@ == old(out)@ + var_lines(vars.list()),
{
    let ghost before = out@;
    let ghost all = vars.list();
    let mut i: usize = 0;
    assert(all.take(0) =~= seq![]);
    assert(out@ =~= before + var_lines(all.take(0)));
    while i < vars.len()
        invariant
            0 <= i <= all.len(),
            all == vars.list(),
            out@ == before + var_lines(all.take(i as int)),
        decreases all.len() - i,
    {
        let (k, v) = vars.entry(i);
        let ghost next = all.take(i + 1);
        assert(next.drop_last() =~= all.take(i as int));
        assert(next.last() == (*k, *v));
        out.append("  ");
        out.append(k.as_str());
        out.append(": ");
        out.append(v.as_str());
        out.append("\n");
        assert(out@ =~= before + var_lines(next));
        i += 1;
    }
    assert(all.take(i as int) =~= all);
}

/// Renders the head of an execution's description, given when the execution was created.
pub fn show_head_text(e: &ExecutionDetail, created: &str) -> (r: String)
    ensures
        r@ == show_head(*e, created@),
{
    let mut out = cat("Execution: ", e.id.as_str());
    out.append("\n");
    out.append("Origin:    ");
    out.append(format_origin(&e.origin).as_str());
    out.append("\n");
    out.append("Created:   ");
    out.append(created);
    out.append("\n");
    push_vars(&mut out, &e.vars);
    out.append("Workflow:  ");
    out.append(e.workflow.as_str());
    out.append("\n");
    out.append("Status:    ");
    out.append(e.status.as_str());
    out.append("\n");
    out.append("\n");
    assert(out@ =~= show_head(*e, created@));
    out
}

/// Renders the description of an execution and its attempts, as of a time.
pub fn show_execution_text(e: &ExecutionDetail, now: &str) -> (r: String)
    ensures
        r@ == show_head(*e, created_spec(*e)) + attempt_lines(e.attempts@, now@),
{
    let created = match format_time(e.created_at.as_str(), TIME_FORMAT) {
        Some(s) => s,
        None => e.created_at.clone(),
    };
    let mut out = show_head_text(e, created.as_str());
    let ghost head = out@;
    let widths: Vec<usize> = vec![4, 14, 8, 10, 10, 10, 12, 16];
    assert(width_views(widths@) =~= attempt_widths());
    let mut titles: Vec<String> = Vec::new();
    titles.push("#".to_owned());
    titles.push("STEP".to_owned());
    titles.push("ATTEMPT".to_owned());
    titles.push("STATUS".to_owned());
    titles.push("RUNNER".to_owned());
    titles.push("DURATION".to_owned());
    titles.push("OUTPUT".to_owned());
    titles.push("TRANSITION".to_owned());
    assert(views(titles@) =~= attempt_head());
    push_row(&mut out, &titles, &widths);
    let mut i: usize = 0;
    assert(e.attempts@.take(0) =~= seq![]);
    assert(out@ =~= head + attempt_lines(e.attempts@.take(0), now@));
    while i < e.attempts.len()
        invariant
            0 <= i <= e.attempts@.len(),
            width_views(widths@) == attempt_widths(),
            widths@.len() == 8,
            out@ == head + attempt_lines(e.attempts@.take(i as int), now@),
        decreases e.attempts@.len() - i,
    {
        let ghost next = e.attempts@.take(i + 1);
        assert(next.drop_last() =~= e.attempts@.take(i as int));
        assert(next.last() == e.attempts@[i as int]);
        let cells = attempt_row(i + 1, &e.attempts[i], duration_of(&e.attempts[i], now));
        push_row(&mut out, &cells, &widths);
        assert(out@ =~= head + attempt_lines(next, now@));
        i += 1;
    }
    assert(e.attempts@.take(i as int) =~= e.attempts@);
    out
}

// ── Runners and workflows ───────────────────────────────────────────

/// The widths of the table of runners.
pub open spec fn runner_widths() -> Seq<int> {
    seq![12, 12, 12, 24]
}

/// The line of a runner in the table of runners.
pub open spec fn runner_cells(r: JsonView) -> Seq<Seq<char>> {
    seq![
        r.at("id"@).str_or("-"@),
        r.at("environment"@).str_or("-"@),
        r.at("status"@).str_or("-"@),
        r.at("current_step"@).str_or("-"@),
    ]
}

/// The lines of the table of runners.
pub open spec fn runners_lines(runners: Seq<JsonView>) -> Seq<char>
    decreases runners.len(),
{
    if runners.len() == 0 {
        row_text(seq!["ID"@, "ENVIRONMENT"@, "STATUS"@, "STEP"@], runner_widths())
    } else {
        runners_lines(runners.drop_last()) + row_text(runner_cells(runners.last()), runner_widths())
    }
}

/// Renders the table of the runners of a pool.
pub fn list_runners_text(pool: &Json) -> (r: String)
    ensures
        r@ == runners_lines(pool@.at("runners"@).elements()),
{
    let ghost all = pool@.at("runners"@).elements();
    let widths: Vec<usize> = vec![12, 12, 12, 24];
    assert(width_views(widths@) =~= runner_widths());
    let mut out = String::new();
    let mut titles: Vec<String> = Vec::new();
    titles.push("ID".to_owned());
    titles.push("ENVIRONMENT".to_owned());
    titles.push("STATUS".to_owned());
    titles.push("STEP".to_owned());
    assert(views(titles@) =~= seq!["ID"@, "ENVIRONMENT"@, "STATUS"@, "STEP"@]);
    push_row(&mut out, &titles, &widths);
    assert(all.take(0) =~= seq![]);
    assert(out@ =~= runners_lines(all.take(0)));
    let runners = match pool.get("runners") {
        Some(v) => v.as_array(),
        None => None,
    };
    match runners {
        Some(runners) => {
            let mut i: usize = 0;
            while i < runners.len()
                invariant
                    0 <= i <= runners@.len(),
                    all == runners@.map_values(|v: Json| v@),
                    width_views(widths@) == runner_widths(),
                    widths@.len() == 4,
                    out@ == runners_lines(all.take(i as int)),
                decreases runners@.len() - i,
            {
                let r = &runners[i];
                let ghost next = all.take(i + 1);
                assert(next.drop_last() =~= all.take(i as int));
                assert(next.last() == r@);
                let mut cells: Vec<String> = Vec::new();
                cells.push(r.str_or("id", "-").to_owned());
                cells.push(r.str_or("environment", "-").to_owned());
                cells.push(r.str_or("status", "-").to_owned());
                cells.push(r.str_or("current_step", "-").to_owned());
                assert(views(cells@) =~= runner_cells(r@));
                push_row(&mut out, &cells, &widths);
                i += 1;
            }
            assert(all.take(i as int) =~= all);
        },
        None => {
            assert(all =~= all.take(0));
        },
    }
    out
}

/// The lines of the table of workflows.
pub open spec fn workflow_lines(ws: Seq<WorkflowEntry>) -> Seq<char>
    decreases ws.len(),
{
    if ws.len() == 0 {
        pad_right_spec("NAME"@, 20) + " "@ + pad_right_spec("COUNT"@, 8) + " STEPS\n"@
    } else {
        let w = ws.last();
        workflow_lines(ws.drop_last()) + (pad_right_spec(w.name@, 20) + " "@ + pad_right_spec(
            dec(w.steps@.len()),
            8,
        ) + " "@ + join_spec(views(w.steps@), ", "@) + "\n"@)
    }
}

/// Renders the table of workflows.
pub fn list_workflows_text(workflows: &Vec<WorkflowEntry>) -> (r: String)
    ensures
        r@ == workflow_lines(workflows@),
{
    let mut out = pad_right("NAME", 20);
    out.append(" ");
    out.append(pad_right("COUNT", 8).as_str());
    out.append(" STEPS\n");
    let mut i: usize = 0;
    assert(workflows@.take(0) =~= seq![]);
    assert(out@ =~= workflow_lines(workflows@.take(0)));
    while i < workflows.len()
        invariant
            0 <= i <= workflows@.len(),
            out@ == workflow_lines(workflows@.take(i as int)),
        decreases workflows@.len() - i,
    {
        let w = &workflows[i];
        let ghost next = workflows@.take(i + 1);
        assert(next.drop_last() =~= workflows@.take(i as int));
        assert(next.last() == *w);
        out.append(pad_right(w.name.as_str(), 20).as_str());
        out.append(" ");
        out.append(pad_right(dec_u64(w.steps.len() as u64).as_str(), 8).as_str());
        out.append(" ");
        out.append(join(&w.steps, ", ").as_str());
        out.append("\n");
        assert(out@ =~= workflow_lines(next));
        i += 1;
    }
    assert(workflows@.take(i as int) =~= workflows@);
    out
}

/// What a retry is announced with.
pub fn retry_text(id: &str, from_start: bool, new_id: &str) -> (r: String)
    ensures
        r@ == "Retry of "@ + id@ + " ("@ + (if from_start {
            "from start"@
        } else {
            "from failed step"@
        }) + ") → "@ + new_id@,
{
    let mut s = cat("Retry of ", id);
    s.append(" (");
    s.append(if from_start { "from start" } else { "from failed step" });
    s.append(") → ");
    s.append(new_id);
    s
}

// ── Laws ────────────────────────────────────────────────────────────

/// A table line is its cells one behind the other, each filled up to the width of its
/// column, with a space between neighbours and a line end behind the last.
pub proof fn cells_stand_in_their_columns(cells: Seq<Seq<char>>, cell: Seq<char>, widths: Seq<int>)
    ensures
        cells_text(Seq::empty(), widths).len() == 0,
        cells.len() == 0 ==> cells_text(cells.push(cell), widths) == pad_right_spec(cell, widths[0]),
        cells.len() > 0 ==> cells_text(cells.push(cell), widths) == cells_text(cells, widths) + " "@ + pad_right_spec(
            cell,
            widths[cells.len() as int],
        ),
        row_text(cells, widths) == cells_text(cells, widths) + "\n"@,
{
    let all = cells.push(cell);
    assert(all.drop_last() =~= cells);
    assert(all.last() == cell);
    if cells.len() == 0 {
        assert(cells_text(all.drop_last(), widths) =~= seq![]);
        assert(cells_text(all, widths) =~= pad_right_spec(cell, widths[0]));
    }
}

/// Every execution of a list has its own line behind those before it, under the head.
pub proof fn every_execution_is_listed(
    execs: Seq<JsonView>,
    e: JsonView,
    origins: Seq<Option<OriginView>>,
)
    ensures
        list_lines(Seq::empty(), origins) == row_text(
            seq!["ID"@, "WORKFLOW"@, "ORIGIN"@, "STEP"@, "STATUS"@, "CREATED"@],
            list_widths(),
        ),
        list_lines(execs.push(e), origins) == list_lines(execs, origins) + row_text(
            list_cells(e, origins[execs.len() as int], listed_time(e)),
            list_widths(),
        ),
{
    assert(execs.push(e).drop_last() =~= execs);
    assert(execs.push(e).last() == e);
}

/// The line of an execution tells its id, its workflow, its origin, its step, its status and
/// when it was created, each as a dash where it is not told. An execution that runs without
/// a step is pending; any other status is shown as it is.
pub proof fn list_lines_tell_of_the_execution(e: JsonView, origin: Option<OriginView>, created: Option<Seq<char>>)
    ensures
        ({
            let cells = list_cells(e, origin, created);
            let status = e.at("status"@).as_str();
            let step = e.at("current_step"@).as_str();
            &&& cells.len() == 6
            &&& e.at("id"@).as_str() is Some ==> cells[0] == e.at("id"@).as_str()->0
            &&& e.at("id"@).as_str() is None ==> cells[0] == "-"@
            &&& e.at("workflow"@).as_str() is Some ==> cells[1] == e.at("workflow"@).as_str()->0
            &&& e.at("workflow"@).as_str() is None ==> cells[1] == "-"@
            &&& origin is Some ==> cells[2] == truncated(origin_text(origin->0), 24)
            &&& origin is None ==> cells[2] == "-"@
            &&& step is Some ==> cells[3] == step->0
            &&& step is None ==> cells[3] == "-"@
            &&& status is Some && (step is Some && step->0 != "-"@ || status->0 != "running"@) ==> cells[4] == status->0
            &&& status is Some && step is None && status->0 == "running"@ ==> cells[4] == "pending"@
            &&& created is Some ==> cells[5] == created->0
            &&& created is None ==> cells[5] == "-"@
        }),
{
}

/// An origin is shown as its source and its subject, or as manual with the user where one is
/// known.
pub proof fn origins_are_told_apart(
    source: Seq<char>,
    kind: Seq<char>,
    subject_id: Seq<char>,
    seq: crate::types::EventSeq,
    user: Seq<char>,
)
    ensures
        origin_text(OriginView::Event { source, kind, subject_id, seq }) == source + ":"@ + subject_id,
        origin_text(OriginView::Manual { user: Some(user) }) == "manual:"@ + user,
        origin_text(OriginView::Manual { user: None }) == "manual"@,
{
}

/// A list tells how many executions there are, and how many of them it shows where it shows
/// fewer.
pub proof fn lists_tell_the_total(shown: nat, total: u64)
    ensures
        shown >= total ==> list_foot(shown, total) == "\n"@ + dec(total as nat) + " total\n"@,
        shown < total ==> list_foot(shown, total) == "\n"@ + dec(shown) + " of "@ + dec(total as nat)
            + " total (use --all or -n to see more)\n"@,
{
}

/// A duration is told in minutes and seconds from a minute on, in seconds below it. The count
/// of what still runs is marked, and what is not known is a dash.
pub proof fn durations_are_told_in_minutes_and_seconds(minutes: int, seconds: int)
    requires
        0 <= minutes,
        0 <= seconds < 60,
        60 * minutes + seconds <= i64::MAX,
    ensures
        minutes > 0 ==> duration_spec((60 * minutes + seconds) as i64) == dec_int(minutes) + "m"@ + dec_int(seconds)
            + "s"@,
        duration_spec(seconds as i64) == dec_int(seconds) + "s"@,
        elapsed_spec(Some(seconds as i64), false) == dec_int(seconds) + "s"@,
        elapsed_spec(Some(seconds as i64), true) == dec_int(seconds) + "s"@ + "…"@,
        elapsed_spec(None, true) == "-"@,
        elapsed_spec(None, false) == "-"@,
{
    let n = 60 * minutes + seconds;
    assert(n / 60 == minutes && n % 60 == seconds);
}

/// Every attempt of an execution has its own numbered line behind those before it, and its
/// duration ends with the attempt, or now where it has not ended.
pub proof fn every_attempt_is_shown(attempts: Seq<StepAttemptDetail>, a: StepAttemptDetail, now: Seq<char>)
    ensures
        attempt_lines(Seq::empty(), now) == row_text(attempt_head(), attempt_widths()),
        attempt_lines(attempts.push(a), now) == attempt_lines(attempts, now) + row_text(
            attempt_cells((attempts.len() + 1) as nat, a, attempt_duration(a, now)),
            attempt_widths(),
        ),
        a.completed_at is Some ==> attempt_duration(a, now) == elapsed_spec(
            seconds_between_spec(a.started_at@, a.completed_at->0@),
            false,
        ),
        a.completed_at is None ==> attempt_duration(a, now) == elapsed_spec(
            seconds_between_spec(a.started_at@, now),
            true,
        ),
{
    assert(attempts.push(a).drop_last() =~= attempts);
    assert(attempts.push(a).last() == a);
}

/// The line of an attempt tells its number, step, attempt, status, runner, duration, output
/// and where it led to, the last with an arrow; what is not known is a dash.
pub proof fn attempt_lines_tell_of_the_attempt(n: nat, a: StepAttemptDetail, duration: Seq<char>)
    ensures
        ({
            let cells = attempt_cells(n, a, duration);
            &&& cells.len() == 8
            &&& cells[0] == dec(n)
            &&& cells[1] == a.step@
            &&& cells[2] == dec(a.attempt as nat)
            &&& cells[3] == a.status@
            &&& a.runner_id is Some ==> cells[4] == a.runner_id->0@
            &&& a.runner_id is None ==> cells[4] == "-"@
            &&& cells[5] == duration
            &&& a.output is Some ==> cells[6] == a.output->0@
            &&& a.output is None ==> cells[6] == "-"@
            &&& a.transition is Some ==> cells[7] == "→ "@ + a.transition->0@
            &&& a.transition is None ==> cells[7] == "-"@
        }),
{
}

/// Every variable of an execution has its own line behind those before it.
pub proof fn every_variable_is_shown(vars: Seq<(String, String)>, name: String, value: String)
    ensures
        var_lines(Seq::empty()).len() == 0,
        var_lines(vars.push((name, value))) == var_lines(vars) + ("  "@ + name@ + ": "@ + value@ + "\n"@),
{
    assert(vars.push((name, value)).drop_last() =~= vars);
    assert(vars.push((name, value)).last() == (name, value));
}

/// Every runner has its own line behind those before it, with its id, environment, status and
/// step, each as a dash where it is not told.
pub proof fn every_runner_is_listed(runners: Seq<JsonView>, r: JsonView)
    ensures
        runners_lines(Seq::empty()) == row_text(seq!["ID"@, "ENVIRONMENT"@, "STATUS"@, "STEP"@], runner_widths()),
        runners_lines(runners.push(r)) == runners_lines(runners) + row_text(
            seq![
                r.at("id"@).str_or("-"@),
                r.at("environment"@).str_or("-"@),
                r.at("status"@).str_or("-"@),
                r.at("current_step"@).str_or("-"@),
            ],
            runner_widths(),
        ),
{
    assert(runners.push(r).drop_last() =~= runners);
    assert(runners.push(r).last() == r);
    assert(runner_cells(r) =~= seq![
        r.at("id"@).str_or("-"@),
        r.at("environment"@).str_or("-"@),
        r.at("status"@).str_or("-"@),
        r.at("current_step"@).str_or("-"@),
    ]);
}

/// Every workflow has its own line behind those before it, with its name, the number of its
/// steps and the steps themselves.
pub proof fn every_workflow_is_listed(ws: Seq<WorkflowEntry>, w: WorkflowEntry)
    ensures
        workflow_lines(ws.push(w)) == workflow_lines(ws) + (pad_right_spec(w.name@, 20) + " "@ + pad_right_spec(
            dec(w.steps@.len()),
            8,
        ) + " "@ + join_spec(views(w.steps@), ", "@) + "\n"@),
{
    assert(ws.push(w).drop_last() =~= ws);
    assert(ws.push(w).last() == w);
}

/// The head of a description tells the id, the origin, when the execution was created, its
/// variables, its workflow and its status.
pub proof fn descriptions_tell_of_the_execution(e: ExecutionDetail, created: Seq<char>)
    ensures
        ({
            let head = show_head(e, created);
            &&& holds_text(head, "Execution: "@ + e.id@ + "\n"@)
            &&& holds_text(head, "Origin:    "@ + truncated(origin_text(e.origin@), 24) + "\n"@)
            &&& holds_text(head, "Created:   "@ + created + "\n"@)
            &&& holds_text(head, var_lines(e.vars.list()))
            &&& holds_text(head, "Workflow:  "@ + e.workflow@ + "\n"@)
            &&& holds_text(head, "Status:    "@ + e.status@ + "\n"@)
        }),
        formatted_time(e.created_at@, TIME_FORMAT@) is Some ==> created_spec(e) == formatted_time(
            e.created_at@,
            TIME_FORMAT@,
        )->0,
        formatted_time(e.created_at@, TIME_FORMAT@) is None ==> created_spec(e) == e.created_at@,
{
    let nl = "\n"@;
    let none = Seq::<char>::empty();
    let a = "Execution: "@ + e.id@ + nl;
    parts_occur_in_the_whole(none, "Execution: "@, e.id@, nl);
    assert(none + "Execution: "@ + e.id@ + nl =~= a);
    let origin = truncated(origin_text(e.origin@), 24);
    let b = a + "Origin:    "@ + origin + nl;
    parts_occur_in_the_whole(a, "Origin:    "@, origin, nl);
    let c = b + "Created:   "@ + created + nl;
    parts_occur_in_the_whole(b, "Created:   "@, created, nl);
    let vars = var_lines(e.vars.list());
    let d = c + vars;
    parts_occur_in_the_whole(c, vars, none, none);
    assert(c + vars + none + none =~= d);
    assert(vars + none + none =~= vars);
    let f = d + "Workflow:  "@ + e.workflow@ + nl;
    parts_occur_in_the_whole(d, "Workflow:  "@, e.workflow@, nl);
    let g = f + "Status:    "@ + e.status@ + nl;
    parts_occur_in_the_whole(f, "Status:    "@, e.status@, nl);
    parts_occur_in_the_whole(g, nl, none, none);
    assert(g + nl + none + none =~= g + nl);
    assert(show_head(e, created) == g + nl);
}

} // verus!
