//! The status of the server, its runners and its watchers.

use vstd::prelude::*;

use crate::client::StatusResponse;
use crate::json::{Json, JsonView};
use crate::strmap::StringMap;
use crate::text::{
    add_new, behind_last, cat, chars_of, dec, dec_u64, find_behind_last, holds_text, lemma_value_of_dec, pad_right,
    pad_right_spec, parse_uint, parse_uint_spec, parts_occur_in_the_whole, push_new, text_option, text_range,
    views,
};
use crate::types::step_attempt_spec;

verus! {

/// One row as returned by `GET /api/watchers`.
#[derive(Debug, Clone)]
pub struct WatcherRow {
    pub source: String,
    pub cursor: Option<String>,
    pub updated_at: String,
    pub last_error: Option<String>,
}

/// One runner row in the per-runner section of the status. `workflow`, `exec_id`,
/// `step`, `attempt` are all None for an idle/drained runner with no
/// current step.
#[derive(Debug, Clone)]
pub struct RunnerRow {
    pub id: String,
    pub status: String,
    pub workflow: Option<String>,
    pub exec_id: Option<String>,
    pub step: Option<String>,
    pub attempt: Option<u32>,
}

/// What a runner row is.
pub struct RunnerRowView {
    pub id: Seq<char>,
    pub status: Seq<char>,
    pub workflow: Option<Seq<char>>,
    pub exec_id: Option<Seq<char>>,
    pub step: Option<Seq<char>>,
    pub attempt: Option<u32>,
}

impl View for RunnerRow {
    type V = RunnerRowView;

    open spec fn view(&self) -> RunnerRowView {
        RunnerRowView {
            id: self.id@,
            status: self.status@,
            workflow: text_option(self.workflow),
            exec_id: text_option(self.exec_id),
            step: text_option(self.step),
            attempt: self.attempt,
        }
    }
}

/// A line of a table whose columns have fixed widths, but for the last.
pub open spec fn table_line(
    a: Seq<char>,
    aw: int,
    b: Seq<char>,
    bw: int,
    c: Seq<char>,
    cw: int,
    d: Seq<char>,
) -> Seq<char> {
    "  "@ + pad_right_spec(a, aw) + " "@ + pad_right_spec(b, bw) + " "@ + pad_right_spec(c, cw) + " "@ + d + "\n"@
}

fn push_table_line(out: &mut String, a: &str, aw: usize, b: &str, bw: usize, c: &str, cw: usize, d: &str)
    ensures
        final(out)@ == old(out)@ + table_line(a@, aw as int, b@, bw as int, c@, cw as int, d@),
{
    let ghost before = out@;
    out.append("  ");
    out.append(pad_right(a, aw).as_str());
    out.append(" ");
    out.append(pad_right(b, bw).as_str());
    out.append(" ");
    out.append(pad_right(c, cw).as_str());
    out.append(" ");
    out.append(d);
    out.append("\n");
    assert(out@ =~= before + table_line(a@, aw as int, b@, bw as int, c@, cw as int, d@));
}

/// A text, or a dash for none.
pub open spec fn dash_spec(o: Option<Seq<char>>) -> Seq<char> {
    match o {
        Some(s) => s,
        None => "-"@,
    }
}

/// What a runner works on.
pub open spec fn work_spec(r: RunnerRowView) -> Seq<char> {
    match (r.exec_id, r.step, r.attempt) {
        (Some(exec), Some(step), Some(attempt)) => exec + "/"@ + step + "#"@ + dec(attempt as nat),
        _ => "-"@,
    }
}

/// The rows of the per-runner section.
pub open spec fn runner_lines(rows: Seq<RunnerRowView>) -> Seq<char>
    decreases rows.len(),
{
    if rows.len() == 0 {
        table_line("ID"@, 12, "STATUS"@, 10, "WORKFLOW"@, 20, "STEP"@)
    } else {
        let r = rows.last();
        runner_lines(rows.drop_last()) + table_line(r.id, 12, r.status, 10, dash_spec(r.workflow), 20, work_spec(r))
    }
}

/// The views of runner rows.
pub open spec fn row_views(rows: Seq<RunnerRow>) -> Seq<RunnerRowView> {
    rows.map_values(|r: RunnerRow| r@)
}

fn work_of(r: &RunnerRow) -> (s: String)
    ensures
        s@ == work_spec(r@),
{
    match (&r.exec_id, &r.step, r.attempt) {
        (Some(exec), Some(step), Some(attempt)) => {
            let mut s = exec.clone();
            s.append("/");
            s.append(step.as_str());
            s.append("#");
            s.append(dec_u64(attempt as u64).as_str());
            s
        },
        _ => "-".to_owned(),
    }
}

/// Render the per-runner section of the status. Empty input renders an empty
/// string so the caller can decide whether to print a header.
pub fn format_runners_section(rows: &[RunnerRow]) -> (s: String)
    ensures
        s@ == (if rows@.len() == 0 {
            seq![]
        } else {
            runner_lines(row_views(rows@))
        }),
{
    let mut out = String::new();
    if rows.len() == 0 {
        assert(out@ =~= seq![]);
        return out;
    }
    let ghost all = row_views(rows@);
    push_table_line(&mut out, "ID", 12, "STATUS", 10, "WORKFLOW", 20, "STEP");
    let mut i: usize = 0;
    assert(all.take(0) =~= seq![]);
    assert(out@ =~= runner_lines(all.take(0)));
    while i < rows.len()
        invariant
            0 <= i <= rows@.len(),
            all == row_views(rows@),
            out@ == runner_lines(all.take(i as int)),
        decreases rows@.len() - i,
    {
        let r = &rows[i];
        let ghost next = all.take(i + 1);
        assert(next.drop_last() =~= all.take(i as int));
        assert(next.last() == r@);
        let workflow: &str = match &r.workflow {
            Some(w) => w.as_str(),
            None => "-",
        };
        push_table_line(&mut out, r.id.as_str(), 12, r.status.as_str(), 10, workflow, 20, work_of(r).as_str());
        i += 1;
    }
    assert(all.take(i as int) =~= all);
    out
}

/// The execution, the step and the attempt that a step attempt address names: the
/// attempt behind the last `/`, the step behind the one before, the rest in front.
pub open spec fn step_attempt_of(s: Seq<char>) -> Option<(Seq<char>, Seq<char>, nat)> {
    let i = behind_last(s, '/');
    let rest = s.take(i - 1);
    let j = behind_last(rest, '/');
    if i == 0 || j <= 1 || j >= rest.len() {
        None
    } else {
        match parse_uint_spec(s.skip(i), 10, 0xffff_ffff) {
            Some(n) => Some((rest.take(j - 1), rest.skip(j), n)),
            None => None,
        }
    }
}

/// Parse a step attempt address into (exec_id, step, attempt).
/// Format is `"{exec_id}/{step}/{attempt}"`.
/// Returns None if a field is missing or empty or the attempt is not numeric. Fields
/// are told apart from the end, so that an exec_id containing a `/` does not misalign
/// the attempt field.
pub fn parse_step_attempt(s: &str) -> (r: Option<(String, String, u32)>)
    ensures
        match r {
            Some((exec_id, step, attempt)) => step_attempt_of(s@) == Some((exec_id@, step@, attempt as nat)),
            None => step_attempt_of(s@) is None,
        },
{
    let v = chars_of(s);
    let i = find_behind_last(&v, '/');
    if i == 0 {
        return None;
    }
    let rest = text_range(&v, 0, i - 1);
    assert(rest@ =~= s@.take(i - 1));
    let w = chars_of(rest.as_str());
    let j = find_behind_last(&w, '/');
    if j <= 1 || j >= w.len() {
        return None;
    }
    match parse_uint(text_range(&v, i, v.len()).as_str(), 10, 0xffff_ffff) {
        Some(n) => Some((text_range(&w, 0, j - 1), text_range(&w, j, w.len()), n as u32)),
        None => None,
    }
}

proof fn lemma_behind_last(a: Seq<char>, b: Seq<char>, c: char)
    requires
        !b.contains(c),
    ensures
        behind_last(a + seq![c] + b, c) == a.len() + 1,
    decreases b.len(),
{
    let s = a + seq![c] + b;
    if b.len() == 0 {
        assert(s.last() == c);
    } else {
        assert(s.last() == b.last());
        assert(b.contains(b[b.len() - 1]));
        assert(s.drop_last() =~= a + seq![c] + b.drop_last());
        assert(!b.drop_last().contains(c)) by {
            if b.drop_last().contains(c) {
                let i = b.drop_last().index_of(c);
                assert(b[i] == c);
            }
        }
        lemma_behind_last(a, b.drop_last(), c);
    }
}

/// The address of a step attempt reads back as what it was made of, where the execution
/// and the step have a name and the step's name has no `/` in it.
pub proof fn step_attempts_read_back(execution_id: Seq<char>, step: Seq<char>, attempt: u32)
    requires
        execution_id.len() > 0,
        step.len() > 0,
        !step.contains('/'),
    ensures
        step_attempt_of(step_attempt_spec(execution_id, step, attempt as nat)) == Some(
            (execution_id, step, attempt as nat),
        ),
{
    reveal_strlit("/");
    let d = dec(attempt as nat);
    let s = step_attempt_spec(execution_id, step, attempt as nat);
    let rest = execution_id + "/"@ + step;
    lemma_value_of_dec(attempt as nat);
    assert(!d.contains('/')) by {
        if d.contains('/') {
            let i = d.index_of('/');
            assert('0' <= d[i]);
        }
    }
    assert("/"@ =~= seq!['/']);
    assert(s =~= rest + seq!['/'] + d);
    lemma_behind_last(rest, d, '/');
    let i = rest.len() + 1;
    assert(s.take(i - 1) =~= rest);
    assert(s.skip(i as int) =~= d);
    assert(rest =~= execution_id + seq!['/'] + step);
    lemma_behind_last(execution_id, step, '/');
    let j = execution_id.len() + 1;
    assert(rest.take(j - 1) =~= execution_id);
    assert(rest.skip(j as int) =~= step);
    assert(d[0] != '+');
}

/// The start of a cursor, with an ellipsis where it goes on; a dash for none.
pub open spec fn cursor_spec(cursor: Option<Seq<char>>) -> Seq<char> {
    match cursor {
        Some(s) => if s.len() == 0 {
            "-"@
        } else if s.len() > 12 {
            s.take(12) + "…"@
        } else {
            s
        },
        None => "-"@,
    }
}

fn show_cursor(cursor: &Option<String>) -> (r: String)
    ensures
        r@ == cursor_spec(text_option(*cursor)),
{
    match cursor {
        Some(s) => {
            let v = chars_of(s.as_str());
            if v.len() == 0 {
                "-".to_owned()
            } else if v.len() > 12 {
                let mut head = text_range(&v, 0, 12);
                assert(head@ =~= s@.take(12));
                head.append("…");
                head
            } else {
                s.clone()
            }
        },
        None => "-".to_owned(),
    }
}

/// The rows of the watchers section.
pub open spec fn watcher_lines(rows: Seq<WatcherRow>) -> Seq<char>
    decreases rows.len(),
{
    if rows.len() == 0 {
        table_line("SOURCE"@, 10, "LAST INGEST"@, 22, "CURSOR"@, 16, "STATUS"@)
    } else {
        let r = rows.last();
        watcher_lines(rows.drop_last()) + table_line(
            r.source@,
            10,
            r.updated_at@,
            22,
            cursor_spec(text_option(r.cursor)),
            16,
            match r.last_error {
                Some(e) => e@,
                None => "alive"@,
            },
        )
    }
}

/// Render the watchers section of the status, with a trailing
/// newline per line. Empty input renders an empty string so the
/// caller can decide whether to print a header.
pub fn format_watchers_section(rows: &[WatcherRow]) -> (s: String)
    ensures
        s@ == (if rows@.len() == 0 {
            seq![]
        } else {
            watcher_lines(rows@)
        }),
{
    let mut out = String::new();
    if rows.len() == 0 {
        assert(out@ =~= seq![]);
        return out;
    }
    push_table_line(&mut out, "SOURCE", 10, "LAST INGEST", 22, "CURSOR", 16, "STATUS");
    let mut i: usize = 0;
    assert(rows@.take(0) =~= seq![]);
    assert(out@ =~= watcher_lines(rows@.take(0)));
    while i < rows.len()
        invariant
            0 <= i <= rows@.len(),
            out@ == watcher_lines(rows@.take(i as int)),
        decreases rows@.len() - i,
    {
        let r = &rows[i];
        let ghost next = rows@.take(i + 1);
        assert(next.drop_last() =~= rows@.take(i as int));
        assert(next.last() == *r);
        let status: &str = match &r.last_error {
            Some(e) => e.as_str(),
            None => "alive",
        };
        push_table_line(
            &mut out,
            r.source.as_str(),
            10,
            r.updated_at.as_str(),
            22,
            show_cursor(&r.cursor).as_str(),
            16,
            status,
        );
        i += 1;
    }
    assert(rows@.take(i as int) =~= rows@);
    out
}

// ── The pool ────────────────────────────────────────────────────────

/// The step attempt that a runner of the pool works on.
pub open spec fn current_work(runner: JsonView) -> Option<(Seq<char>, Seq<char>, nat)> {
    match runner.at("current_step"@).as_str() {
        Some(s) => step_attempt_of(s),
        None => None,
    }
}

/// The executions that runners work on, each once, in order.
pub open spec fn wanted_spec(runners: Seq<JsonView>) -> Seq<Seq<char>>
    decreases runners.len(),
{
    if runners.len() == 0 {
        seq![]
    } else {
        let head = wanted_spec(runners.drop_last());
        match current_work(runners.last()) {
            Some((exec_id, _, _)) => add_new(head, exec_id),
            None => head,
        }
    }
}

fn read_work(runner: &Json) -> (r: Option<(String, String, u32)>)
    ensures
        match r {
            Some((exec_id, step, attempt)) => current_work(runner@) == Some((exec_id@, step@, attempt as nat)),
            None => current_work(runner@) is None,
        },
{
    match runner.get_str("current_step") {
        Some(s) => parse_step_attempt(s),
        None => None,
    }
}

/// The runners of a pool.
fn pool_runners(pool: &Json) -> (r: Option<&Vec<Json>>)
    ensures
        match r {
            Some(a) => pool@.at("runners"@).elements() == a@.map_values(|v: Json| v@),
            None => pool@.at("runners"@).elements().len() == 0,
        },
{
    match pool.get("runners") {
        Some(v) => v.as_array(),
        None => None,
    }
}

/// Gather the execution ids of a pool that need a workflow lookup, each once.
pub fn wanted_executions(pool: &Json) -> (r: Vec<String>)
    ensures
        views(r@) == wanted_spec(pool@.at("runners"@).elements()),
{
    let mut wanted: Vec<String> = Vec::new();
    let ghost all = pool@.at("runners"@).elements();
    assert(views(wanted@) =~= seq![]);
    if let Some(runners) = pool_runners(pool) {
        let mut i: usize = 0;
        assert(all.take(0) =~= seq![]);
        while i < runners.len()
            invariant
                0 <= i <= runners@.len(),
                all == runners@.map_values(|v: Json| v@),
                views(wanted@) == wanted_spec(all.take(i as int)),
            decreases runners@.len() - i,
        {
            let ghost next = all.take(i + 1);
            assert(next.drop_last() =~= all.take(i as int));
            assert(next.last() == runners@[i as int]@);
            if let Some((exec_id, _, _)) = read_work(&runners[i]) {
                push_new(&mut wanted, exec_id);
            }
            i += 1;
        }
        assert(all.take(i as int) =~= all);
    } else {
        assert(all =~= seq![]);
    }
    wanted
}

/// The row of a runner, with the workflow of its execution where it is known.
pub open spec fn runner_row(runner: JsonView, workflows: Map<Seq<char>, Seq<char>>) -> RunnerRowView {
    let id = runner.at("id"@).str_or(seq![]);
    let status = runner.at("status"@).str_or(seq![]);
    match current_work(runner) {
        Some((exec_id, step, attempt)) => RunnerRowView {
            id,
            status,
            workflow: if workflows.dom().contains(exec_id) {
                Some(workflows[exec_id])
            } else {
                None
            },
            exec_id: Some(exec_id),
            step: Some(step),
            attempt: Some(attempt as u32),
        },
        None => RunnerRowView { id, status, workflow: None, exec_id: None, step: None, attempt: None },
    }
}

fn own_text(v: &Json, key: &str) -> (s: String)
    ensures
        s@ == v@.at(key@).str_or(seq![]),
{
    match v.get_str(key) {
        Some(s) => s.to_owned(),
        None => {
            assert(v@.at(key@).str_or(seq![]) =~= seq![]);
            String::new()
        },
    }
}

/// Joins the runners of a pool with the workflows of the executions they work on.
pub fn collect_runner_rows(pool: &Json, workflows: &StringMap<String>) -> (r: Vec<RunnerRow>)
    ensures
        row_views(r@) == pool@.at("runners"@).elements().map_values(
            |v: JsonView| runner_row(v, workflows.texts()),
        ),
{
    let mut rows: Vec<RunnerRow> = Vec::new();
    let ghost all = pool@.at("runners"@).elements();
    let ghost made = all.map_values(|v: JsonView| runner_row(v, workflows.texts()));
    assert(row_views(rows@) =~= made.take(0));
    if let Some(runners) = pool_runners(pool) {
        let mut i: usize = 0;
        while i < runners.len()
            invariant
                0 <= i <= runners@.len(),
                all == runners@.map_values(|v: Json| v@),
                made == all.map_values(|v: JsonView| runner_row(v, workflows.texts())),
                row_views(rows@) == made.take(i as int),
            decreases runners@.len() - i,
        {
            let runner = &runners[i];
            let ghost before = row_views(rows@);
            assert(made[i as int] == runner_row(runner@, workflows.texts()));
            let id = own_text(runner, "id");
            let status = own_text(runner, "status");
            let row = match read_work(runner) {
                Some((exec_id, step, attempt)) => {
                    let workflow = match workflows.get(exec_id.as_str()) {
                        Some(w) => Some(w.clone()),
                        None => None,
                    };
                    RunnerRow { id, status, workflow, exec_id: Some(exec_id), step: Some(step), attempt: Some(attempt) }
                },
                None => RunnerRow { id, status, workflow: None, exec_id: None, step: None, attempt: None },
            };
            rows.push(row);
            assert(row@ == made[i as int]);
            assert(row_views(rows@) =~= before.push(row@));
            assert(row_views(rows@) =~= made.take(i + 1));
            i += 1;
        }
        assert(made.take(i as int) =~= made);
    } else {
        assert(made =~= made.take(0));
    }
    rows
}

/// The line of a process of the local ensemble.
pub fn process_line(name: &str, pid: u32, alive: bool) -> (r: String)
    ensures
        r@ == "  "@ + pad_right_spec(name@, 10) + " pid="@ + dec(pid as nat) + "  "@ + (if alive {
            "alive"@
        } else {
            "dead "@
        }) + "\n"@,
{
    let mut s = cat("  ", pad_right(name, 10).as_str());
    s.append(" pid=");
    s.append(dec_u64(pid as u64).as_str());
    s.append("  ");
    s.append(if alive { "alive" } else { "dead " });
    s.append("\n");
    s
}

/// The head of the status.
pub open spec fn status_spec(s: StatusResponse) -> Seq<char> {
    "ox-server   "@ + s.status@ + "   seq "@ + dec(s.event_seq as nat) + "\n"@ + "pool        "@ + dec(s.pool_size as nat)
        + " runners ("@ + dec(s.pool_executing as nat) + " executing, "@ + dec(s.pool_idle as nat) + " idle)\n"@
        + "executions  "@ + dec(s.executions_running as nat) + " running\n"@ + "workflows   "@ + dec(
        s.workflows_loaded as nat,
    ) + " loaded\n"@
}

/// The status: its head, then the sections that have rows.
pub open spec fn status_text(s: StatusResponse, runners: Seq<RunnerRowView>, watchers: Seq<WatcherRow>) -> Seq<char> {
    status_spec(s) + (if runners.len() == 0 {
        seq![]
    } else {
        "\nrunners\n"@ + runner_lines(runners)
    }) + (if watchers.len() == 0 {
        seq![]
    } else {
        "\nwatchers\n"@ + watcher_lines(watchers)
    })
}

/// Renders the status: its head, then the sections that have rows.
pub fn status_report(s: &StatusResponse, runners: &[RunnerRow], watchers: &[WatcherRow]) -> (r: String)
    ensures
        r@ == status_text(*s, row_views(runners@), watchers@),
{
    let mut out = "ox-server   ".to_owned();
    out.append(s.status.as_str());
    out.append("   seq ");
    out.append(dec_u64(s.event_seq).as_str());
    out.append("\n");
    out.append("pool        ");
    out.append(dec_u64(s.pool_size as u64).as_str());
    out.append(" runners (");
    out.append(dec_u64(s.pool_executing as u64).as_str());
    out.append(" executing, ");
    out.append(dec_u64(s.pool_idle as u64).as_str());
    out.append(" idle)\n");
    out.append("executions  ");
    out.append(dec_u64(s.executions_running as u64).as_str());
    out.append(" running\n");
    out.append("workflows   ");
    out.append(dec_u64(s.workflows_loaded as u64).as_str());
    out.append(" loaded\n");
    let ghost head = out@;
    assert(head =~= status_spec(*s));
    if runners.len() > 0 {
        out.append("\nrunners\n");
        out.append(format_runners_section(runners).as_str());
        assert(out@ =~= head + ("\nrunners\n"@ + runner_lines(row_views(runners@))));
    } else {
        assert(out@ =~= head + seq![]);
    }
    let ghost middle = out@;
    if watchers.len() > 0 {
        out.append("\nwatchers\n");
        out.append(format_watchers_section(watchers).as_str());
        assert(out@ =~= middle + ("\nwatchers\n"@ + watcher_lines(watchers@)));
    } else {
        assert(out@ =~= middle + seq![]);
    }
    out
}

/// Every runner has its own line in the status behind those before it: its id, its status,
/// its workflow and its work, a dash for what it has not.
pub proof fn every_runner_has_its_line(rows: Seq<RunnerRowView>, r: RunnerRowView)
    ensures
        runner_lines(Seq::empty()) == table_line("ID"@, 12, "STATUS"@, 10, "WORKFLOW"@, 20, "STEP"@),
        runner_lines(rows.push(r)) == runner_lines(rows) + table_line(
            r.id,
            12,
            r.status,
            10,
            match r.workflow {
                Some(w) => w,
                None => "-"@,
            },
            20,
            work_spec(r),
        ),
        r.exec_id is Some && r.step is Some && r.attempt is Some ==> work_spec(r) == r.exec_id->0 + "/"@ + r.step->0
            + "#"@ + dec(r.attempt->0 as nat),
        r.exec_id is None || r.step is None || r.attempt is None ==> work_spec(r) == "-"@,
{
    assert(rows.push(r).drop_last() =~= rows);
    assert(rows.push(r).last() == r);
}

/// Every watcher has its own line in the status behind those before it: its source, when it
/// last brought something, the start of its cursor, and its last error, or that it is alive.
pub proof fn every_watcher_has_its_line(rows: Seq<WatcherRow>, r: WatcherRow)
    ensures
        watcher_lines(Seq::empty()) == table_line("SOURCE"@, 10, "LAST INGEST"@, 22, "CURSOR"@, 16, "STATUS"@),
        watcher_lines(rows.push(r)) == watcher_lines(rows) + table_line(
            r.source@,
            10,
            r.updated_at@,
            22,
            cursor_spec(text_option(r.cursor)),
            16,
            match r.last_error {
                Some(e) => e@,
                None => "alive"@,
            },
        ),
{
    assert(rows.push(r).drop_last() =~= rows);
    assert(rows.push(r).last() == r);
}

/// A cursor is shown whole up to its width and by its start beyond; without one there is a
/// dash.
pub proof fn cursors_are_shown_by_their_start(s: Seq<char>)
    ensures
        cursor_spec(None) == "-"@,
        s.len() == 0 ==> cursor_spec(Some(s)) == "-"@,
        0 < s.len() <= 12 ==> cursor_spec(Some(s)) == s,
        s.len() > 12 ==> cursor_spec(Some(s)) == s.take(12) + "…"@,
{
}

/// The columns of a table stand at the same place in every line whose cells fit them.
pub proof fn columns_stand_in_line(
    a: Seq<char>,
    aw: int,
    b: Seq<char>,
    bw: int,
    c: Seq<char>,
    cw: int,
    d: Seq<char>,
)
    requires
        a.len() <= aw,
        b.len() <= bw,
        c.len() <= cw,
    ensures
        ({
            let line = table_line(a, aw, b, bw, c, cw, d);
            &&& line.len() == aw + bw + cw + d.len() + 6
            &&& line.subrange(2, 2 + a.len() as int) == a
            &&& line.subrange(3 + aw, 3 + aw + b.len()) == b
            &&& line.subrange(4 + aw + bw, 4 + aw + bw + c.len()) == c
            &&& line.subrange(5 + aw + bw + cw, 5 + aw + bw + cw + d.len()) == d
            &&& line.last() == '\n'
        }),
{
    reveal_strlit("  ");
    reveal_strlit(" ");
    reveal_strlit("\n");
    let line = table_line(a, aw, b, bw, c, cw, d);
    assert(line.subrange(2, 2 + a.len() as int) =~= a);
    assert(line.subrange(3 + aw, 3 + aw + b.len()) =~= b);
    assert(line.subrange(4 + aw + bw, 4 + aw + bw + c.len()) =~= c);
    assert(line.subrange(5 + aw + bw + cw, 5 + aw + bw + cw + d.len()) =~= d);
}

/// The row of a runner tells its id and status, what it works on where its address can be
/// read, and the workflow of that execution where it is known.
pub proof fn runner_rows_tell_of_the_runner(
    runner: JsonView,
    workflows: Map<Seq<char>, Seq<char>>,
    execution_id: Seq<char>,
    step: Seq<char>,
    attempt: u32,
)
    requires
        execution_id.len() > 0,
        step.len() > 0,
        !step.contains('/'),
    ensures
        runner.at("id"@).as_str() is Some ==> runner_row(runner, workflows).id == runner.at("id"@).as_str()->0,
        runner.at("status"@).as_str() is Some ==> runner_row(runner, workflows).status == runner.at(
            "status"@,
        ).as_str()->0,
        runner.at("current_step"@).as_str() is None ==> {
            let row = runner_row(runner, workflows);
            row.exec_id is None && row.step is None && row.attempt is None && row.workflow is None
        },
        runner.at("current_step"@).as_str() == Some(step_attempt_spec(execution_id, step, attempt as nat)) ==> {
            let row = runner_row(runner, workflows);
            &&& row.exec_id == Some(execution_id)
            &&& row.step == Some(step)
            &&& row.attempt == Some(attempt)
            &&& workflows.dom().contains(execution_id) ==> row.workflow == Some(workflows[execution_id])
            &&& !workflows.dom().contains(execution_id) ==> row.workflow is None
        },
{
    step_attempts_read_back(execution_id, step, attempt);
}

/// The execution that a runner works on is wanted, once, behind those before it.
pub proof fn executions_at_work_are_wanted(runners: Seq<JsonView>, runner: JsonView)
    ensures
        wanted_spec(Seq::empty()).len() == 0,
        current_work(runner) is None ==> wanted_spec(runners.push(runner)) == wanted_spec(runners),
        match current_work(runner) {
            Some((id, step, attempt)) => if wanted_spec(runners).contains(id) {
                wanted_spec(runners.push(runner)) == wanted_spec(runners)
            } else {
                wanted_spec(runners.push(runner)) == wanted_spec(runners).push(id)
            },
            None => true,
        },
{
    assert(runners.push(runner).drop_last() =~= runners);
    assert(runners.push(runner).last() == runner);
}

/// The head of the status tells the server's own, its sequence number, and the numbers of
/// runners, executions and workflows.
pub proof fn the_status_tells_all_numbers(s: StatusResponse)
    ensures
        holds_text(status_spec(s), "ox-server   "@ + s.status@ + "   seq "@ + dec(s.event_seq as nat) + "\n"@),
        holds_text(status_spec(s), dec(s.pool_size as nat) + " runners ("@),
        holds_text(status_spec(s), dec(s.pool_executing as nat) + " executing, "@),
        holds_text(status_spec(s), dec(s.pool_idle as nat) + " idle)\n"@),
        holds_text(status_spec(s), dec(s.executions_running as nat) + " running\n"@),
        holds_text(status_spec(s), dec(s.workflows_loaded as nat) + " loaded\n"@),
{
    let none = Seq::<char>::empty();
    let seq = dec(s.event_seq as nat);
    let a = "ox-server   "@ + s.status@ + "   seq "@ + seq + "\n"@;
    parts_occur_in_the_whole(none, a, none, none);
    assert(none + a + none + none =~= a);
    assert(a + none + none =~= a);
    let pool = dec(s.pool_size as nat);
    let b = a + "pool        "@;
    parts_occur_in_the_whole(a, "pool        "@, none, none);
    assert(a + "pool        "@ + none + none =~= b);
    let c = b + pool + " runners ("@;
    parts_occur_in_the_whole(b, pool, " runners ("@, none);
    assert(b + pool + " runners ("@ + none =~= c);
    assert(pool + " runners ("@ + none =~= pool + " runners ("@);
    let executing = dec(s.pool_executing as nat);
    let d = c + executing + " executing, "@;
    parts_occur_in_the_whole(c, executing, " executing, "@, none);
    assert(c + executing + " executing, "@ + none =~= d);
    assert(executing + " executing, "@ + none =~= executing + " executing, "@);
    let idle = dec(s.pool_idle as nat);
    let e = d + idle + " idle)\n"@;
    parts_occur_in_the_whole(d, idle, " idle)\n"@, none);
    assert(d + idle + " idle)\n"@ + none =~= e);
    assert(idle + " idle)\n"@ + none =~= idle + " idle)\n"@);
    let running = dec(s.executions_running as nat);
    let f = e + "executions  "@;
    parts_occur_in_the_whole(e, "executions  "@, none, none);
    assert(e + "executions  "@ + none + none =~= f);
    let g = f + running + " running\n"@;
    parts_occur_in_the_whole(f, running, " running\n"@, none);
    assert(f + running + " running\n"@ + none =~= g);
    assert(running + " running\n"@ + none =~= running + " running\n"@);
    let loaded = dec(s.workflows_loaded as nat);
    let h = g + "workflows   "@;
    parts_occur_in_the_whole(g, "workflows   "@, none, none);
    assert(g + "workflows   "@ + none + none =~= h);
    parts_occur_in_the_whole(h, loaded, " loaded\n"@, none);
    assert(h + loaded + " loaded\n"@ + none =~= h + loaded + " loaded\n"@);
    assert(loaded + " loaded\n"@ + none =~= loaded + " loaded\n"@);
    assert(status_spec(s) == h + loaded + " loaded\n"@);
}

/// The status has a section for the runners where there are any, and one for the watchers
/// where there are any, behind its head.
pub proof fn sections_are_shown_where_they_have_rows(
    s: StatusResponse,
    runners: Seq<RunnerRowView>,
    watchers: Seq<WatcherRow>,
)
    ensures
        runners.len() == 0 && watchers.len() == 0 ==> status_text(s, runners, watchers) == status_spec(s),
        runners.len() > 0 && watchers.len() == 0 ==> status_text(s, runners, watchers) == status_spec(s) + (
        "\nrunners\n"@ + runner_lines(runners)),
        runners.len() == 0 && watchers.len() > 0 ==> status_text(s, runners, watchers) == status_spec(s) + (
        "\nwatchers\n"@ + watcher_lines(watchers)),
        runners.len() > 0 && watchers.len() > 0 ==> status_text(s, runners, watchers) == status_text(
            s,
            runners,
            Seq::empty(),
        ) + ("\nwatchers\n"@ + watcher_lines(watchers)),
{
    let none = Seq::<char>::empty();
    let head = status_spec(s);
    assert(head + none =~= head);
    assert(head + none + none =~= head);
    let r = head + ("\nrunners\n"@ + runner_lines(runners));
    assert(r + none =~= r);
}

} // verus!
