//! How a runner carries out a step: from the workspace to the report.
//!
//! The work itself (git, files, processes) is done elsewhere. [`StepRun`] says what to
//! do next, and is told how it went.

use vstd::prelude::*;

use crate::events::SignalMatch;
use crate::json::{member_views, members_are_read_by_name, Json, JsonNumber, JsonView, NumberView};
use crate::paths::{join_path, joined};
use crate::runtime::{FileView, ResolvedFile, ResolvedStepSpec};
use crate::strmap::StringMap;
use crate::text::{
    cat, dec, dec_u64, find_from, lemma_find_from, lemma_value_of_dec, occurs_at, parse_uint, parse_uint_spec, replace, replace_spec, same,
    split_char, split_spec, text_option, texts_without_an_occurrence_stay, the_first_occurrence_is_replaced,
    trim_end_char, trim_end_char_spec, trim_start_char, trim_start_char_spec, views,
};
use crate::types::RunnerId;

verus! {

/// What a step wants of its workspace.
#[derive(Debug)]
pub struct WorkspaceSpec {
    pub git_clone: bool,
    pub branch: Option<String>,
    pub push: bool,
    pub read_only: bool,
}

impl Default for WorkspaceSpec {
    fn default() -> (w: Self)
        ensures
            w == (WorkspaceSpec { git_clone: false, branch: None, push: false, read_only: false }),
    {
        WorkspaceSpec { git_clone: false, branch: None, push: false, read_only: false }
    }
}

/// Parsed dispatch payload for the runner.
#[derive(Debug)]
pub struct StepAssignment {
    pub execution_id: String,
    pub step: String,
    pub attempt: u32,
    pub resolved: Option<ResolvedStepSpec>,
    pub workspace: WorkspaceSpec,
}

/// Whether a dispatched step is assigned to a runner.
pub fn is_assigned_to(dispatched_to: &RunnerId, runner: Option<&RunnerId>) -> (r: bool)
    ensures
        r == match runner {
            Some(id) => id.0@ == dispatched_to.0@,
            None => false,
        },
{
    match runner {
        Some(id) => same(id.0.as_str(), dispatched_to.0.as_str()),
        None => false,
    }
}

// ── Paths and placeholders ──────────────────────────────────────────

/// A text with `{workspace}`, `{tmp_dir}` and `{home}` filled in, in this order.
pub open spec fn placeholders_spec(s: Seq<char>, work_dir: Seq<char>, tmp_dir: Seq<char>, home: Seq<char>) -> Seq<char> {
    replace_spec(
        replace_spec(replace_spec(s, "{workspace}"@, work_dir), "{tmp_dir}"@, tmp_dir),
        "{home}"@,
        home,
    )
}

/// Resolve {workspace}, {tmp_dir}, {home} placeholders in a string.
pub fn resolve_placeholders(s: &str, work_dir: &str, tmp_dir: &str, home: &str) -> (r: String)
    ensures
        r@ == placeholders_spec(s@, work_dir@, tmp_dir@, home@),
{
    proof {
        reveal_strlit("{workspace}");
        reveal_strlit("{tmp_dir}");
        reveal_strlit("{home}");
    }
    let a = replace(s, "{workspace}", work_dir);
    let b = replace(a.as_str(), "{tmp_dir}", tmp_dir);
    replace(b.as_str(), "{home}", home)
}

/// Where a file goes: an absolute path as it is, a relative one below the temporary
/// directory.
pub open spec fn file_path_spec(to: Seq<char>, work_dir: Seq<char>, tmp_dir: Seq<char>, home: Seq<char>) -> Seq<char> {
    joined(tmp_dir, placeholders_spec(to, work_dir, tmp_dir, home))
}

/// Resolve a file destination path. Bare names (no placeholders) go to tmp_dir.
pub fn resolve_file_path(to: &str, work_dir: &str, tmp_dir: &str, home: &str) -> (r: String)
    ensures
        r@ == file_path_spec(to@, work_dir@, tmp_dir@, home@),
{
    join_path(tmp_dir, resolve_placeholders(to, work_dir, tmp_dir, home).as_str())
}

/// The permissions to set on a placed file; none where the default ones do, or where the
/// permission string is no octal number.
pub open spec fn file_mode_spec(mode: Seq<char>) -> Option<nat> {
    if mode == "0644"@ {
        None
    } else {
        parse_uint_spec(trim_start_char_spec(mode, '0'), 8, 0xffff_ffff)
    }
}

/// Reads the permissions to set on a placed file.
pub fn file_mode(mode: &str) -> (r: Option<u32>)
    ensures
        match r {
            Some(m) => file_mode_spec(mode@) == Some(m as nat),
            None => file_mode_spec(mode@) is None,
        },
{
    if same(mode, "0644") {
        return None;
    }
    match parse_uint(trim_start_char(mode, '0').as_str(), 8, 0xffff_ffff) {
        Some(m) => Some(m as u32),
        None => None,
    }
}

/// The name of what belongs to a step attempt.
pub open spec fn attempt_name(prefix: Seq<char>, execution_id: Seq<char>, step: Seq<char>, attempt: nat) -> Seq<char> {
    prefix + execution_id + "-"@ + step + "-"@ + dec(attempt)
}

fn name_attempt(prefix: &str, a: &StepAssignment) -> (s: String)
    ensures
        s@ == attempt_name(prefix@, a.execution_id@, a.step@, a.attempt as nat),
{
    let mut s = cat(prefix, a.execution_id.as_str());
    s.append("-");
    s.append(a.step.as_str());
    s.append("-");
    s.append(dec_u64(a.attempt as u64).as_str());
    s
}

/// The directory that steps work in.
pub fn work_dir_of(workspace_dir: &str) -> (r: String)
    ensures
        r@ == joined(workspace_dir@, "current"@),
{
    join_path(workspace_dir, "current")
}

/// The temporary directory of a step attempt. It lies on a local filesystem, since
/// sockets don't work on shared mounts.
pub fn tmp_dir_of(a: &StepAssignment) -> (r: String)
    ensures
        r@ == joined("/tmp"@, attempt_name("ox-step-"@, a.execution_id@, a.step@, a.attempt as nat)),
{
    join_path("/tmp", name_attempt("ox-step-", a).as_str())
}

/// The socket of a step attempt.
pub open spec fn socket_path_spec(
    tmp_dir: Seq<char>,
    runner: Seq<char>,
    execution_id: Seq<char>,
    step: Seq<char>,
    attempt: nat,
) -> Seq<char> {
    joined(tmp_dir, attempt_name("ox-"@ + runner + "-"@, execution_id, step, attempt) + ".sock"@)
}

/// The socket of a step attempt on a runner, which goes by `?` before it is registered.
pub fn socket_path_of(tmp_dir: &str, runner: Option<&RunnerId>, a: &StepAssignment) -> (r: String)
    ensures
        r@ == socket_path_spec(
            tmp_dir@,
            match runner {
                Some(id) => id.0@,
                None => "?"@,
            },
            a.execution_id@,
            a.step@,
            a.attempt as nat,
        ),
{
    let mut prefix = "ox-".to_owned();
    match runner {
        Some(id) => prefix.append(id.0.as_str()),
        None => prefix.append("?"),
    }
    prefix.append("-");
    let mut name = name_attempt(prefix.as_str(), a);
    name.append(".sock");
    join_path(tmp_dir, name.as_str())
}

// ── The course of a step ────────────────────────────────────────────

/// Where a step stands.
#[derive(Debug, Clone, Copy, PartialEq, Eq, Structural)]
pub enum Stage {
    New,
    CloningBranch,
    CloningDefault,
    CreatingBranch,
    ReadingHead,
    MakingWorkspace,
    Preparing,
    Spawning,
    Running,
    Reporting,
    Over,
}

/// A step on its way through a runner.
#[derive(Debug)]
pub struct StepRun {
    pub assignment: StepAssignment,
    pub server_url: String,
    pub work_dir: String,
    pub tmp_dir: String,
    pub home: String,
    pub socket_path: String,
    /// The search path for the step's processes, where it is to be set.
    pub path: Option<String>,
    pub stage: Stage,
    /// The commit that the workspace started from.
    pub clone_head: Option<String>,
}

/// How a runtime process ended.
#[derive(Debug)]
pub struct ExitReport {
    /// The output that the runtime reported, if it called done.
    pub done: Option<String>,
    /// The process exited with code zero.
    pub success: bool,
    pub duration_secs: u64,
    /// The commit that the workspace is at now.
    pub head: Option<String>,
    /// The workspace has uncommitted changes.
    pub dirty: bool,
    /// The failure signals found in the log.
    pub matches: Vec<SignalMatch>,
}

/// What happened.
#[derive(Debug)]
pub enum StepEvent {
    /// The step is to start.
    Begin,
    /// A clone came to an end.
    CloneExited { success: bool },
    /// A clone could not be started.
    CloneNotStarted { error: String },
    /// The creation of the branch was tried.
    BranchCreated,
    /// The commit of the workspace was looked up.
    HeadRead { head: Option<String> },
    /// The empty workspace is there.
    WorkspaceMade,
    /// Files are placed, the socket and the proxies listen; with the environment that
    /// leads to the proxies.
    Prepared { proxy_env: StringMap<String> },
    /// The runtime process runs.
    Spawned,
    /// The runtime process could not be started.
    SpawnFailed { error: String },
    /// The runtime process ended.
    Exited(ExitReport),
    /// The report went out.
    Reported,
}

/// A file to place.
#[derive(Debug)]
pub struct PlacedFile {
    pub path: String,
    pub content: String,
    /// The permissions to set, where the default ones do not do.
    pub mode: Option<u32>,
}

/// What a placed file is.
pub struct PlacedView {
    pub path: Seq<char>,
    pub content: Seq<char>,
    pub mode: Option<u32>,
}

impl View for PlacedFile {
    type V = PlacedView;

    open spec fn view(&self) -> PlacedView {
        PlacedView { path: self.path@, content: self.content@, mode: self.mode }
    }
}

/// What is reported of a step at its end.
#[derive(Debug)]
pub struct StepReport {
    /// The output, where the step is done.
    pub done: Option<String>,
    pub signals: Vec<String>,
    pub matches: Vec<SignalMatch>,
    /// The error, where the step failed; the step is confirmed otherwise.
    pub error: Option<String>,
}

/// What a report is.
pub struct ReportView {
    pub done: Option<Seq<char>>,
    pub signals: Seq<Seq<char>>,
    pub matches: Seq<SignalMatch>,
    pub error: Option<Seq<char>>,
}

impl View for StepReport {
    type V = ReportView;

    open spec fn view(&self) -> ReportView {
        ReportView {
            done: text_option(self.done),
            signals: views(self.signals@),
            matches: self.matches@,
            error: text_option(self.error),
        }
    }
}

/// What to do next.
#[derive(Debug)]
pub enum StepAction {
    /// Clone a branch into the workspace.
    CloneBranch { url: String, branch: String },
    /// Clone the default branch into the workspace.
    CloneDefault { url: String },
    /// Create a branch in the workspace.
    CreateBranch { branch: String },
    /// Look up the commit of the workspace.
    ReadHead,
    /// Create an empty workspace.
    MakeWorkspace,
    /// Place files, start the socket and the proxies.
    Prepare { files: Vec<PlacedFile> },
    /// Start the runtime process.
    Spawn { command: Vec<String>, env: StringMap<String> },
    /// Report that the step runs, and wait for its process.
    Wait,
    /// Report that the step failed, and clean up.
    Fail { error: String },
    /// Report how the step went.
    Report(StepReport),
    /// Clean up.
    Finish,
    /// Nothing: what happened does not fit where the step stands.
    Ignore,
}

/// What an action is.
pub enum ActionView {
    CloneBranch { url: Seq<char>, branch: Seq<char> },
    CloneDefault { url: Seq<char> },
    CreateBranch { branch: Seq<char> },
    ReadHead,
    MakeWorkspace,
    Prepare { files: Seq<PlacedView> },
    Spawn { command: Seq<Seq<char>>, env: Map<Seq<char>, Seq<char>> },
    Wait,
    Fail { error: Seq<char> },
    Report(ReportView),
    Finish,
    Ignore,
}

impl View for StepAction {
    type V = ActionView;

    open spec fn view(&self) -> ActionView {
        match self {
            StepAction::CloneBranch { url, branch } => ActionView::CloneBranch { url: url@, branch: branch@ },
            StepAction::CloneDefault { url } => ActionView::CloneDefault { url: url@ },
            StepAction::CreateBranch { branch } => ActionView::CreateBranch { branch: branch@ },
            StepAction::ReadHead => ActionView::ReadHead,
            StepAction::MakeWorkspace => ActionView::MakeWorkspace,
            StepAction::Prepare { files } => ActionView::Prepare { files: files@.map_values(|f: PlacedFile| f@) },
            StepAction::Spawn { command, env } => ActionView::Spawn { command: views(command@), env: env.texts() },
            StepAction::Wait => ActionView::Wait,
            StepAction::Fail { error } => ActionView::Fail { error: error@ },
            StepAction::Report(r) => ActionView::Report(r@),
            StepAction::Finish => ActionView::Finish,
            StepAction::Ignore => ActionView::Ignore,
        }
    }
}

/// What does not change while a step is carried out.
pub open spec fn same_task(a: StepRun, b: StepRun) -> bool {
    &&& a.assignment == b.assignment
    &&& a.server_url == b.server_url
    &&& a.work_dir == b.work_dir
    &&& a.tmp_dir == b.tmp_dir
    &&& a.home == b.home
    &&& a.socket_path == b.socket_path
    &&& a.path == b.path
}

/// Where the server offers the repository.
pub open spec fn git_url_spec(server_url: Seq<char>) -> Seq<char> {
    trim_end_char_spec(server_url, '/') + "/git/"@
}

/// The branch that a step works on.
pub open spec fn branch_spec(w: WorkspaceSpec) -> Seq<char> {
    match w.branch {
        Some(b) => b@,
        None => "main"@,
    }
}

impl StepRun {
    /// A text with the placeholders of the step filled in.
    pub open spec fn filled(&self, s: Seq<char>) -> Seq<char> {
        placeholders_spec(s, self.work_dir@, self.tmp_dir@, self.home@)
    }

    /// The files to place.
    pub open spec fn files_spec(&self) -> Seq<PlacedView> {
        match self.assignment.resolved {
            Some(r) => r.files@.map_values(|f: ResolvedFile| self.placed(f@)),
            None => seq![],
        }
    }

    /// A file as it is placed.
    pub open spec fn placed(&self, f: FileView) -> PlacedView {
        PlacedView {
            path: file_path_spec(f.to, self.work_dir@, self.tmp_dir@, self.home@),
            content: f.content,
            mode: match file_mode_spec(f.mode) {
                Some(m) => Some(m as u32),
                None => None,
            },
        }
    }

    /// The command of the runtime; a failing one for a step that was not resolved.
    pub open spec fn command_spec(&self) -> Seq<Seq<char>> {
        (match self.assignment.resolved {
            Some(r) => views(r.command@),
            None => seq!["sh"@, "-c"@, "echo 'no resolved spec'; exit 1"@],
        }).map_values(|a: Seq<char>| self.filled(a))
    }

    /// The environment that every step gets.
    pub open spec fn base_env(&self) -> Map<Seq<char>, Seq<char>> {
        let m = Map::<Seq<char>, Seq<char>>::empty().insert("OX_SOCKET"@, self.socket_path@).insert(
            "OX_EXECUTION_ID"@,
            self.assignment.execution_id@,
        ).insert("OX_TASK_ID"@, split_spec(self.assignment.execution_id@, '-')[0]);
        match self.path {
            Some(p) => m.insert("PATH"@, p@),
            None => m,
        }
    }

    /// The environment of the runtime: what every step gets, over it what the step sets,
    /// and over that what leads to the proxies.
    pub open spec fn env_spec(&self, proxy_env: Map<Seq<char>, Seq<char>>) -> Map<Seq<char>, Seq<char>> {
        self.base_env().union_prefer_right(
            match self.assignment.resolved {
                Some(r) => r.env.texts(),
                None => Map::empty(),
            },
        ).union_prefer_right(proxy_env)
    }
}

/// The step counts as done: the runtime said so, or exited with code zero.
pub open spec fn is_done(e: ExitReport) -> bool {
    e.done is Some || e.success
}

/// The names of signal matches.
pub open spec fn match_names(ms: Seq<SignalMatch>) -> Seq<Seq<char>> {
    ms.map_values(|m: SignalMatch| m.name@)
}

/// The signals of a step: those of its process and its workspace, then those found in
/// its log.
pub open spec fn signals_spec(w: WorkspaceSpec, clone_head: Option<Seq<char>>, e: ExitReport) -> Seq<Seq<char>> {
    (if is_done(e) {
        seq![]
    } else {
        seq!["exited_silent"@]
    }) + (if e.duration_secs < 30 {
        seq!["fast_exit"@]
    } else {
        seq![]
    }) + (if w.push && clone_head is Some && clone_head == text_option(e.head) {
        seq!["no_commits"@]
    } else {
        seq![]
    }) + (if w.git_clone && e.dirty {
        seq!["dirty_workspace"@]
    } else {
        seq![]
    }) + match_names(e.matches@)
}

/// The report of a step. Only a step that never signaled completion fails; what the
/// workspace looks like is informational.
pub open spec fn report_spec(w: WorkspaceSpec, clone_head: Option<Seq<char>>, e: ExitReport) -> ReportView {
    ReportView {
        done: if is_done(e) {
            Some(
                match e.done {
                    Some(o) => o@,
                    None => seq![],
                },
            )
        } else {
            None
        },
        signals: signals_spec(w, clone_head, e),
        matches: e.matches@,
        error: if is_done(e) {
            None
        } else {
            Some("signal:exited_silent"@)
        },
    }
}

/// Where a step stands behind an event, and what to do next.
pub open spec fn next_spec(run: StepRun, ev: StepEvent) -> (Stage, ActionView) {
    let w = run.assignment.workspace;
    match (run.stage, ev) {
        (Stage::New, StepEvent::Begin) => if w.git_clone {
            (
                Stage::CloningBranch,
                ActionView::CloneBranch { url: git_url_spec(run.server_url@), branch: branch_spec(w) },
            )
        } else {
            (Stage::MakingWorkspace, ActionView::MakeWorkspace)
        },
        (Stage::CloningBranch, StepEvent::CloneExited { success }) => if success {
            (Stage::ReadingHead, ActionView::ReadHead)
        } else {
            (Stage::CloningDefault, ActionView::CloneDefault { url: git_url_spec(run.server_url@) })
        },
        (Stage::CloningBranch, StepEvent::CloneNotStarted { error }) => (
            Stage::Over,
            ActionView::Fail { error: "git clone failed: "@ + error@ },
        ),
        (Stage::CloningDefault, StepEvent::CloneExited { success }) => if success {
            (Stage::CreatingBranch, ActionView::CreateBranch { branch: branch_spec(w) })
        } else {
            (Stage::Over, ActionView::Fail { error: "git clone from ox-server failed"@ })
        },
        (Stage::CloningDefault, StepEvent::CloneNotStarted { error }) => (
            Stage::Over,
            ActionView::Fail { error: "git clone from ox-server failed"@ },
        ),
        (Stage::CreatingBranch, StepEvent::BranchCreated) => (Stage::ReadingHead, ActionView::ReadHead),
        (Stage::ReadingHead, StepEvent::HeadRead { head }) => (
            Stage::Preparing,
            ActionView::Prepare { files: run.files_spec() },
        ),
        (Stage::MakingWorkspace, StepEvent::WorkspaceMade) => (
            Stage::Preparing,
            ActionView::Prepare { files: run.files_spec() },
        ),
        (Stage::Preparing, StepEvent::Prepared { proxy_env }) => if run.command_spec().len() == 0 {
            (Stage::Over, ActionView::Fail { error: "no command in resolved spec"@ })
        } else {
            (
                Stage::Spawning,
                ActionView::Spawn { command: run.command_spec(), env: run.env_spec(proxy_env.texts()) },
            )
        },
        (Stage::Spawning, StepEvent::Spawned) => (Stage::Running, ActionView::Wait),
        (Stage::Spawning, StepEvent::SpawnFailed { error }) => (
            Stage::Over,
            ActionView::Fail { error: "spawn failed: "@ + error@ },
        ),
        (Stage::Running, StepEvent::Exited(e)) => (
            Stage::Reporting,
            ActionView::Report(report_spec(w, text_option(run.clone_head), e)),
        ),
        (Stage::Reporting, StepEvent::Reported) => (Stage::Over, ActionView::Finish),
        _ => (run.stage, ActionView::Ignore),
    }
}

/// The commit that the workspace started from, behind an event.
pub open spec fn head_behind(run: StepRun, ev: StepEvent) -> Option<Seq<char>> {
    match (run.stage, ev) {
        (Stage::ReadingHead, StepEvent::HeadRead { head }) => text_option(head),
        _ => text_option(run.clone_head),
    }
}

fn push_signal(signals: &mut Vec<String>, name: &str)
    ensures
        views(final(signals)@) == views(old(signals)@).push(name@),
{
    let ghost before = views(signals@);
    signals.push(name.to_owned());
    assert(views(signals@) =~= before.push(name@));
}

/// Collects the signals of a step.
pub fn collect_signals(workspace: &WorkspaceSpec, clone_head: &Option<String>, e: &ExitReport) -> (r: Vec<String>)
    ensures
        views(r@) == signals_spec(*workspace, text_option(*clone_head), *e),
{
    let mut signals: Vec<String> = Vec::new();
    let ghost s0: Seq<Seq<char>> = seq![];
    assert(views(signals@) =~= s0);
    let silent = e.done.is_none() && !e.success;
    if silent {
        push_signal(&mut signals, "exited_silent");
    }
    let ghost s1 = views(signals@);
    assert(s1 =~= if is_done(*e) { seq![] } else { seq!["exited_silent"@] });
    if e.duration_secs < 30 {
        push_signal(&mut signals, "fast_exit");
    }
    let ghost s2 = views(signals@);
    assert(s2 =~= s1 + if e.duration_secs < 30 { seq!["fast_exit"@] } else { seq![] });
    // Check for no_commits if push was expected
    let unmoved = match (clone_head, &e.head) {
        (Some(a), Some(b)) => same(a.as_str(), b.as_str()),
        _ => false,
    };
    if workspace.push && unmoved {
        push_signal(&mut signals, "no_commits");
    }
    let ghost s3 = views(signals@);
    let ghost no_commits = workspace.push && clone_head is Some && text_option(*clone_head) == text_option(e.head);
    assert(no_commits == (workspace.push && unmoved));
    assert(s3 =~= s2 + if no_commits { seq!["no_commits"@] } else { seq![] });
    // Check for dirty workspace
    if workspace.git_clone && e.dirty {
        push_signal(&mut signals, "dirty_workspace");
    }
    let ghost s4 = views(signals@);
    assert(s4 =~= s3 + if workspace.git_clone && e.dirty { seq!["dirty_workspace"@] } else { seq![] });
    let mut i: usize = 0;
    assert(views(signals@) =~= s4 + match_names(e.matches@).take(0));
    while i < e.matches.len()
        invariant
            0 <= i <= e.matches@.len(),
            views(signals@) == s4 + match_names(e.matches@).take(i as int),
        decreases e.matches@.len() - i,
    {
        push_signal(&mut signals, e.matches[i].name.as_str());
        assert(views(signals@) =~= s4 + match_names(e.matches@).take(i + 1));
        i += 1;
    }
    assert(match_names(e.matches@).take(i as int) =~= match_names(e.matches@));
    signals
}

impl StepRun {
    /// A step that is about to start.
    pub fn new(
        assignment: StepAssignment,
        server_url: &str,
        workspace_dir: &str,
        home: Option<&str>,
        runner: Option<&RunnerId>,
        path: Option<String>,
    ) -> (r: Self)
        ensures
            r.assignment == assignment,
            r.server_url@ == server_url@,
            r.work_dir@ == joined(workspace_dir@, "current"@),
            r.tmp_dir@ == joined(
                "/tmp"@,
                attempt_name("ox-step-"@, assignment.execution_id@, assignment.step@, assignment.attempt as nat),
            ),
            r.home@ == (match home {
                Some(h) => h@,
                None => "/tmp"@,
            }),
            r.socket_path@ == socket_path_spec(
                r.tmp_dir@,
                match runner {
                    Some(id) => id.0@,
                    None => "?"@,
                },
                assignment.execution_id@,
                assignment.step@,
                assignment.attempt as nat,
            ),
            r.path == path,
            r.stage == Stage::New,
            r.clone_head is None,
    {
        let tmp_dir = tmp_dir_of(&assignment);
        let socket_path = socket_path_of(tmp_dir.as_str(), runner, &assignment);
        StepRun {
            assignment,
            server_url: server_url.to_owned(),
            work_dir: work_dir_of(workspace_dir),
            tmp_dir,
            home: match home {
                Some(h) => h.to_owned(),
                None => "/tmp".to_owned(),
            },
            socket_path,
            path,
            stage: Stage::New,
            clone_head: None,
        }
    }

    fn fill(&self, s: &str) -> (r: String)
        ensures
            r@ == self.filled(s@),
    {
        resolve_placeholders(s, self.work_dir.as_str(), self.tmp_dir.as_str(), self.home.as_str())
    }

    fn files(&self) -> (r: Vec<PlacedFile>)
        ensures
            r@.map_values(|f: PlacedFile| f@) == self.files_spec(),
    {
        let mut out: Vec<PlacedFile> = Vec::new();
        let ghost all = self.files_spec();
        assert(out@.map_values(|f: PlacedFile| f@) =~= all.take(0));
        if let Some(resolved) = &self.assignment.resolved {
            let mut i: usize = 0;
            while i < resolved.files.len()
                invariant
                    0 <= i <= resolved.files@.len(),
                    self.assignment.resolved is Some,
                    *resolved == self.assignment.resolved->0,
                    all == self.files_spec(),
                    out@.map_values(|f: PlacedFile| f@) == all.take(i as int),
                decreases resolved.files@.len() - i,
            {
                let ghost before = out@.map_values(|f: PlacedFile| f@);
                let f = &resolved.files[i];
                let file = PlacedFile {
                    path: resolve_file_path(
                        f.to.as_str(),
                        self.work_dir.as_str(),
                        self.tmp_dir.as_str(),
                        self.home.as_str(),
                    ),
                    content: f.content.clone(),
                    mode: file_mode(f.mode.as_str()),
                };
                out.push(file);
                assert(all[i as int] == self.placed(f@));
                assert(out@.map_values(|f: PlacedFile| f@) =~= before.push(file@));
                assert(out@.map_values(|f: PlacedFile| f@) =~= all.take(i + 1));
                i += 1;
            }
            assert(all.take(i as int) =~= all);
        } else {
            assert(all.take(0) =~= all);
        }
        out
    }

    fn command(&self) -> (r: Vec<String>)
        ensures
            views(r@) == self.command_spec(),
    {
        let mut out: Vec<String> = Vec::new();
        let ghost all = self.command_spec();
        match &self.assignment.resolved {
            Some(resolved) => {
                let mut i: usize = 0;
                assert(views(out@) =~= all.take(0));
                while i < resolved.command.len()
                    invariant
                        0 <= i <= resolved.command@.len(),
                        self.assignment.resolved is Some,
                        *resolved == self.assignment.resolved->0,
                        all == self.command_spec(),
                        views(out@) == all.take(i as int),
                    decreases resolved.command@.len() - i,
                {
                    let ghost before = views(out@);
                    let arg = self.fill(resolved.command[i].as_str());
                    assert(all[i as int] == self.filled(views(resolved.command@)[i as int]));
                    out.push(arg);
                    assert(views(out@) =~= before.push(arg@));
                    assert(views(out@) =~= all.take(i + 1));
                    i += 1;
                }
                assert(all.take(i as int) =~= all);
            },
            None => {
                out.push(self.fill("sh"));
                out.push(self.fill("-c"));
                out.push(self.fill("echo 'no resolved spec'; exit 1"));
                assert(views(out@) =~= all);
            },
        }
        out
    }

    fn env(&self, proxy_env: &StringMap<String>) -> (r: StringMap<String>)
        ensures
            r.texts() == self.env_spec(proxy_env.texts()),
    {
        let mut env: StringMap<String> = StringMap::new();
        env.insert("OX_SOCKET".to_owned(), self.socket_path.clone());
        env.insert("OX_EXECUTION_ID".to_owned(), self.assignment.execution_id.clone());
        let parts = split_char(self.assignment.execution_id.as_str(), '-');
        let ghost pieces = split_spec(self.assignment.execution_id@, '-');
        assert(pieces.len() > 0);
        assert(views(parts@)[0] == parts@[0]@);
        env.insert("OX_TASK_ID".to_owned(), parts[0].clone());
        if let Some(p) = &self.path {
            env.insert("PATH".to_owned(), p.clone());
        }
        assert(env.texts() =~= self.base_env());
        match &self.assignment.resolved {
            Some(resolved) => {
                env.overlay(&resolved.env);
            },
            None => {
                assert(env.texts() =~= self.base_env().union_prefer_right(Map::empty()));
            },
        }
        env.overlay(proxy_env);
        env
    }

    fn git_url(&self) -> (r: String)
        ensures
            r@ == git_url_spec(self.server_url@),
    {
        let mut url = trim_end_char(self.server_url.as_str(), '/');
        url.append("/git/");
        url
    }

    fn branch(&self) -> (r: String)
        ensures
            r@ == branch_spec(self.assignment.workspace),
    {
        match &self.assignment.workspace.branch {
            Some(b) => b.clone(),
            None => "main".to_owned(),
        }
    }

    fn report(&self, e: ExitReport) -> (r: StepReport)
        ensures
            r@ == report_spec(self.assignment.workspace, text_option(self.clone_head), e),
    {
        let signals = collect_signals(&self.assignment.workspace, &self.clone_head, &e);
        let error = if e.done.is_some() || e.success {
            None
        } else {
            Some("signal:exited_silent".to_owned())
        };
        // If the process exited 0 but never called done, treat as implicit done.
        // Output is empty — the workflow engine will fall through to the next step
        // by declaration order, or the step's transitions can match on "".
        let done = match e.done {
            Some(o) => Some(o),
            None => if e.success { Some(String::new()) } else { None },
        };
        StepReport { done, signals, matches: e.matches, error }
    }

    /// Takes up what happened, and says what to do next.
    pub fn next(&mut self, event: StepEvent) -> (r: StepAction)
        ensures
            (final(self).stage, r@) == next_spec(*old(self), event),
            text_option(final(self).clone_head) == head_behind(*old(self), event),
            same_task(*final(self), *old(self)),
    {
        match (self.stage, event) {
            (Stage::New, StepEvent::Begin) => {
                if self.assignment.workspace.git_clone {
                    self.stage = Stage::CloningBranch;
                    StepAction::CloneBranch { url: self.git_url(), branch: self.branch() }
                } else {
                    // No git clone — just create an empty workspace
                    self.stage = Stage::MakingWorkspace;
                    StepAction::MakeWorkspace
                }
            },
            (Stage::CloningBranch, StepEvent::CloneExited { success }) => {
                if success {
                    self.stage = Stage::ReadingHead;
                    StepAction::ReadHead
                } else {
                    // Branch might not exist yet — clone main and create it
                    self.stage = Stage::CloningDefault;
                    StepAction::CloneDefault { url: self.git_url() }
                }
            },
            (Stage::CloningBranch, StepEvent::CloneNotStarted { error }) => {
                self.stage = Stage::Over;
                StepAction::Fail { error: cat("git clone failed: ", error.as_str()) }
            },
            (Stage::CloningDefault, StepEvent::CloneExited { success }) => {
                if success {
                    self.stage = Stage::CreatingBranch;
                    StepAction::CreateBranch { branch: self.branch() }
                } else {
                    self.stage = Stage::Over;
                    StepAction::Fail { error: "git clone from ox-server failed".to_owned() }
                }
            },
            (Stage::CloningDefault, StepEvent::CloneNotStarted { error: _ }) => {
                self.stage = Stage::Over;
                StepAction::Fail { error: "git clone from ox-server failed".to_owned() }
            },
            (Stage::CreatingBranch, StepEvent::BranchCreated) => {
                self.stage = Stage::ReadingHead;
                StepAction::ReadHead
            },
            (Stage::ReadingHead, StepEvent::HeadRead { head }) => {
                let files = self.files();
                // Record HEAD before runtime runs (for no_commits detection)
                self.clone_head = head;
                self.stage = Stage::Preparing;
                StepAction::Prepare { files }
            },
            (Stage::MakingWorkspace, StepEvent::WorkspaceMade) => {
                let files = self.files();
                self.stage = Stage::Preparing;
                StepAction::Prepare { files }
            },
            (Stage::Preparing, StepEvent::Prepared { proxy_env }) => {
                let command = self.command();
                if command.len() == 0 {
                    self.stage = Stage::Over;
                    StepAction::Fail { error: "no command in resolved spec".to_owned() }
                } else {
                    let env = self.env(&proxy_env);
                    self.stage = Stage::Spawning;
                    StepAction::Spawn { command, env }
                }
            },
            (Stage::Spawning, StepEvent::Spawned) => {
                self.stage = Stage::Running;
                StepAction::Wait
            },
            (Stage::Spawning, StepEvent::SpawnFailed { error }) => {
                self.stage = Stage::Over;
                StepAction::Fail { error: cat("spawn failed: ", error.as_str()) }
            },
            (Stage::Running, StepEvent::Exited(e)) => {
                self.stage = Stage::Reporting;
                StepAction::Report(self.report(e))
            },
            (Stage::Reporting, StepEvent::Reported) => {
                self.stage = Stage::Over;
                StepAction::Finish
            },
            _ => StepAction::Ignore,
        }
    }
}

// ── Metrics and logs ────────────────────────────────────────────────

/// The metrics of a confirmed step.
pub open spec fn step_metrics_spec(duration_ms: u64, exit_code: Option<i32>, proxy: JsonView) -> JsonView {
    JsonView::Object(
        seq![
            (
                "runner"@,
                JsonView::Object(
                    seq![
                        ("duration_ms"@, JsonView::Number(NumberView::Unsigned(duration_ms))),
                        (
                            "exit_code"@,
                            match exit_code {
                                Some(c) => JsonView::Number(
                                    if c >= 0 {
                                        NumberView::Unsigned(c as u64)
                                    } else {
                                        NumberView::Signed(c as i64)
                                    },
                                ),
                                None => JsonView::Null,
                            },
                        ),
                    ],
                ),
            ),
            ("proxy"@, proxy),
        ],
    )
}

/// Puts together the metrics of a confirmed step.
pub fn step_metrics(duration_ms: u64, exit_code: Option<i32>, proxy: Json) -> (v: Json)
    ensures
        v@ == step_metrics_spec(duration_ms, exit_code, proxy@),
{
    let code = match exit_code {
        Some(c) => if c >= 0 {
            Json::number(c as u64)
        } else {
            Json::Number(JsonNumber::Signed(c as i64))
        },
        None => Json::Null,
    };
    let ghost spec = step_metrics_spec(duration_ms, exit_code, proxy@);
    let ghost inner = spec->Object_0[0].1->Object_0;
    let mut runner: Vec<(String, Json)> = Vec::new();
    runner.push(("duration_ms".to_owned(), Json::number(duration_ms)));
    runner.push(("exit_code".to_owned(), code));
    assert(member_views(runner@) =~= inner);
    let mut members: Vec<(String, Json)> = Vec::new();
    members.push(("runner".to_owned(), Json::object(runner)));
    members.push(("proxy".to_owned(), proxy));
    assert(member_views(members@) =~= spec->Object_0);
    Json::object(members)
}

/// Where the unsent part of a log of so many bytes starts, given the position behind what
/// was sent.
pub open spec fn log_start(len: nat, pos: nat) -> nat {
    if len < pos {
        0
    } else {
        pos
    }
}

/// The position behind what was sent of a log of so many bytes, given the one from before
/// and whether the unsent part went out.
pub open spec fn log_end(len: nat, pos: nat, sent: bool) -> nat {
    if sent {
        len
    } else {
        log_start(len, pos)
    }
}

/// Where the unsent part of a log starts: at the position behind what was sent, or at
/// the start where the log has been truncated since.
pub fn log_resume(len: u64, pos: u64) -> (r: u64)
    ensures
        r == log_start(len as nat, pos as nat),
        r <= len,
{
    if len < pos { 0 } else { pos }
}

/// The position behind what was sent of a log. Nothing is sent of a log without news;
/// what could not be sent is tried again the next time.
pub fn log_position(len: u64, pos: u64, sent: bool) -> (r: u64)
    ensures
        r == log_end(len as nat, pos as nat, sent),
        r <= len,
{
    let from = log_resume(len, pos);
    if len > from && sent { len } else { from }
}

/// The search path for a step's processes, with a directory in front.
pub fn path_with(bin_dir: &str, current: &str) -> (r: String)
    ensures
        r@ == bin_dir@ + ":"@ + current@,
{
    let mut s = cat(bin_dir, ":");
    s.append(current);
    s
}

// ── Laws ────────────────────────────────────────────────────────────

/// How far a step has come.
pub open spec fn stage_rank(s: Stage) -> nat {
    match s {
        Stage::New => 0,
        Stage::CloningBranch => 1,
        Stage::CloningDefault => 2,
        Stage::CreatingBranch => 3,
        Stage::ReadingHead => 4,
        Stage::MakingWorkspace => 4,
        Stage::Preparing => 5,
        Stage::Spawning => 6,
        Stage::Running => 7,
        Stage::Reporting => 8,
        Stage::Over => 9,
    }
}

/// Every event that is not ignored brings a step forward, so that a step comes to an
/// end; what is ignored changes nothing; and a step that is over does nothing more.
pub proof fn steps_only_move_forward(run: StepRun, ev: StepEvent)
    ensures
        next_spec(run, ev).1 is Ignore ==> next_spec(run, ev).0 == run.stage && head_behind(run, ev) == text_option(
            run.clone_head,
        ),
        !(next_spec(run, ev).1 is Ignore) ==> stage_rank(next_spec(run, ev).0) > stage_rank(run.stage),
        run.stage == Stage::Over ==> next_spec(run, ev).1 is Ignore,
{
}

/// A step that failed to start is over: nothing is spawned or reported for it.
pub proof fn failed_steps_are_over(run: StepRun, ev: StepEvent)
    ensures
        next_spec(run, ev).1 is Fail ==> next_spec(run, ev).0 == Stage::Over,
        next_spec(run, ev).1 is Finish ==> next_spec(run, ev).0 == Stage::Over,
{
}

/// A step is confirmed exactly where it is reported done, and fails exactly where its
/// process ended without success and without a word: an exit with code zero is done
/// with an empty output.
pub proof fn silent_failures_are_the_only_failures(w: WorkspaceSpec, head: Option<Seq<char>>, e: ExitReport)
    ensures
        report_spec(w, head, e).done is Some <==> report_spec(w, head, e).error is None,
        report_spec(w, head, e).error is Some <==> e.done is None && !e.success,
        e.done is None && e.success ==> report_spec(w, head, e).done == Some(Seq::<char>::empty()),
        e.done is Some ==> report_spec(w, head, e).done == Some(e.done->0@),
{
}

/// Every failure signal found in the log is reported by name among the signals.
pub proof fn log_matches_are_signaled(w: WorkspaceSpec, head: Option<Seq<char>>, e: ExitReport, i: int)
    requires
        0 <= i < e.matches@.len(),
    ensures
        report_spec(w, head, e).signals.contains(e.matches@[i].name@),
{
    let names = match_names(e.matches@);
    let all = signals_spec(w, head, e);
    let n = all.len() - names.len();
    assert(all[n + i] == names[i]);
}

/// An event brings a step from one state to another, and asks for an action.
pub open spec fn moves(before: StepRun, ev: StepEvent, after: StepRun, action: ActionView) -> bool {
    &&& (after.stage, action) == next_spec(before, ev)
    &&& text_option(after.clone_head) == head_behind(before, ev)
    &&& same_task(after, before)
}

/// A step goes through states, one event after the other, and asks for an action each time.
pub open spec fn course(runs: Seq<StepRun>, evs: Seq<StepEvent>, actions: Seq<ActionView>) -> bool {
    &&& runs.len() == evs.len() + 1
    &&& actions.len() == evs.len()
    &&& forall|i: int| 0 <= i < evs.len() ==> moves(runs[i], #[trigger] evs[i], runs[i + 1], actions[i])
}

/// A clone failed.
pub open spec fn clone_failed(ev: StepEvent) -> bool {
    ev matches StepEvent::CloneExited { success } && !success
}

/// A clone succeeded.
pub open spec fn clone_succeeded(ev: StepEvent) -> bool {
    ev matches StepEvent::CloneExited { success } && success
}

/// A clone of the wanted branch that succeeds is the workspace: its commit is looked up
/// next. The default branch is cloned exactly where the clone of the branch failed, and the
/// branch is created exactly where that second clone succeeded.
pub proof fn the_default_branch_is_a_fallback(run: StepRun, ev: StepEvent)
    ensures
        run.stage == Stage::CloningBranch ==> (next_spec(run, ev).1 is ReadHead <==> clone_succeeded(ev)),
        next_spec(run, ev).1 is CloneDefault <==> run.stage == Stage::CloningBranch && clone_failed(ev),
        next_spec(run, ev).1 is CreateBranch <==> run.stage == Stage::CloningDefault && clone_succeeded(ev),
{
}

/// Over the course of a step the default branch is cloned, and a branch created, only behind
/// a failed clone of the branch itself.
pub proof fn branches_are_created_behind_a_failed_clone_only(
    runs: Seq<StepRun>,
    evs: Seq<StepEvent>,
    actions: Seq<ActionView>,
    k: int,
)
    requires
        course(runs, evs, actions),
        runs[0].stage == Stage::New,
        0 <= k < evs.len(),
        actions[k] is CloneDefault || actions[k] is CreateBranch,
    ensures
        exists|i: int, j: int|
            0 <= i < j <= k && (#[trigger] actions[i]) is CloneBranch && clone_failed(#[trigger] evs[j]),
{
    assert(moves(runs[k], evs[k], runs[k + 1], actions[k]));
    lemma_failed_clone(runs, evs, actions, k);
    if actions[k] is CloneDefault {
        let i = choose|i: int| 0 <= i < k && (#[trigger] actions[i]) is CloneBranch;
        assert(actions[i] is CloneBranch && clone_failed(evs[k]));
    }
}

proof fn lemma_failed_clone(runs: Seq<StepRun>, evs: Seq<StepEvent>, actions: Seq<ActionView>, k: int)
    requires
        course(runs, evs, actions),
        runs[0].stage == Stage::New,
        0 <= k <= evs.len(),
    ensures
        runs[k].stage == Stage::CloningBranch ==> exists|i: int|
            0 <= i < k && (#[trigger] actions[i]) is CloneBranch,
        runs[k].stage == Stage::CloningDefault || runs[k].stage == Stage::CreatingBranch ==> exists|i: int, j: int|
            0 <= i < j < k && (#[trigger] actions[i]) is CloneBranch && clone_failed(#[trigger] evs[j]),
    decreases k,
{
    if k > 0 {
        let last = k - 1;
        lemma_failed_clone(runs, evs, actions, last);
        assert(moves(runs[last], evs[last], runs[last + 1], actions[last]));
        if runs[k].stage == Stage::CloningBranch && runs[last].stage != Stage::CloningBranch {
            assert(actions[last] is CloneBranch);
        }
        if runs[k].stage == Stage::CloningDefault && runs[last].stage == Stage::CloningBranch {
            let i = choose|i: int| 0 <= i < last && (#[trigger] actions[i]) is CloneBranch;
            assert(actions[i] is CloneBranch && clone_failed(evs[last]));
        }
    }
}

/// Once the commit of a workspace is looked up, nothing is cloned or created any more.
pub proof fn a_workspace_is_cloned_once(
    runs: Seq<StepRun>,
    evs: Seq<StepEvent>,
    actions: Seq<ActionView>,
    j: int,
    k: int,
)
    requires
        course(runs, evs, actions),
        0 <= j < k < evs.len(),
        actions[j] is ReadHead,
    ensures
        !(actions[k] is CloneBranch),
        !(actions[k] is CloneDefault),
        !(actions[k] is CreateBranch),
        !(actions[k] is MakeWorkspace),
        !(actions[k] is ReadHead),
{
    assert(moves(runs[j], evs[j], runs[j + 1], actions[j]));
    lemma_stages_grow(runs, evs, actions, j + 1, k);
    assert(moves(runs[k], evs[k], runs[k + 1], actions[k]));
}

proof fn lemma_stages_grow(runs: Seq<StepRun>, evs: Seq<StepEvent>, actions: Seq<ActionView>, j: int, k: int)
    requires
        course(runs, evs, actions),
        0 <= j <= k <= evs.len(),
    ensures
        stage_rank(runs[j].stage) <= stage_rank(runs[k].stage),
        same_task(runs[j], runs[k]),
    decreases k - j,
{
    if j < k {
        lemma_stages_grow(runs, evs, actions, j, k - 1);
        assert(moves(runs[k - 1], evs[k - 1], runs[k - 1 + 1], actions[k - 1]));
    }
}

/// What every step comes to from the moment that its workspace is there: its files are
/// placed, its command is started with its environment, waited for and reported on.
pub open spec fn carried_out(
    run: StepRun,
    clone_head: Option<Seq<char>>,
    proxy_env: StringMap<String>,
    e: ExitReport,
) -> Seq<ActionView> {
    seq![
        ActionView::Prepare { files: run.files_spec() },
        ActionView::Spawn { command: run.command_spec(), env: run.env_spec(proxy_env.texts()) },
        ActionView::Wait,
        ActionView::Report(report_spec(run.assignment.workspace, clone_head, e)),
        ActionView::Finish,
    ]
}

/// A step whose branch exists runs on it: the branch is cloned, its commit looked up, and
/// the step carried out and reported on against that commit.
pub proof fn steps_run_on_their_branch(
    runs: Seq<StepRun>,
    actions: Seq<ActionView>,
    head: Option<String>,
    proxy_env: StringMap<String>,
    e: ExitReport,
)
    requires
        course(
            runs,
            seq![
                StepEvent::Begin,
                StepEvent::CloneExited { success: true },
                StepEvent::HeadRead { head },
                StepEvent::Prepared { proxy_env },
                StepEvent::Spawned,
                StepEvent::Exited(e),
                StepEvent::Reported,
            ],
            actions,
        ),
        runs[0].stage == Stage::New,
        runs[0].assignment.workspace.git_clone,
        runs[0].command_spec().len() > 0,
    ensures
        actions == seq![
            ActionView::CloneBranch {
                url: trim_end_char_spec(runs[0].server_url@, '/') + "/git/"@,
                branch: match runs[0].assignment.workspace.branch {
                    Some(b) => b@,
                    None => "main"@,
                },
            },
            ActionView::ReadHead,
        ] + carried_out(runs[0], text_option(head), proxy_env, e),
        runs.last().stage == Stage::Over,
{
    let evs = seq![
        StepEvent::Begin,
        StepEvent::CloneExited { success: true },
        StepEvent::HeadRead { head },
        StepEvent::Prepared { proxy_env },
        StepEvent::Spawned,
        StepEvent::Exited(e),
        StepEvent::Reported,
    ];
    assert(moves(runs[0], evs[0], runs[1], actions[0]));
    assert(moves(runs[1], evs[1], runs[2], actions[1]));
    assert(moves(runs[2], evs[2], runs[3], actions[2]));
    assert(moves(runs[3], evs[3], runs[4], actions[3]));
    assert(moves(runs[4], evs[4], runs[5], actions[4]));
    assert(moves(runs[5], evs[5], runs[6], actions[5]));
    assert(moves(runs[6], evs[6], runs[7], actions[6]));
    lemma_same_plan(runs[0], runs[2], proxy_env);
    lemma_same_plan(runs[0], runs[3], proxy_env);
}

/// A step whose branch does not exist yet starts from the default branch: that is cloned,
/// the branch created, and the step carried out on it.
pub proof fn steps_create_their_branch(
    runs: Seq<StepRun>,
    actions: Seq<ActionView>,
    head: Option<String>,
    proxy_env: StringMap<String>,
    e: ExitReport,
)
    requires
        course(
            runs,
            seq![
                StepEvent::Begin,
                StepEvent::CloneExited { success: false },
                StepEvent::CloneExited { success: true },
                StepEvent::BranchCreated,
                StepEvent::HeadRead { head },
                StepEvent::Prepared { proxy_env },
                StepEvent::Spawned,
                StepEvent::Exited(e),
                StepEvent::Reported,
            ],
            actions,
        ),
        runs[0].stage == Stage::New,
        runs[0].assignment.workspace.git_clone,
        runs[0].command_spec().len() > 0,
    ensures
        ({
            let url = trim_end_char_spec(runs[0].server_url@, '/') + "/git/"@;
            let branch = match runs[0].assignment.workspace.branch {
                Some(b) => b@,
                None => "main"@,
            };
            actions == seq![
                ActionView::CloneBranch { url, branch },
                ActionView::CloneDefault { url },
                ActionView::CreateBranch { branch },
                ActionView::ReadHead,
            ] + carried_out(runs[0], text_option(head), proxy_env, e)
        }),
        runs.last().stage == Stage::Over,
{
    let evs = seq![
        StepEvent::Begin,
        StepEvent::CloneExited { success: false },
        StepEvent::CloneExited { success: true },
        StepEvent::BranchCreated,
        StepEvent::HeadRead { head },
        StepEvent::Prepared { proxy_env },
        StepEvent::Spawned,
        StepEvent::Exited(e),
        StepEvent::Reported,
    ];
    assert(moves(runs[0], evs[0], runs[1], actions[0]));
    assert(moves(runs[1], evs[1], runs[2], actions[1]));
    assert(moves(runs[2], evs[2], runs[3], actions[2]));
    assert(moves(runs[3], evs[3], runs[4], actions[3]));
    assert(moves(runs[4], evs[4], runs[5], actions[4]));
    assert(moves(runs[5], evs[5], runs[6], actions[5]));
    assert(moves(runs[6], evs[6], runs[7], actions[6]));
    assert(moves(runs[7], evs[7], runs[8], actions[7]));
    assert(moves(runs[8], evs[8], runs[9], actions[8]));
    lemma_same_plan(runs[0], runs[4], proxy_env);
    lemma_same_plan(runs[0], runs[5], proxy_env);
}

/// A step without a repository gets an empty workspace, and is carried out in it.
pub proof fn steps_without_a_repository_get_an_empty_workspace(
    runs: Seq<StepRun>,
    actions: Seq<ActionView>,
    proxy_env: StringMap<String>,
    e: ExitReport,
)
    requires
        course(
            runs,
            seq![
                StepEvent::Begin,
                StepEvent::WorkspaceMade,
                StepEvent::Prepared { proxy_env },
                StepEvent::Spawned,
                StepEvent::Exited(e),
                StepEvent::Reported,
            ],
            actions,
        ),
        runs[0].stage == Stage::New,
        runs[0].clone_head is None,
        !runs[0].assignment.workspace.git_clone,
        runs[0].command_spec().len() > 0,
    ensures
        actions == seq![ActionView::MakeWorkspace] + carried_out(runs[0], None, proxy_env, e),
        runs.last().stage == Stage::Over,
{
    let evs = seq![
        StepEvent::Begin,
        StepEvent::WorkspaceMade,
        StepEvent::Prepared { proxy_env },
        StepEvent::Spawned,
        StepEvent::Exited(e),
        StepEvent::Reported,
    ];
    assert(moves(runs[0], evs[0], runs[1], actions[0]));
    assert(moves(runs[1], evs[1], runs[2], actions[1]));
    assert(moves(runs[2], evs[2], runs[3], actions[2]));
    assert(moves(runs[3], evs[3], runs[4], actions[3]));
    assert(moves(runs[4], evs[4], runs[5], actions[4]));
    assert(moves(runs[5], evs[5], runs[6], actions[5]));
    lemma_same_plan(runs[0], runs[1], proxy_env);
    lemma_same_plan(runs[0], runs[2], proxy_env);
}

proof fn lemma_same_plan(a: StepRun, b: StepRun, proxy_env: StringMap<String>)
    requires
        same_task(a, b),
    ensures
        a.files_spec() == b.files_spec(),
        a.command_spec() == b.command_spec(),
        a.env_spec(proxy_env.texts()) == b.env_spec(proxy_env.texts()),
{
    assert(a.files_spec() =~= b.files_spec());
    assert(a.command_spec() =~= b.command_spec());
}

/// What cannot be started fails the step, with words that say what it was, and ends it:
/// the clone, the second clone, a step without a command, its process.
pub proof fn what_cannot_be_started_fails_the_step(run: StepRun, error: String, proxy_env: StringMap<String>)
    ensures
        run.stage == Stage::CloningBranch ==> next_spec(run, StepEvent::CloneNotStarted { error }) == (
            Stage::Over,
            ActionView::Fail { error: "git clone failed: "@ + error@ },
        ),
        run.stage == Stage::CloningDefault ==> next_spec(run, StepEvent::CloneExited { success: false }) == (
            Stage::Over,
            ActionView::Fail { error: "git clone from ox-server failed"@ },
        ),
        run.stage == Stage::CloningDefault ==> next_spec(run, StepEvent::CloneNotStarted { error }) == (
            Stage::Over,
            ActionView::Fail { error: "git clone from ox-server failed"@ },
        ),
        run.stage == Stage::Preparing && run.command_spec().len() == 0 ==> next_spec(
            run,
            StepEvent::Prepared { proxy_env },
        ) == (Stage::Over, ActionView::Fail { error: "no command in resolved spec"@ }),
        run.stage == Stage::Spawning ==> next_spec(run, StepEvent::SpawnFailed { error }) == (
            Stage::Over,
            ActionView::Fail { error: "spawn failed: "@ + error@ },
        ),
{
}

/// A signal is reported exactly for its reason: a silent exit, an exit within half a minute,
/// a workspace to push that is still at the commit that it started from, uncommitted changes
/// in a clone, or a match of that name in the log. The matches themselves are reported too.
pub proof fn signals_have_their_reasons(w: WorkspaceSpec, head: Option<Seq<char>>, e: ExitReport, name: Seq<char>)
    ensures
        report_spec(w, head, e).signals.contains(name) <==> {
            ||| name == "exited_silent"@ && e.done is None && !e.success
            ||| name == "fast_exit"@ && e.duration_secs < 30
            ||| name == "no_commits"@ && w.push && head is Some && e.head is Some && e.head->0@ == head->0
            ||| name == "dirty_workspace"@ && w.git_clone && e.dirty
            ||| exists|i: int| 0 <= i < e.matches@.len() && (#[trigger] e.matches@[i]).name@ == name
        },
        report_spec(w, head, e).matches == e.matches@,
{
    let a = if e.done is Some || e.success { seq![] } else { seq!["exited_silent"@] };
    let b = if e.duration_secs < 30 { seq!["fast_exit"@] } else { seq![] };
    let c = if w.push && head is Some && head == text_option(e.head) { seq!["no_commits"@] } else { seq![] };
    let d = if w.git_clone && e.dirty { seq!["dirty_workspace"@] } else { seq![] };
    let m = match_names(e.matches@);
    let all = a + b + c + d + m;
    assert(all == report_spec(w, head, e).signals);
    if a.len() > 0 {
        assert(all[0] == a[0]);
    }
    if b.len() > 0 {
        assert(all[a.len() as int] == b[0]);
    }
    if c.len() > 0 {
        assert(all[(a + b).len() as int] == c[0]);
    }
    if d.len() > 0 {
        assert(all[(a + b + c).len() as int] == d[0]);
    }
    let n = (a + b + c + d).len() as int;
    assert forall|i: int| 0 <= i < e.matches@.len() implies all.contains((#[trigger] e.matches@[i]).name@) by {
        assert(all[n + i] == m[i]);
    }
    if all.contains(name) {
        let at = all.index_of(name);
        if at >= n {
            assert(m[at - n] == e.matches@[at - n].name@);
        }
    }
}

/// What leads to the proxies wins over what the step sets, and that over what every step
/// gets: its socket, its execution, the task that the execution is for, and the search path
/// where there is one. Nothing else is in the environment.
pub proof fn proxies_win_over_the_step_env(run: StepRun, proxy_env: Map<Seq<char>, Seq<char>>, key: Seq<char>)
    ensures
        ({
            let env = run.env_spec(proxy_env);
            let own = match run.assignment.resolved {
                Some(r) => r.env.texts(),
                None => Map::empty(),
            };
            if proxy_env.dom().contains(key) {
                env.dom().contains(key) && env[key] == proxy_env[key]
            } else if own.dom().contains(key) {
                env.dom().contains(key) && env[key] == own[key]
            } else if key == "OX_SOCKET"@ {
                env.dom().contains(key) && env[key] == run.socket_path@
            } else if key == "OX_EXECUTION_ID"@ {
                env.dom().contains(key) && env[key] == run.assignment.execution_id@
            } else if key == "OX_TASK_ID"@ {
                env.dom().contains(key) && env[key] == run.assignment.execution_id@.take(
                    find_from(run.assignment.execution_id@, '-', 0),
                )
            } else if key == "PATH"@ && run.path is Some {
                env.dom().contains(key) && env[key] == run.path->0@
            } else {
                !env.dom().contains(key)
            }
        }),
{
    reveal_strlit("OX_SOCKET");
    reveal_strlit("OX_EXECUTION_ID");
    reveal_strlit("OX_TASK_ID");
    reveal_strlit("PATH");
    assert("OX_SOCKET"@[3] != "OX_EXECUTION_ID"@[3]);
    assert("OX_SOCKET"@[3] != "OX_TASK_ID"@[3]);
    assert("OX_TASK_ID"@[3] != "OX_EXECUTION_ID"@[3]);
    assert("PATH"@[0] != "OX_SOCKET"@[0]);
    assert("PATH"@[0] != "OX_EXECUTION_ID"@[0]);
    assert("PATH"@[0] != "OX_TASK_ID"@[0]);
    let id = run.assignment.execution_id@;
    lemma_find_from(id, '-', 0);
    let at = find_from(id, '-', 0);
    if at == id.len() {
        assert(id.take(at) =~= id);
    }
}

/// Every word of a resolved command is started with its placeholders filled in, and every
/// resolved file is placed, at its destination with the placeholders filled in and with the
/// permissions that its mode says.
pub proof fn words_and_files_are_all_there(run: StepRun, i: int)
    requires
        run.assignment.resolved is Some,
    ensures
        ({
            let r = run.assignment.resolved->0;
            &&& run.command_spec().len() == r.command@.len()
            &&& run.files_spec().len() == r.files@.len()
            &&& 0 <= i < r.command@.len() ==> run.command_spec()[i] == placeholders_spec(
                r.command@[i]@,
                run.work_dir@,
                run.tmp_dir@,
                run.home@,
            )
            &&& 0 <= i < r.files@.len() ==> {
                &&& run.files_spec()[i].content == r.files@[i].content@
                &&& run.files_spec()[i].path == joined(
                    run.tmp_dir@,
                    placeholders_spec(r.files@[i].to@, run.work_dir@, run.tmp_dir@, run.home@),
                )
                &&& run.files_spec()[i].mode is Some <==> file_mode_spec(r.files@[i].mode@) is Some
                &&& file_mode_spec(r.files@[i].mode@) is Some && file_mode_spec(r.files@[i].mode@)->0 <= u32::MAX
                    ==> run.files_spec()[i].mode->0 == file_mode_spec(r.files@[i].mode@)->0
            }
        }),
{
}

/// Placeholders stand for the directories of the step, and other text for itself.
pub proof fn placeholders_stand_for_directories(
    a: Seq<char>,
    b: Seq<char>,
    work_dir: Seq<char>,
    tmp_dir: Seq<char>,
    home: Seq<char>,
)
    requires
        !a.contains('{'),
        !b.contains('{'),
        !work_dir.contains('{'),
        !tmp_dir.contains('{'),
        !home.contains('{'),
    ensures
        placeholders_spec(a, work_dir, tmp_dir, home) == a,
        placeholders_spec(a + "{workspace}"@ + b, work_dir, tmp_dir, home) == a + work_dir + b,
        placeholders_spec(a + "{tmp_dir}"@ + b, work_dir, tmp_dir, home) == a + tmp_dir + b,
        placeholders_spec(a + "{home}"@ + b, work_dir, tmp_dir, home) == a + home + b,
{
    reveal_strlit("{workspace}");
    reveal_strlit("{tmp_dir}");
    reveal_strlit("{home}");
    let w = "{workspace}"@;
    let t = "{tmp_dir}"@;
    let h = "{home}"@;
    lemma_no_brace_no_change(a, w, work_dir);
    lemma_no_brace_no_change(a, t, tmp_dir);
    lemma_no_brace_no_change(a, h, home);
    lemma_one_placeholder(a, b, w, work_dir, t, tmp_dir);
    lemma_one_placeholder(a, b, w, work_dir, h, home);
    lemma_one_placeholder(a, b, t, tmp_dir, w, work_dir);
    lemma_one_placeholder(a, b, t, tmp_dir, h, home);
    lemma_one_placeholder(a, b, h, home, w, work_dir);
    lemma_one_placeholder(a, b, h, home, t, tmp_dir);
}

proof fn lemma_no_brace_no_change(s: Seq<char>, from: Seq<char>, to: Seq<char>)
    requires
        !s.contains('{'),
        from.len() > 0,
        from[0] == '{',
    ensures
        replace_spec(s, from, to) == s,
{
    assert forall|i: int| !occurs_at(s, from, i) by {
        if occurs_at(s, from, i) {
            assert(s.subrange(i, i + from.len())[0] == s[i]);
            assert(s.contains(s[i]));
        }
    }
    texts_without_an_occurrence_stay(s, from, to);
}

proof fn lemma_one_placeholder(
    a: Seq<char>,
    b: Seq<char>,
    from: Seq<char>,
    to: Seq<char>,
    other: Seq<char>,
    other_to: Seq<char>,
)
    requires
        !a.contains('{'),
        !b.contains('{'),
        !to.contains('{'),
        from.len() > 2,
        other.len() > 2,
        from[0] == '{',
        other[0] == '{',
        from[1] != other[1],
        forall|i: int| 0 < i < from.len() ==> from[i] != '{',
    ensures
        replace_spec(a + from + b, from, to) == a + to + b,
        replace_spec(a + from + b, other, other_to) == a + from + b,
        replace_spec(a + to + b, other, other_to) == a + to + b,
{
    let s = a + from + b;
    let n = a.len() as int;
    assert forall|i: int| 0 <= i < s.len() && i != n implies s[i] != '{' by {
        if i < n {
            assert(a.contains(s[i]));
        } else if i < n + from.len() {
            assert(s[i] == from[i - n]);
        } else {
            assert(s[i] == b[i - n - from.len()]);
            assert(b.contains(s[i]));
        }
    }
    assert(s.subrange(n, n + from.len()) =~= from);
    assert forall|i: int| i < n implies !occurs_at(s, from, i) by {
        if occurs_at(s, from, i) {
            assert(s.subrange(i, i + from.len())[0] == s[i]);
        }
    }
    the_first_occurrence_is_replaced(s, from, to, n);
    assert(s.take(n) =~= a);
    assert(s.skip(n + from.len()) =~= b);
    lemma_no_brace_no_change(b, from, to);
    assert forall|i: int| !occurs_at(s, other, i) by {
        if occurs_at(s, other, i) {
            let part = s.subrange(i, i + other.len());
            assert(part[0] == s[i]);
            assert(part[1] == s[i + 1]);
            assert(s[n + 1] == from[1]);
        }
    }
    texts_without_an_occurrence_stay(s, other, other_to);
    let u = a + to + b;
    assert(!u.contains('{')) by {
        if u.contains('{') {
            let i = u.index_of('{');
            if i < n {
                assert(a.contains(a[i]));
            } else if i < n + to.len() {
                assert(to.contains(to[i - n]));
            } else {
                assert(b.contains(b[i - n - to.len()]));
            }
        }
    }
    lemma_no_brace_no_change(u, other, other_to);
}

/// A file gets the permissions that its octal digits say, but for the default ones, which
/// need no setting; leading zeros make no difference.
pub proof fn octal_permissions_are_set(mode: Seq<char>)
    ensures
        file_mode_spec("0644"@) is None,
        mode != "0644"@ && mode.len() > 0 && mode[0] != '0' && "0"@ + mode != "0644"@ ==> file_mode_spec("0"@ + mode)
            == parse_uint_spec(mode, 8, 0xffff_ffff) && file_mode_spec(mode) == parse_uint_spec(mode, 8, 0xffff_ffff),
{
    reveal_strlit("0");
    let m = "0"@ + mode;
    assert(m[0] == '0');
    assert(m.skip(1) =~= mode);
}

/// A log that only grows is sent once, in order: what goes out next starts where the last part
/// that went out ended, and what could not be sent goes out with the next part. A log that was
/// truncated is sent from its start.
pub proof fn logs_are_sent_once(pos: nat, len: nat, later: nat)
    requires
        pos <= len <= later,
    ensures
        log_start(len, pos) == pos,
        log_end(len, pos, true) == len,
        log_start(later, log_end(len, pos, true)) == len,
        log_start(later, log_end(len, pos, false)) == pos,
        pos < len ==> log_start(pos, len) == 0,
        pos < len ==> log_end(pos, len, true) == pos && log_end(pos, len, false) == 0,
{
}

/// Attempts of a step have names, and so directories and sockets, of their own.
pub proof fn attempts_have_distinct_names(
    prefix: Seq<char>,
    execution_id: Seq<char>,
    step: Seq<char>,
    a: nat,
    b: nat,
)
    ensures
        attempt_name(prefix, execution_id, step, a) == attempt_name(prefix, execution_id, step, b) <==> a == b,
        attempt_name(prefix, execution_id, step, a) == prefix + execution_id + "-"@ + step + "-"@ + dec(a),
{
    let front = prefix + execution_id + "-"@ + step + "-"@;
    let (x, y) = (front + dec(a), front + dec(b));
    assert(x.skip(front.len() as int) =~= dec(a));
    assert(y.skip(front.len() as int) =~= dec(b));
    lemma_value_of_dec(a);
    lemma_value_of_dec(b);
}

/// The metrics of a step tell how long it ran, its exit code where it has one, and what its
/// proxies counted.
pub proof fn metrics_tell_duration_code_and_proxies(duration_ms: u64, exit_code: Option<i32>, proxy: JsonView)
    ensures
        ({
            let m = step_metrics_spec(duration_ms, exit_code, proxy);
            let runner = m.at("runner"@);
            &&& m.at("proxy"@) == proxy
            &&& runner.at("duration_ms"@).as_u64() == Some(duration_ms)
            &&& exit_code is None ==> runner.at("exit_code"@) == JsonView::Null
            &&& exit_code is Some && exit_code->0 >= 0 ==> runner.at("exit_code"@) == JsonView::Number(
                NumberView::Unsigned(exit_code->0 as u64),
            )
            &&& exit_code is Some && exit_code->0 < 0 ==> runner.at("exit_code"@) == JsonView::Number(
                NumberView::Signed(exit_code->0 as i64),
            )
        }),
{
    reveal_strlit("runner");
    reveal_strlit("proxy");
    reveal_strlit("duration_ms");
    reveal_strlit("exit_code");
    assert("runner"@[0] != "proxy"@[0]);
    assert("duration_ms"@[0] != "exit_code"@[0]);
    let m = step_metrics_spec(duration_ms, exit_code, proxy)->Object_0;
    assert(m =~= m.take(0) + seq![m[0]] + m.skip(1));
    members_are_read_by_name(m.take(0), m[0].0, m[0].1, m.skip(1));
    assert(m =~= m.take(1) + seq![m[1]] + m.skip(2));
    members_are_read_by_name(m.take(1), m[1].0, m[1].1, m.skip(2));
    let r = m[0].1->Object_0;
    assert(r =~= r.take(0) + seq![r[0]] + r.skip(1));
    members_are_read_by_name(r.take(0), r[0].0, r[0].1, r.skip(1));
    assert(r =~= r.take(1) + seq![r[1]] + r.skip(2));
    members_are_read_by_name(r.take(1), r[1].0, r[1].1, r.skip(2));
}

/// A step that was not resolved runs a command that fails, and gets no files.
pub proof fn unresolved_steps_fail(run: StepRun)
    requires
        run.assignment.resolved is None,
    ensures
        run.command_spec() == seq!["sh"@, "-c"@, "echo 'no resolved spec'; exit 1"@],
        run.files_spec().len() == 0,
{
    reveal_strlit("{workspace}");
    reveal_strlit("{tmp_dir}");
    reveal_strlit("{home}");
    reveal_strlit("sh");
    reveal_strlit("-c");
    reveal_strlit("echo 'no resolved spec'; exit 1");
    let words = seq!["sh"@, "-c"@, "echo 'no resolved spec'; exit 1"@];
    assert forall|i: int| 0 <= i < 3 implies run.filled(#[trigger] words[i]) == words[i] by {
        let w = words[i];
        assert(!w.contains('{'));
        lemma_no_brace_no_change(w, "{workspace}"@, run.work_dir@);
        lemma_no_brace_no_change(w, "{tmp_dir}"@, run.tmp_dir@);
        lemma_no_brace_no_change(w, "{home}"@, run.home@);
    }
    assert(run.command_spec() =~= words);
}

} // verus!
