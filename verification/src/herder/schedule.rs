//! The scheduler: what an execution needs next, and which runner gets which step.

use vstd::prelude::*;

use crate::client::{DispatchStepParams, Payload};
use crate::herder::events::{visit_count, HerderEvent};
use crate::herder::state::{
    first_idle, lemma_put_execution, lemma_put_runner, lemma_runners_stay_consistent, same_config, ExecPhase,
    ExecState, ExecStatus, Herder, HerderState, PhaseView, RunnerState,
};
use crate::strmap::StringMap;
use crate::text::{
    cat, copy_option, dec, dec_u64, occurs_at, replace, replace_spec, same, text_option,
    texts_without_an_occurrence_stay, the_first_occurrence_is_replaced, trim_end_char, trim_end_char_spec, views,
};
use crate::types::RunnerId;
use crate::workflow::{
    advance_along, counts_along, lemma_position, pattern_matches, position_of, retry_limit, route, same_runtime,
    unlimited_steps_are_always_entered, unmatched_outputs_go_to_the_next_step, visit_fits, visits, AdvanceView,
    RetryDecision, RetryView, StepAdvance, StepDef, Target, TriggerDef, WorkflowDef, WorkflowEngine,
};

verus! {

/// A request to the server that scheduling calls for.
#[derive(Debug)]
pub enum Request {
    /// Record that an execution went on to another step.
    Advance { execution_id: String, from_step: String, to_step: String },
    /// Complete an execution.
    Complete { execution_id: String },
    /// Hand an execution over to a human.
    Escalate { execution_id: String, step: String, reason: String },
    /// Record that a step failed.
    Fail { execution_id: String, step: String, attempt: u32, error: String },
}

/// What a request is.
pub enum RequestView {
    Advance { execution_id: Seq<char>, from_step: Seq<char>, to_step: Seq<char> },
    Complete { execution_id: Seq<char> },
    Escalate { execution_id: Seq<char>, step: Seq<char>, reason: Seq<char> },
    Fail { execution_id: Seq<char>, step: Seq<char>, attempt: u32, error: Seq<char> },
}

impl View for Request {
    type V = RequestView;

    open spec fn view(&self) -> RequestView {
        match self {
            Request::Advance { execution_id, from_step, to_step } => RequestView::Advance {
                execution_id: execution_id@,
                from_step: from_step@,
                to_step: to_step@,
            },
            Request::Complete { execution_id } => RequestView::Complete { execution_id: execution_id@ },
            Request::Escalate { execution_id, step, reason } => RequestView::Escalate {
                execution_id: execution_id@,
                step: step@,
                reason: reason@,
            },
            Request::Fail { execution_id, step, attempt, error } => RequestView::Fail {
                execution_id: execution_id@,
                step: step@,
                attempt: *attempt,
                error: error@,
            },
        }
    }
}

/// A merge that an action step asks for.
#[derive(Debug)]
pub struct MergeRequest {
    pub execution_id: String,
    pub step: String,
    pub attempt: u32,
    pub branch: String,
    pub squash: bool,
}

/// What a merge request is.
pub struct MergeView {
    pub execution_id: Seq<char>,
    pub step: Seq<char>,
    pub attempt: u32,
    pub branch: Seq<char>,
    pub squash: bool,
}

impl View for MergeRequest {
    type V = MergeView;

    open spec fn view(&self) -> MergeView {
        MergeView {
            execution_id: self.execution_id@,
            step: self.step@,
            attempt: self.attempt,
            branch: self.branch@,
            squash: self.squash,
        }
    }
}

/// What came of processing an execution.
#[derive(Debug)]
pub enum Progress {
    /// Nothing changed.
    Unchanged,
    /// The state changed, and the server is to hear of it where there is a request.
    Changed(Option<Request>),
    /// A merge is to be tried, and its outcome to be reported back.
    Merge(MergeRequest),
}

/// What progress is.
pub enum ProgressView {
    Unchanged,
    Changed(Option<RequestView>),
    Merge(MergeView),
}

impl View for Progress {
    type V = ProgressView;

    open spec fn view(&self) -> ProgressView {
        match self {
            Progress::Unchanged => ProgressView::Unchanged,
            Progress::Changed(r) => ProgressView::Changed(
                match r {
                    Some(r) => Some(r@),
                    None => None,
                },
            ),
            Progress::Merge(m) => ProgressView::Merge(m@),
        }
    }
}

/// The definition of a step of a workflow.
pub open spec fn step_def(flows: Map<Seq<char>, WorkflowEngine>, workflow: Seq<char>, step: Seq<char>) -> Option<StepDef> {
    if flows.dom().contains(workflow) {
        let steps = flows[workflow].step_list();
        let i = position_of(steps, step);
        if i < steps.len() {
            Some(steps[i].1)
        } else {
            None
        }
    } else {
        None
    }
}

/// A step is an action that the herder carries out itself.
pub open spec fn is_action(flows: Map<Seq<char>, WorkflowEngine>, workflow: Seq<char>, step: Seq<char>) -> bool {
    match step_def(flows, workflow, step) {
        Some(def) => def.action is Some,
        None => false,
    }
}

/// The output that a confirmed step left.
pub open spec fn output_of(e: ExecState) -> Seq<char> {
    match e.last_output {
        Some(o) => o,
        None => seq![],
    }
}

/// The state behind the advance of an execution from a confirmed step.
pub open spec fn advanced(
    s: HerderState,
    flows: Map<Seq<char>, WorkflowEngine>,
    id: Seq<char>,
    step: Seq<char>,
) -> (HerderState, ProgressView) {
    let e = s.executions[id];
    if !flows.dom().contains(e.workflow) {
        (s, ProgressView::Unchanged)
    } else {
        let steps = flows[e.workflow].step_list();
        let r = route(steps, step, output_of(e));
        let counted = ExecState { visits: counts_along(r, e.visits), ..e };
        match advance_along(steps, r, e.visits) {
            AdvanceView::Goto(next) => (
                s.put_execution(
                    id,
                    counted.with_phase(
                        PhaseView::Ready {
                            step: next,
                            attempt: if counted.visits.dom().contains(next) {
                                counted.visits[next]
                            } else {
                                1
                            },
                        },
                    ),
                ),
                ProgressView::Changed(
                    Some(RequestView::Advance { execution_id: id, from_step: step, to_step: next }),
                ),
            ),
            AdvanceView::Complete => (
                s.put_execution(id, counted.ended(ExecStatus::Completed)),
                ProgressView::Changed(Some(RequestView::Complete { execution_id: id })),
            ),
            AdvanceView::Escalate => (
                s.put_execution(id, counted.ended(ExecStatus::Escalated)),
                ProgressView::Changed(
                    Some(
                        RequestView::Escalate {
                            execution_id: id,
                            step,
                            reason: "max visits exceeded or wildcard escalation"@,
                        },
                    ),
                ),
            ),
        }
    }
}

/// Where an execution goes whose step has used up its retries.
pub open spec fn exhausted(
    s: HerderState,
    flows: Map<Seq<char>, WorkflowEngine>,
    id: Seq<char>,
    e: ExecState,
    step: Seq<char>,
    on_fail: Option<Seq<char>>,
) -> (HerderState, ProgressView) {
    if on_fail is None || on_fail == Some("escalate"@) {
        (
            s.put_execution(id, e.ended(ExecStatus::Escalated)),
            ProgressView::Changed(
                Some(RequestView::Escalate { execution_id: id, step, reason: "retries exhausted"@ }),
            ),
        )
    } else {
        let goto = on_fail->0;
        let count = visits(e.visits, goto) + 1;
        let counted = ExecState { visits: e.visits.insert(goto, count as u32), ..e };
        let full = match step_def(flows, e.workflow, goto) {
            Some(def) => def.max_visits is Some && count > def.max_visits->0,
            None => false,
        };
        if !full {
            (
                s.put_execution(id, counted.with_phase(PhaseView::Ready { step: goto, attempt: 1 })),
                ProgressView::Changed(None),
            )
        } else {
            match text_option(step_def(flows, e.workflow, goto)->0.max_visits_goto) {
                Some(fallback) => (
                    s.put_execution(id, counted.with_phase(PhaseView::Ready { step: fallback, attempt: 1 })),
                    ProgressView::Changed(None),
                ),
                None => (
                    s.put_execution(id, counted.ended(ExecStatus::Escalated)),
                    ProgressView::Changed(
                        Some(
                            RequestView::Escalate {
                                execution_id: id,
                                step: goto,
                                reason: "on_fail target exceeded max_visits"@,
                            },
                        ),
                    ),
                ),
            }
        }
    }
}

/// The state behind the failure of a step: a retry, or what the step names for the
/// case that its retries are used up.
pub open spec fn failed(
    s: HerderState,
    flows: Map<Seq<char>, WorkflowEngine>,
    id: Seq<char>,
    step: Seq<char>,
) -> (HerderState, ProgressView) {
    let e = s.executions[id];
    match step_def(flows, e.workflow, step) {
        None => (s, ProgressView::Unchanged),
        Some(def) => {
            let recorded = ExecState {
                retry: e.retry.after_failure(step, e.force_escalate),
                force_escalate: false,
                ..e
            };
            match e.retry.decision(step, def.max_retries, e.force_escalate) {
                RetryDecision::Retry { attempt } => (
                    s.put_execution(id, recorded.with_phase(PhaseView::Ready { step, attempt })),
                    ProgressView::Changed(None),
                ),
                RetryDecision::Exhausted => exhausted(s, flows, id, recorded, step, text_option(def.on_fail)),
            }
        },
    }
}

/// A text with `{name}` replaced by its value for each variable, one after the other.
pub open spec fn substituted(raw: Seq<char>, vars: Seq<(String, String)>) -> Seq<char>
    decreases vars.len(),
{
    if vars.len() == 0 {
        raw
    } else {
        replace_spec(substituted(raw, vars.drop_last()), "{"@ + vars.last().0@ + "}"@, vars.last().1@)
    }
}

/// The branch that an action step works on, before variables are filled in.
pub open spec fn raw_branch(def: StepDef) -> Seq<char> {
    match def.workspace {
        Some(w) => match w.branch {
            Some(b) => b@,
            None => "main"@,
        },
        None => "main"@,
    }
}

/// The state behind an action step, and what it asks for.
pub open spec fn acted(
    s: HerderState,
    flows: Map<Seq<char>, WorkflowEngine>,
    id: Seq<char>,
    vars: Seq<(String, String)>,
    step: Seq<char>,
    attempt: u32,
) -> (HerderState, ProgressView) {
    let e = s.executions[id];
    let def = step_def(flows, e.workflow, step)->0;
    let action = def.action->0@;
    if action == "merge_to_main"@ {
        (
            s,
            ProgressView::Merge(
                MergeView {
                    execution_id: id,
                    step,
                    attempt,
                    branch: substituted(raw_branch(def), vars),
                    squash: def.squash,
                },
            ),
        )
    } else {
        let error = "unknown action: "@ + action;
        (
            s.put_execution(id, e.with_phase(PhaseView::NeedsFailure { step, error })),
            ProgressView::Changed(Some(RequestView::Fail { execution_id: id, step, attempt, error })),
        )
    }
}

impl HerderState {
    /// The state behind a merge that succeeded: the step counts as confirmed with output
    /// `pass`.
    pub open spec fn merged(self, id: Seq<char>, step: Seq<char>) -> HerderState {
        self.change(
            id,
            ExecState {
                last_output: Some("pass"@),
                retry: RetryView::fresh(),
                phase: PhaseView::NeedsAdvance { step },
                ..self.executions[id]
            },
        )
    }

    /// The state behind a merge that failed: the step failed.
    pub open spec fn unmerged(self, id: Seq<char>, step: Seq<char>, error: Seq<char>) -> HerderState {
        self.change(id, self.executions[id].with_phase(PhaseView::NeedsFailure { step, error }))
    }

    /// The state with the step of an execution in flight.
    pub open spec fn in_flight(self, id: Seq<char>) -> HerderState {
        self.change(id, self.executions[id].with_phase(PhaseView::AwaitingStep))
    }
}

/// The executions that run, in order.
pub open spec fn running_list(order: Seq<Seq<char>>, executions: Map<Seq<char>, ExecState>) -> Seq<Seq<char>> {
    order.filter(|id: Seq<char>| executions[id].status == ExecStatus::Running)
}

/// How many runners a pool has above its target; a target of zero sets no limit.
pub open spec fn surplus(runners: nat, target: nat) -> int {
    if target > 0 {
        runners - target
    } else {
        0
    }
}

/// The wait before the next attempt to reconnect, behind one of so many seconds.
pub open spec fn backoff_behind(secs: nat) -> nat {
    if 2 * secs < 30 {
        2 * secs
    } else {
        30
    }
}

/// The state behind the processing of an execution, and what came of it.
pub open spec fn processed(
    s: HerderState,
    flows: Map<Seq<char>, WorkflowEngine>,
    id: Seq<char>,
    vars: Seq<(String, String)>,
) -> (HerderState, ProgressView) {
    if !s.executions.dom().contains(id) {
        (s, ProgressView::Unchanged)
    } else {
        match s.executions[id].phase {
            PhaseView::NeedsAdvance { step } => advanced(s, flows, id, step),
            PhaseView::NeedsFailure { step, error } => failed(s, flows, id, step),
            PhaseView::Ready { step, attempt } => if is_action(flows, s.executions[id].workflow, step) {
                acted(s, flows, id, vars, step, attempt)
            } else {
                (s, ProgressView::Unchanged)
            },
            PhaseView::AwaitingStep => (s, ProgressView::Unchanged),
            PhaseView::Done => (s, ProgressView::Unchanged),
        }
    }
}

/// The visits and failures that processing an execution counts fit in their counters.
pub open spec fn process_fits(s: HerderState, flows: Map<Seq<char>, WorkflowEngine>, id: Seq<char>) -> bool {
    let e = s.executions[id];
    s.executions.dom().contains(id) ==> match e.phase {
        PhaseView::NeedsAdvance { step } => flows.dom().contains(e.workflow) ==> visit_fits(
            route(flows[e.workflow].step_list(), step, output_of(e)),
            e.visits,
        ),
        PhaseView::NeedsFailure { step, error } => match step_def(flows, e.workflow, step) {
            Some(def) => {
                &&& !e.force_escalate ==> e.retry.failures(step) < u32::MAX
                &&& !e.force_escalate && e.retry.failures(step) < retry_limit(def.max_retries) ==> e.retry.failures(step)
                    + 2 <= u32::MAX
                &&& e.retry.decision(step, def.max_retries, e.force_escalate) == RetryDecision::Exhausted
                    && def.on_fail is Some && def.on_fail->0@ != "escalate"@ ==> visits(e.visits, def.on_fail->0@)
                    < u32::MAX
            },
            None => true,
        },
        _ => true,
    }
}

/// The variables of an execution, in order.
pub open spec fn vars_of(h: Herder, id: Seq<char>) -> Seq<(String, String)> {
    h.executions@[id].vars.list()
}

fn substitute(raw: &str, vars: &StringMap<String>) -> (r: String)
    ensures
        r@ == substituted(raw@, vars.list()),
{
    let mut out = raw.to_owned();
    let ghost all = vars.list();
    let mut i: usize = 0;
    assert(all.take(0) =~= seq![]);
    while i < vars.len()
        invariant
            0 <= i <= all.len(),
            all == vars.list(),
            out@ == substituted(raw@, all.take(i as int)),
        decreases all.len() - i,
    {
        let (k, v) = vars.entry(i);
        let ghost next = all.take(i + 1);
        assert(next.drop_last() =~= all.take(i as int));
        assert(next.last() == (*k, *v));
        let mut from = "{".to_owned();
        from.append(k.as_str());
        from.append("}");
        proof {
            reveal_strlit("{");
        }
        out = replace(out.as_str(), from.as_str(), v.as_str());
        i += 1;
    }
    assert(all.take(i as int) =~= all);
    out
}

impl Herder {
    fn find_step(&self, workflow: &str, step: &str) -> (r: Option<&StepDef>)
        ensures
            match r {
                Some(def) => step_def(self.workflows@, workflow@, step@) == Some(*def),
                None => step_def(self.workflows@, workflow@, step@) is None,
            },
    {
        match self.workflows.get(workflow) {
            Some(engine) => engine.step(step),
            None => None,
        }
    }

    /// Check if a step is an action step (e.g. merge_to_main).
    pub fn is_action_step(&self, exec_id: &str, step: &str) -> (r: bool)
        ensures
            r == (self@.executions.dom().contains(exec_id@) && is_action(
                self.workflows@,
                self@.executions[exec_id@].workflow,
                step@,
            )),
    {
        match self.executions.get(exec_id) {
            Some(e) => match self.find_step(e.workflow.as_str(), step) {
                Some(def) => def.action.is_some(),
                None => false,
            },
            None => false,
        }
    }

    /// Whether what processing an execution counts fits in its counters.
    pub fn can_process(&self, exec_id: &str) -> (r: bool)
        ensures
            r == process_fits(self@, self.workflows@, exec_id@),
    {
        let e = match self.executions.get(exec_id) {
            Some(e) => e,
            None => { return true; },
        };
        match &e.phase {
            ExecPhase::NeedsAdvance { step } => match self.workflows.get(e.workflow.as_str()) {
                Some(engine) => {
                    let output = match &e.last_output {
                        Some(o) => o.clone(),
                        None => String::new(),
                    };
                    assert(output@ =~= output_of(e@));
                    match engine.target_of(step.as_str(), output.as_str()) {
                        Target::Leave(_) => true,
                        Target::Visit(t) => visit_count(&e.visit_counts, t.as_str()) < u32::MAX,
                    }
                },
                None => true,
            },
            ExecPhase::NeedsFailure { step, error: _ } => match self.find_step(e.workflow.as_str(), step.as_str()) {
                Some(def) => {
                    let failures: u32 = e.retry_tracker.failures(step.as_str());
                    let limit: u32 = match def.max_retries {
                        Some(max) => max,
                        None => crate::workflow::DEFAULT_MAX_RETRIES,
                    };
                    let retried = !e.force_escalate && failures < limit;
                    if !e.force_escalate && failures == u32::MAX {
                        return false;
                    }
                    if retried && failures > u32::MAX - 2 {
                        return false;
                    }
                    match &def.on_fail {
                        Some(goto) => retried || same(goto.as_str(), "escalate") || visit_count(
                            &e.visit_counts,
                            goto.as_str(),
                        ) < u32::MAX,
                        None => true,
                    }
                },
                None => true,
            },
            _ => true,
        }
    }

    /// Advance workflow after a step is confirmed.
    fn do_advance(&mut self, exec_id: &str, current_step: &str) -> (r: Progress)
        requires
            old(self)@.executions.dom().contains(exec_id@),
            old(self).workflows@.dom().contains(old(self)@.executions[exec_id@].workflow) ==> visit_fits(
                route(
                    old(self).workflows@[old(self)@.executions[exec_id@].workflow].step_list(),
                    current_step@,
                    output_of(old(self)@.executions[exec_id@]),
                ),
                old(self)@.executions[exec_id@].visits,
            ),
        ensures
            (final(self)@, r@) == advanced(old(self)@, old(self).workflows@, exec_id@, current_step@),
            same_config(*final(self), *old(self)),
    {
        let (workflow, output, mut visit_counts) = match self.executions.get(exec_id) {
            Some(e) => {
                let output = match &e.last_output {
                    Some(o) => o.clone(),
                    None => String::new(),
                };
                assert(output@ =~= output_of(e@));
                let counts = e.visit_counts.clone();
                assert(counts@ =~= e.visit_counts@);
                (e.workflow.clone(), output, counts)
            },
            None => { return Progress::Unchanged; },
        };
        let advance = match self.workflows.get(workflow.as_str()) {
            Some(engine) => engine.next_step(current_step, output.as_str(), &mut visit_counts),
            None => { return Progress::Unchanged; },
        };
        let ghost before = self.executions@;
        let ghost id = exec_id@;
        let mut ended: Option<ExecStatus> = None;
        let mut ready: Option<(String, u32)> = None;
        let request = match advance {
            StepAdvance::Goto(next) => {
                let attempt: u32 = match visit_counts.get(next.as_str()) {
                    Some(n) => *n,
                    None => 1,
                };
                ready = Some((next.clone(), attempt));
                Request::Advance {
                    execution_id: exec_id.to_owned(),
                    from_step: current_step.to_owned(),
                    to_step: next,
                }
            },
            StepAdvance::Complete => {
                ended = Some(ExecStatus::Completed);
                Request::Complete { execution_id: exec_id.to_owned() }
            },
            StepAdvance::Escalate => {
                ended = Some(ExecStatus::Escalated);
                Request::Escalate {
                    execution_id: exec_id.to_owned(),
                    step: current_step.to_owned(),
                    reason: "max visits exceeded or wildcard escalation".to_owned(),
                }
            },
        };
        if let Some(exec) = self.executions.get_mut(exec_id) {
            exec.visit_counts = visit_counts;
            match ready {
                Some((step, attempt)) => {
                    exec.phase = ExecPhase::Ready { step, attempt };
                },
                None => {},
            }
            match ended {
                Some(status) => {
                    exec.status = status;
                    exec.phase = ExecPhase::Done;
                },
                None => {},
            }
        }
        proof {
            lemma_put_execution(before, id, self.executions@[id]);
            assert(self.executions@ =~= before.insert(id, self.executions@[id]));
        }
        Progress::Changed(Some(request))
    }

    /// Handle step failure — retry or escalate.
    fn do_failure(&mut self, exec_id: &str, step: &str) -> (r: Progress)
        requires
            old(self)@.executions.dom().contains(exec_id@),
            old(self)@.executions[exec_id@].phase is NeedsFailure,
            old(self)@.executions[exec_id@].phase->NeedsFailure_step == step@,
            process_fits(old(self)@, old(self).workflows@, exec_id@),
        ensures
            (final(self)@, r@) == failed(old(self)@, old(self).workflows@, exec_id@, step@),
            same_config(*final(self), *old(self)),
    {
        let ghost s0 = self@;
        let ghost e0 = self@.executions[exec_id@];
        let ghost flows = self.workflows@;
        let (max_retries, on_fail, workflow) = match self.executions.get(exec_id) {
            Some(e) => match self.find_step(e.workflow.as_str(), step) {
                Some(def) => (def.max_retries, copy_option(&def.on_fail), e.workflow.clone()),
                None => { return Progress::Unchanged; },
            },
            None => { return Progress::Unchanged; },
        };
        let goto = match &on_fail {
            Some(goto) => if same(goto.as_str(), "escalate") { None } else { Some(goto.clone()) },
            None => None,
        };
        // The limit on visits of the step that failures lead to, and where it leads behind it
        let (max_visits, max_visits_goto): (Option<u32>, Option<String>) = match &goto {
            Some(g) => match self.find_step(workflow.as_str(), g.as_str()) {
                Some(def) => (def.max_visits, copy_option(&def.max_visits_goto)),
                None => (None, None),
            },
            None => (None, None),
        };
        let ghost before = self.executions@;
        let ghost id = exec_id@;
        let mut request: Option<Request> = None;
        if let Some(exec) = self.executions.get_mut(exec_id) {
            let force = exec.force_escalate;
            let decision = exec.retry_tracker.record_failure(step, max_retries, force);
            exec.force_escalate = false;
            match decision {
                RetryDecision::Retry { attempt } => {
                    exec.phase = ExecPhase::Ready { step: step.to_owned(), attempt };
                },
                RetryDecision::Exhausted => match goto {
                    None => {
                        exec.status = ExecStatus::Escalated;
                        exec.phase = ExecPhase::Done;
                        request = Some(
                            Request::Escalate {
                                execution_id: exec_id.to_owned(),
                                step: step.to_owned(),
                                reason: "retries exhausted".to_owned(),
                            },
                        );
                    },
                    Some(goto_step) => {
                        // Check max_visits on the target step before jumping
                        let count: u32 = visit_count(&exec.visit_counts, goto_step.as_str()) + 1;
                        exec.visit_counts.insert(goto_step.clone(), count);
                        let full = match max_visits {
                            Some(max) => count > max,
                            None => false,
                        };
                        if !full {
                            exec.phase = ExecPhase::Ready { step: goto_step, attempt: 1 };
                        } else {
                            match max_visits_goto {
                                Some(fallback) => {
                                    exec.phase = ExecPhase::Ready { step: fallback, attempt: 1 };
                                },
                                None => {
                                    exec.status = ExecStatus::Escalated;
                                    exec.phase = ExecPhase::Done;
                                    request = Some(
                                        Request::Escalate {
                                            execution_id: exec_id.to_owned(),
                                            step: goto_step,
                                            reason: "on_fail target exceeded max_visits".to_owned(),
                                        },
                                    );
                                },
                            }
                        }
                    },
                },
            }
        }
        proof {
            lemma_put_execution(before, id, self.executions@[id]);
            assert(self.executions@ =~= before.insert(id, self.executions@[id]));
        }
        Progress::Changed(request)
    }

    /// Execute an action step (e.g. merge_to_main), or say what it takes to.
    fn do_action_step(&mut self, exec_id: &str, step: &str, attempt: u32) -> (r: Progress)
        requires
            old(self)@.executions.dom().contains(exec_id@),
            is_action(old(self).workflows@, old(self)@.executions[exec_id@].workflow, step@),
        ensures
            (final(self)@, r@) == acted(
                old(self)@,
                old(self).workflows@,
                exec_id@,
                vars_of(*old(self), exec_id@),
                step@,
                attempt,
            ),
            same_config(*final(self), *old(self)),
    {
        let error = match self.executions.get(exec_id) {
            Some(e) => match self.find_step(e.workflow.as_str(), step) {
                Some(def) => match &def.action {
                    Some(action) => if same(action.as_str(), "merge_to_main") {
                        // Resolve branch from workspace spec + execution vars
                        let raw: &str = match &def.workspace {
                            Some(w) => match &w.branch {
                                Some(b) => b.as_str(),
                                None => "main",
                            },
                            None => "main",
                        };
                        return Progress::Merge(
                            MergeRequest {
                                execution_id: exec_id.to_owned(),
                                step: step.to_owned(),
                                attempt,
                                branch: substitute(raw, &e.vars),
                                squash: def.squash,
                            },
                        );
                    } else {
                        cat("unknown action: ", action.as_str())
                    },
                    None => { return Progress::Unchanged; },
                },
                None => { return Progress::Unchanged; },
            },
            None => { return Progress::Unchanged; },
        };
        self.set_phase(exec_id, ExecPhase::NeedsFailure { step: step.to_owned(), error: error.clone() });
        Progress::Changed(
            Some(Request::Fail { execution_id: exec_id.to_owned(), step: step.to_owned(), attempt, error }),
        )
    }

    /// Process a single execution's current phase, and say what came of it.
    pub fn process_execution(&mut self, exec_id: &str) -> (r: Progress)
        requires
            process_fits(old(self)@, old(self).workflows@, exec_id@),
        ensures
            (final(self)@, r@) == processed(
                old(self)@,
                old(self).workflows@,
                exec_id@,
                vars_of(*old(self), exec_id@),
            ),
            same_config(*final(self), *old(self)),
    {
        let mut advance: Option<String> = None;
        let mut failure: Option<String> = None;
        let mut ready: Option<(String, u32)> = None;
        match self.executions.get(exec_id) {
            Some(e) => match &e.phase {
                ExecPhase::NeedsAdvance { step } => {
                    advance = Some(step.clone());
                },
                ExecPhase::NeedsFailure { step, error: _ } => {
                    failure = Some(step.clone());
                },
                ExecPhase::Ready { step, attempt } => {
                    ready = Some((step.clone(), *attempt));
                },
                // Step in-flight — server will emit runner.heartbeat_missed
                // if the runner dies or stops working on the step.
                ExecPhase::AwaitingStep => {},
                ExecPhase::Done => {},
            },
            None => {},
        }
        if let Some(step) = advance {
            return self.do_advance(exec_id, step.as_str());
        }
        if let Some(step) = failure {
            return self.do_failure(exec_id, step.as_str());
        }
        if let Some((step, attempt)) = ready {
            // Only process action steps here — runner steps wait for dispatch phase
            if self.is_action_step(exec_id, step.as_str()) {
                return self.do_action_step(exec_id, step.as_str(), attempt);
            }
        }
        Progress::Unchanged
    }

    /// Takes up the success of a merge: the step counts as confirmed with output `pass`.
    pub fn merge_succeeded(&mut self, exec_id: &str, step: &str)
        ensures
            final(self)@ == old(self)@.merged(exec_id@, step@),
            same_config(*final(self), *old(self)),
    {
        let ghost before = self.executions@;
        let ghost id = exec_id@;
        if let Some(exec) = self.executions.get_mut(exec_id) {
            exec.last_output = Some("pass".to_owned());
            exec.retry_tracker.reset();
            exec.phase = ExecPhase::NeedsAdvance { step: step.to_owned() };
        }
        proof {
            if before.dom().contains(id) {
                lemma_put_execution(before, id, self.executions@[id]);
                assert(self.executions@ =~= before.insert(id, self.executions@[id]));
            }
        }
    }

    /// Takes up the failure of a merge: the step failed.
    pub fn merge_failed(&mut self, exec_id: &str, step: &str, error: &str)
        ensures
            final(self)@ == old(self)@.unmerged(exec_id@, step@, error@),
            same_config(*final(self), *old(self)),
    {
        self.set_phase(exec_id, ExecPhase::NeedsFailure { step: step.to_owned(), error: error.to_owned() });
    }

    /// The executions that run, in order.
    pub fn running_executions(&self) -> (r: Vec<String>)
        ensures
            views(r@) == running_list(self@.exec_order, self@.executions),
    {
        let mut out: Vec<String> = Vec::new();
        let ghost order = self.executions.keys();
        let ghost p = |id: Seq<char>| self@.executions[id].status == ExecStatus::Running;
        let mut i: usize = 0;
        assert(views(out@) =~= order.take(0).filter(p)) by {
            reveal(Seq::filter);
        }
        while i < self.executions.len()
            invariant
                0 <= i <= order.len(),
                order == self.executions.keys(),
                p == |id: Seq<char>| self@.executions[id].status == ExecStatus::Running,
                views(out@) == order.take(i as int).filter(p),
            decreases order.len() - i,
        {
            let (id, e) = self.executions.entry(i);
            let ghost before = views(out@);
            let ghost next = order.take(i + 1);
            assert(next.drop_last() =~= order.take(i as int));
            assert(next.last() == id@);
            assert(self@.executions[id@] == e@);
            proof {
                reveal(Seq::filter);
            }
            if e.status == ExecStatus::Running {
                out.push(id.clone());
                assert(views(out@) =~= before.push(id@));
            }
            i += 1;
        }
        assert(order.take(i as int) =~= order);
        out
    }
}

// ── Dispatch ───────────────────────────────────────────────────────

/// An execution that is ready for a step on a runner.
#[derive(Debug)]
pub struct ReadyStep {
    pub execution_id: String,
    pub step: String,
    pub attempt: u32,
    pub vars: StringMap<String>,
}

/// What a ready step is.
pub struct ReadyView {
    pub execution_id: Seq<char>,
    pub step: Seq<char>,
    pub attempt: u32,
    pub vars: Map<Seq<char>, Seq<char>>,
}

impl View for ReadyStep {
    type V = ReadyView;

    open spec fn view(&self) -> ReadyView {
        ReadyView {
            execution_id: self.execution_id@,
            step: self.step@,
            attempt: self.attempt,
            vars: self.vars.texts(),
        }
    }
}

/// The step that an execution is ready for on a runner.
pub open spec fn ready_for(
    flows: Map<Seq<char>, WorkflowEngine>,
    id: Seq<char>,
    e: ExecState,
) -> Option<ReadyView> {
    match e.phase {
        PhaseView::Ready { step, attempt } => if e.status == ExecStatus::Running && !is_action(
            flows,
            e.workflow,
            step,
        ) {
            Some(ReadyView { execution_id: id, step, attempt, vars: e.vars })
        } else {
            None
        },
        _ => None,
    }
}

/// The ready steps of executions, in order.
pub open spec fn ready_list(
    flows: Map<Seq<char>, WorkflowEngine>,
    order: Seq<Seq<char>>,
    executions: Map<Seq<char>, ExecState>,
) -> Seq<ReadyView>
    decreases order.len(),
{
    if order.len() == 0 {
        seq![]
    } else {
        let head = ready_list(flows, order.drop_last(), executions);
        match ready_for(flows, order.last(), executions[order.last()]) {
            Some(r) => head.push(r),
            None => head,
        }
    }
}

/// The persona of a step: its own, else that of its workflow.
pub open spec fn persona_of(flows: Map<Seq<char>, WorkflowEngine>, workflow: Seq<char>, def: StepDef) -> Option<Seq<char>> {
    match def.persona {
        Some(p) => Some(p@),
        None => text_option(flows[workflow].persona),
    }
}

/// The parameters that a ready step is dispatched with.
pub open spec fn dispatch_params(
    p: DispatchStepParams,
    ready: ReadyView,
    runner: Seq<char>,
    flows: Map<Seq<char>, WorkflowEngine>,
    workflow: Option<Seq<char>>,
) -> bool {
    &&& p.execution_id@ == ready.execution_id
    &&& p.step@ == ready.step
    &&& p.runner_id.0@ == runner
    &&& p.attempt == ready.attempt
    &&& p.vars.texts() == ready.vars
    &&& match (match workflow {
        Some(w) => step_def(flows, w, ready.step),
        None => None,
    }) {
        Some(def) => {
            &&& text_option(p.persona) == persona_of(flows, workflow->0, def)
            &&& text_option(p.prompt) == text_option(def.prompt)
            &&& match def.runtime {
                Some(r) => p.runtime is Spec && same_runtime(p.runtime->Spec_0, r),
                None => p.runtime is Null,
            }
            &&& match def.workspace {
                Some(w) => p.workspace == Payload::Spec(w),
                None => p.workspace is Null,
            }
        },
        None => {
            &&& p.persona is None
            &&& p.prompt is None
            &&& p.runtime is Empty
            &&& p.workspace is Empty
        },
    }
}

impl HerderState {
    /// The runner that gets the next step.
    pub open spec fn next_runner(self) -> Option<Seq<char>> {
        match first_idle(self.runner_order, self.runners) {
            Some(k) => Some(self.runners[k].id),
            None => None,
        }
    }

    /// The state with a known runner at work on a step.
    pub open spec fn assigned(self, runner: Seq<char>, execution: Seq<char>, step: Seq<char>) -> HerderState {
        if self.runners.dom().contains(runner) {
            self.put_runner(runner, self.runners[runner].working(execution, step))
        } else {
            self
        }
    }

    /// The state with a known runner without work.
    pub open spec fn released(self, runner: Seq<char>) -> HerderState {
        if self.runners.dom().contains(runner) {
            self.put_runner(runner, RunnerState::waiting(self.runners[runner].id))
        } else {
            self
        }
    }
}

/// The workflow of an execution.
pub open spec fn workflow_of(s: HerderState, id: Seq<char>) -> Option<Seq<char>> {
    if s.executions.dom().contains(id) {
        Some(s.executions[id].workflow)
    } else {
        None
    }
}

impl Herder {
    /// Collect all executions that are ready for a runner step.
    pub fn ready_steps(&self) -> (r: Vec<ReadyStep>)
        ensures
            r@.map_values(|x: ReadyStep| x@) == ready_list(self.workflows@, self@.exec_order, self@.executions),
    {
        let mut out: Vec<ReadyStep> = Vec::new();
        let ghost order = self.executions.keys();
        let ghost flows = self.workflows@;
        let ghost states = self@.executions;
        let mut i: usize = 0;
        assert(order.take(0) =~= seq![]);
        assert(out@.map_values(|x: ReadyStep| x@) =~= seq![]);
        while i < self.executions.len()
            invariant
                0 <= i <= order.len(),
                order == self.executions.keys(),
                flows == self.workflows@,
                states == self@.executions,
                out@.map_values(|x: ReadyStep| x@) == ready_list(flows, order.take(i as int), states),
            decreases order.len() - i,
        {
            let (id, e) = self.executions.entry(i);
            let ghost before = out@.map_values(|x: ReadyStep| x@);
            let ghost next = order.take(i + 1);
            assert(next.drop_last() =~= order.take(i as int));
            assert(next.last() == id@);
            assert(states[id@] == e@);
            if e.status == ExecStatus::Running {
                if let ExecPhase::Ready { step, attempt } = &e.phase {
                    if !self.is_action_step(id.as_str(), step.as_str()) {
                        let item = ReadyStep {
                            execution_id: id.clone(),
                            step: step.clone(),
                            attempt: *attempt,
                            vars: e.vars.duplicate(),
                        };
                        out.push(item);
                        assert(out@.map_values(|x: ReadyStep| x@) =~= before.push(item@));
                    }
                }
            }
            i += 1;
        }
        assert(order.take(i as int) =~= order);
        out
    }

    fn params_for(&self, ready: &ReadyStep, runner_id: RunnerId) -> (p: DispatchStepParams)
        ensures
            dispatch_params(p, ready@, runner_id.0@, self.workflows@, workflow_of(self@, ready.execution_id@)),
    {
        let mut persona: Option<String> = None;
        let mut prompt: Option<String> = None;
        let mut runtime: Payload<crate::workflow::RuntimeSpec> = Payload::Empty;
        let mut workspace: Payload<crate::workflow::WorkspaceDef> = Payload::Empty;
        // Look up persona, prompt, runtime, and workspace from workflow
        if let Some(e) = self.executions.get(ready.execution_id.as_str()) {
            if let Some(engine) = self.workflows.get(e.workflow.as_str()) {
                if let Some(def) = engine.step(ready.step.as_str()) {
                    // Resolve persona: step-level overrides workflow-level
                    persona = match &def.persona {
                        Some(p) => Some(p.clone()),
                        None => copy_option(&engine.persona),
                    };
                    prompt = copy_option(&def.prompt);
                    runtime = match &def.runtime {
                        Some(r) => Payload::Spec(r.clone()),
                        None => Payload::Null,
                    };
                    workspace = match &def.workspace {
                        Some(w) => Payload::Spec(w.clone()),
                        None => Payload::Null,
                    };
                }
            }
        }
        DispatchStepParams {
            execution_id: ready.execution_id.clone(),
            step: ready.step.clone(),
            runner_id,
            attempt: ready.attempt,
            vars: ready.vars.duplicate(),
            persona,
            prompt,
            runtime,
            workspace,
        }
    }

    /// Gives a ready step to an idle runner, and says how to dispatch it there. Without
    /// an idle runner nothing happens.
    pub fn assign(&mut self, ready: &ReadyStep) -> (r: Option<DispatchStepParams>)
        ensures
            match r {
                Some(p) => {
                    &&& old(self)@.next_runner() is Some
                    &&& dispatch_params(
                        p,
                        ready@,
                        old(self)@.next_runner()->0,
                        old(self).workflows@,
                        workflow_of(old(self)@, ready.execution_id@),
                    )
                    &&& final(self)@ == old(self)@.assigned(
                        old(self)@.next_runner()->0,
                        ready.execution_id@,
                        ready.step@,
                    )
                },
                None => old(self)@.next_runner() is None && final(self)@ == old(self)@,
            },
            same_config(*final(self), *old(self)),
    {
        let runner_id = match self.find_idle_runner() {
            Some(r) => r,
            None => { return None; },
        };
        let ghost before = self.runners@;
        let ghost key = runner_id.0@;
        let params = self.params_for(ready, runner_id.clone());
        // Mark runner as busy immediately
        if let Some(runner) = self.runners.get_mut(runner_id.0.as_str()) {
            runner.start(ready.execution_id.as_str(), ready.step.as_str());
        }
        proof {
            if before.dom().contains(key) {
                lemma_put_runner(before, key, self.runners@[key]);
                assert(self.runners@ =~= before.insert(key, self.runners@[key]));
            }
        }
        Some(params)
    }

    /// Takes up the success of a dispatch: the step is in flight, so that it is not
    /// dispatched again before `step.dispatched` arrives.
    pub fn dispatch_succeeded(&mut self, exec_id: &str)
        ensures
            final(self)@ == old(self)@.in_flight(exec_id@),
            same_config(*final(self), *old(self)),
    {
        self.set_phase(exec_id, ExecPhase::AwaitingStep);
    }

    /// Takes up the failure of a dispatch: the runner is idle again.
    pub fn dispatch_failed(&mut self, runner_id: &RunnerId)
        ensures
            final(self)@ == old(self)@.released(runner_id.0@),
            same_config(*final(self), *old(self)),
    {
        let ghost before = self.runners@;
        let ghost key = runner_id.0@;
        if let Some(runner) = self.runners.get_mut(runner_id.0.as_str()) {
            runner.release();
        }
        proof {
            if before.dom().contains(key) {
                lemma_put_runner(before, key, self.runners@[key]);
                assert(self.runners@ =~= before.insert(key, self.runners@[key]));
            }
        }
    }

    /// The runners to drain: as many idle ones, in order, as there are runners above the
    /// target of the pool. A target of zero sets no limit.
    pub fn surplus_runners(&self) -> (r: Vec<RunnerId>)
        ensures
            r@.map_values(|x: RunnerId| x.0@) == idle_ids(
                self@.runner_order,
                self@.runners,
                surplus(self@.runner_order.len(), self.pool_target as nat),
            ),
    {
        let mut out: Vec<RunnerId> = Vec::new();
        let ghost order = self.runners.keys();
        let ghost states = self@.runners;
        let active: usize = self.runners.len();
        let surplus: usize = if self.pool_target > 0 && active > self.pool_target {
            active - self.pool_target
        } else {
            0
        };
        let mut i: usize = 0;
        assert(order.take(0) =~= seq![]);
        assert(out@.map_values(|x: RunnerId| x.0@) =~= seq![]);
        while i < self.runners.len()
            invariant
                0 <= i <= order.len(),
                order == self.runners.keys(),
                states == self@.runners,
                out@.map_values(|x: RunnerId| x.0@) == idle_ids(order.take(i as int), states, surplus as int),
            decreases order.len() - i,
        {
            let (id, runner) = self.runners.entry(i);
            let ghost before = out@.map_values(|x: RunnerId| x.0@);
            let ghost next = order.take(i + 1);
            assert(next.drop_last() =~= order.take(i as int));
            assert(next.last() == id@);
            assert(states[id@] == runner@);
            assert(before.len() == out@.len());
            if out.len() < surplus && runner.idle {
                let r = runner.id.clone();
                out.push(r);
                assert(out@.map_values(|x: RunnerId| x.0@) =~= before.push(r.0@));
            }
            i += 1;
        }
        assert(order.take(i as int) =~= order);
        proof {
            lemma_idle_ids(order, states, self@.runner_order.len() - self.pool_target);
        }
        out
    }

    /// Takes up a configuration: its triggers in place of the old ones, its workflows
    /// over the old ones.
    pub fn load_workflows(&mut self, triggers: Vec<TriggerDef>, defs: Vec<WorkflowDef>)
        ensures
            final(self)@ == old(self)@,
            final(self).pool_target == old(self).pool_target,
            final(self).triggers == triggers,
            workflows_loaded(old(self).workflows@, defs@, final(self).workflows@),
    {
        self.triggers = triggers;
        let mut rest = defs;
        let ghost all = rest@;
        let ghost mut done: int = 0;
        assert(all.skip(0) =~= all);
        assert(all.take(0) =~= seq![]);
        while rest.len() > 0
            invariant
                0 <= done <= all.len(),
                rest@ == all.skip(done),
                self@ == old(self)@,
                self.pool_target == old(self).pool_target,
                self.triggers == triggers,
                forall|name: Seq<char>| #[trigger]
                    self.workflows@.dom().contains(name) <==> old(self).workflows@.dom().contains(name) || last_named(
                        all.take(done),
                        name,
                    ) >= 0,
                forall|name: Seq<char>| #[trigger]
                    self.workflows@.dom().contains(name) && last_named(all.take(done), name) < 0
                        ==> self.workflows@[name] == old(self).workflows@[name],
                forall|name: Seq<char>| #[trigger]
                    self.workflows@.dom().contains(name) && last_named(all.take(done), name) >= 0 ==> engine_of(
                        self.workflows@[name],
                        all[last_named(all.take(done), name)],
                    ) && last_named(all.take(done), name) < done,
            decreases rest@.len(),
        {
            let def = rest.remove(0);
            let ghost next = all.take(done + 1);
            assert(rest@ =~= all.skip(done + 1));
            assert(next.drop_last() =~= all.take(done));
            assert(next.last() == def);
            let name = def.name.clone();
            let engine = WorkflowEngine::from_def(def);
            self.workflows.insert(name, engine);
            proof {
                done = done + 1;
            }
        }
        assert(all.take(done) =~= all);
    }
}

/// Definitions are taken up over the workflows that were known.
pub open spec fn workflows_loaded(
    before: Map<Seq<char>, WorkflowEngine>,
    defs: Seq<WorkflowDef>,
    after: Map<Seq<char>, WorkflowEngine>,
) -> bool {
    &&& forall|name: Seq<char>| #[trigger]
        after.dom().contains(name) <==> before.dom().contains(name) || last_named(defs, name) >= 0
    &&& forall|name: Seq<char>| #[trigger]
        after.dom().contains(name) && last_named(defs, name) < 0 ==> after[name] == before[name]
    &&& forall|name: Seq<char>| #[trigger]
        after.dom().contains(name) && last_named(defs, name) >= 0 ==> engine_of(
            after[name],
            defs[last_named(defs, name)],
        )
}

/// The last definition with a name; minus one where there is none.
pub open spec fn last_named(defs: Seq<WorkflowDef>, name: Seq<char>) -> int
    decreases defs.len(),
{
    if defs.len() == 0 {
        -1
    } else if defs.last().name@ == name {
        defs.len() - 1
    } else {
        last_named(defs.drop_last(), name)
    }
}

/// A step graph stands for a definition.
pub open spec fn engine_of(engine: WorkflowEngine, def: WorkflowDef) -> bool {
    &&& engine.name == def.name
    &&& engine.persona == def.persona
    &&& engine.skills == def.skills
    &&& engine.vars == def.vars
    &&& engine.step_list() == crate::workflow::steps_by_name(def.steps@)
}

/// The ids of idle runners, in order, up to a number.
pub open spec fn idle_ids(order: Seq<Seq<char>>, runners: Map<Seq<char>, RunnerState>, limit: int) -> Seq<Seq<char>>
    decreases order.len(),
{
    if order.len() == 0 {
        seq![]
    } else {
        let head = idle_ids(order.drop_last(), runners, limit);
        if head.len() < limit && runners[order.last()].idle {
            head.push(runners[order.last()].id)
        } else {
            head
        }
    }
}

proof fn lemma_idle_ids(order: Seq<Seq<char>>, runners: Map<Seq<char>, RunnerState>, limit: int)
    ensures
        limit <= 0 ==> idle_ids(order, runners, limit) == idle_ids(order, runners, 0),
        limit <= 0 ==> idle_ids(order, runners, limit).len() == 0,
    decreases order.len(),
{
    if order.len() > 0 {
        lemma_idle_ids(order.drop_last(), runners, limit);
        lemma_idle_ids(order.drop_last(), runners, 0);
    }
}

// ── The event stream ───────────────────────────────────────────────

/// The wait before the next attempt to reconnect: twice the last one, up to 30 seconds.
pub fn next_backoff(secs: u64) -> (r: u64)
    ensures
        r == backoff_behind(secs as nat),
{
    if secs < 15 {
        secs * 2
    } else {
        30
    }
}

/// The URL of the event stream behind an event.
pub fn stream_url(server_url: &str, last_event_id: u64) -> (r: String)
    ensures
        r@ == trim_end_char_spec(server_url@, '/') + "/api/events/stream?last_event_id="@ + dec(last_event_id as nat),
{
    let mut url = trim_end_char(server_url, '/');
    url.append("/api/events/stream?last_event_id=");
    url.append(dec_u64(last_event_id).as_str());
    url
}

// ── Laws ───────────────────────────────────────────────────────────

/// Processing keeps the state consistent, and changes no execution but the one that is
/// processed.
pub proof fn processing_keeps_the_state_consistent(
    s: HerderState,
    flows: Map<Seq<char>, WorkflowEngine>,
    id: Seq<char>,
    vars: Seq<(String, String)>,
    other: Seq<char>,
)
    requires
        s.consistent(),
        s.executions.dom().contains(id) ==> s.executions[id].status == ExecStatus::Running,
    ensures
        processed(s, flows, id, vars).0.consistent(),
        processed(s, flows, id, vars).0.runners == s.runners,
        other != id ==> processed(s, flows, id, vars).0.executions.dom().contains(other)
            == s.executions.dom().contains(other),
        other != id && s.executions.dom().contains(other) ==> processed(s, flows, id, vars).0.executions[other]
            == s.executions[other],
{
}

/// Where processing reports a change, the execution is in another phase: it never
/// reports a change of nothing.
pub proof fn reported_changes_are_changes(
    s: HerderState,
    flows: Map<Seq<char>, WorkflowEngine>,
    id: Seq<char>,
    vars: Seq<(String, String)>,
)
    ensures
        processed(s, flows, id, vars).1 is Changed ==> s.executions.dom().contains(id) && processed(
            s,
            flows,
            id,
            vars,
        ).0.executions[id].phase != s.executions[id].phase,
        !(processed(s, flows, id, vars).1 is Changed) ==> processed(s, flows, id, vars).0 == s,
{
}

/// The request that comes of processing an execution, if there is one.
pub open spec fn request_of(p: ProgressView) -> Seq<RequestView> {
    match p {
        ProgressView::Changed(Some(r)) => seq![r],
        _ => seq![],
    }
}

/// The state behind events that an execution is processed after, one by one, and the
/// requests that came of it.
pub open spec fn worked(
    s: HerderState,
    flows: Map<Seq<char>, WorkflowEngine>,
    id: Seq<char>,
    vars: Seq<(String, String)>,
    evs: Seq<(u64, HerderEvent)>,
) -> (HerderState, Seq<RequestView>)
    decreases evs.len(),
{
    if evs.len() == 0 {
        (s, seq![])
    } else {
        let (before, requests) = worked(s, flows, id, vars, evs.drop_last());
        let (after, p) = processed(before.after(flows, evs.last().0, evs.last().1), flows, id, vars);
        (after, requests + request_of(p))
    }
}

/// An event says that a step of an execution failed.
pub open spec fn fails_step(ev: HerderEvent, id: Seq<char>, step: Seq<char>) -> bool {
    match ev {
        HerderEvent::StepFailed(d) => d.execution_id.0@ == id && d.step@ == step,
        _ => false,
    }
}

/// An event says that a step of an execution was dispatched.
pub open spec fn dispatches_step(ev: HerderEvent, id: Seq<char>, step: Seq<char>) -> bool {
    match ev {
        HerderEvent::StepDispatched(d) => d.execution_id.0@ == id && d.step@ == step,
        _ => false,
    }
}

/// The failures of a step among events.
pub open spec fn failure_count(evs: Seq<(u64, HerderEvent)>, id: Seq<char>, step: Seq<char>) -> nat
    decreases evs.len(),
{
    if evs.len() == 0 {
        0
    } else {
        failure_count(evs.drop_last(), id, step) + (if fails_step(evs.last().1, id, step) {
            1nat
        } else {
            0nat
        })
    }
}

/// A step that keeps failing is retried until its retries are used up, and is escalated
/// once. While it is dispatched and fails, and nothing else befalls its execution, each
/// failure within the limit makes the next attempt ready and asks the server for nothing.
/// The first one beyond it ends the execution and asks for one escalation, and whatever
/// follows asks for no other.
pub proof fn repeated_failures_escalate_once(
    s: HerderState,
    flows: Map<Seq<char>, WorkflowEngine>,
    id: Seq<char>,
    vars: Seq<(String, String)>,
    step: Seq<char>,
    evs: Seq<(u64, HerderEvent)>,
)
    requires
        s.executions.dom().contains(id),
        s.executions[id].status == ExecStatus::Running,
        s.executions[id].retry.failures(step) == 0,
        !s.executions[id].force_escalate,
        step_def(flows, s.executions[id].workflow, step) is Some,
        match text_option(step_def(flows, s.executions[id].workflow, step)->0.on_fail) {
            Some(target) => target == "escalate"@,
            None => true,
        },
        forall|i: int|
            0 <= i < evs.len() ==> fails_step((#[trigger] evs[i]).1, id, step) || dispatches_step(evs[i].1, id, step),
        evs.len() < u32::MAX,
    ensures
        ({
            let limit = retry_limit(step_def(flows, s.executions[id].workflow, step)->0.max_retries);
            let k = failure_count(evs, id, step);
            let (after, requests) = worked(s, flows, id, vars, evs);
            let e = after.executions[id];
            &&& after.executions.dom().contains(id)
            &&& e.workflow == s.executions[id].workflow
            &&& k <= limit ==> {
                &&& e.status == ExecStatus::Running
                &&& e.retry.failures(step) == k
                &&& !e.force_escalate
                &&& evs.len() > 0 ==> e.phase == (if fails_step(evs.last().1, id, step) {
                    PhaseView::Ready { step, attempt: (k + 1) as u32 }
                } else {
                    PhaseView::AwaitingStep
                })
                &&& requests.len() == 0
            }
            &&& k > limit ==> {
                &&& e.status == ExecStatus::Escalated
                &&& e.phase == PhaseView::Done
                &&& requests == seq![
                    RequestView::Escalate { execution_id: id, step, reason: "retries exhausted"@ },
                ]
            }
        }),
        failure_count(evs, id, step) <= evs.len(),
    decreases evs.len(),
{
    if evs.len() > 0 {
        let front = evs.drop_last();
        assert forall|i: int| 0 <= i < front.len() implies fails_step((#[trigger] front[i]).1, id, step)
            || dispatches_step(front[i].1, id, step) by {
            assert(front[i] == evs[i]);
        }
        repeated_failures_escalate_once(s, flows, id, vars, step, front);
        let last = evs.last();
        assert(last == evs[evs.len() - 1]);
        let (before, requests) = worked(s, flows, id, vars, front);
        let told = before.after(flows, last.0, last.1);
        let (after, p) = processed(told, flows, id, vars);
        assert(worked(s, flows, id, vars, evs).1 == requests + request_of(p));
        assert(told.executions.dom().contains(id));
    }
}

/// Taking up how a merge or a dispatch went keeps the state consistent: a running execution
/// goes into another phase, and runners are assigned and released.
pub proof fn outcomes_keep_the_state_consistent(
    s: HerderState,
    id: Seq<char>,
    phase: PhaseView,
    runner: Seq<char>,
    step: Seq<char>,
)
    requires
        s.consistent(),
        s.executions.dom().contains(id) ==> s.executions[id].status == ExecStatus::Running,
    ensures
        s.change(id, s.executions[id].with_phase(phase)).consistent(),
        s.assigned(runner, id, step).consistent(),
        s.released(runner).consistent(),
{
    if s.runners.dom().contains(runner) {
        lemma_runners_stay_consistent(s, runner, s.runners[runner].working(id, step), id, step);
        lemma_runners_stay_consistent(s, runner, RunnerState::waiting(runner), id, step);
    }
}

/// A step goes to a runner that was idle, and leaves that runner busy with it, the
/// others as they were.
pub proof fn work_goes_to_idle_runners_only(
    s: HerderState,
    execution: Seq<char>,
    step: Seq<char>,
    other: Seq<char>,
)
    requires
        s.consistent(),
        s.next_runner() is Some,
    ensures
        ({
            let runner = s.next_runner()->0;
            let t = s.assigned(runner, execution, step);
            &&& s.runners.dom().contains(runner)
            &&& s.runners[runner].idle
            &&& t.consistent()
            &&& !t.runners[runner].idle
            &&& t.runners[runner].works_on(execution, step)
            &&& other != runner && s.runners.dom().contains(other) ==> t.runners.dom().contains(other)
                && t.runners[other] == s.runners[other]
            &&& t.executions == s.executions
        }),
{
    lemma_first_idle(s.runner_order, s.runners);
    let runner = s.next_runner()->0;
    lemma_runners_stay_consistent(s, runner, s.runners[runner].working(execution, step), execution, step);
}

proof fn lemma_first_idle(order: Seq<Seq<char>>, runners: Map<Seq<char>, RunnerState>)
    ensures
        first_idle(order, runners) is Some ==> order.contains(first_idle(order, runners)->0) && runners[first_idle(
            order,
            runners,
        )->0].idle,
        first_idle(order, runners) is None ==> forall|i: int| 0 <= i < order.len() ==> !runners[#[trigger] order[i]].idle,
    decreases order.len(),
{
    if order.len() > 0 {
        lemma_first_idle(order.skip(1), runners);
        if runners[order[0]].idle {
            assert(order.contains(order[0]));
        } else {
            match first_idle(order.skip(1), runners) {
                Some(k) => {
                    let i = order.skip(1).index_of(k);
                    assert(order[i + 1] == k);
                },
                None => {
                    assert forall|i: int| 0 <= i < order.len() implies !runners[#[trigger] order[i]].idle by {
                        if i > 0 {
                            assert(order.skip(1)[i - 1] == order[i]);
                        }
                    }
                },
            }
        }
    }
}

/// A dispatch that fails leaves runners and executions as they were before it.
pub proof fn failed_dispatch_changes_nothing(s: HerderState, execution: Seq<char>, step: Seq<char>, runner: Seq<char>)
    requires
        s.consistent(),
        s.runners.dom().contains(runner),
        s.runners[runner].idle,
    ensures
        s.assigned(runner, execution, step).released(runner) == s,
{
    let t = s.assigned(runner, execution, step).released(runner);
    assert(t.runners =~= s.runners);
}

/// Draining never takes the pool below its target, and takes idle runners only.
pub proof fn draining_keeps_the_target(
    order: Seq<Seq<char>>,
    runners: Map<Seq<char>, RunnerState>,
    target: nat,
    id: Seq<char>,
)
    requires
        target > 0,
    ensures
        order.len() >= target ==> order.len() - idle_ids(order, runners, order.len() - target).len() >= target,
        order.len() <= target ==> idle_ids(order, runners, order.len() - target).len() == 0,
        idle_ids(order, runners, order.len() - target).contains(id) ==> exists|i: int|
            0 <= i < order.len() && runners[#[trigger] order[i]].idle && runners[order[i]].id == id,
{
    lemma_idle_bound(order, runners, order.len() - target, id);
}

proof fn lemma_idle_bound(order: Seq<Seq<char>>, runners: Map<Seq<char>, RunnerState>, limit: int, id: Seq<char>)
    ensures
        idle_ids(order, runners, limit).len() <= (if limit < 0 {
            0
        } else {
            limit
        }),
        idle_ids(order, runners, limit).contains(id) ==> exists|i: int|
            0 <= i < order.len() && runners[#[trigger] order[i]].idle && runners[order[i]].id == id,
    decreases order.len(),
{
    if order.len() > 0 {
        let front = order.drop_last();
        lemma_idle_bound(front, runners, limit, id);
        let head = idle_ids(front, runners, limit);
        let all = idle_ids(order, runners, limit);
        if all.contains(id) {
            if head.contains(id) {
                let i = choose|i: int|
                    0 <= i < front.len() && runners[#[trigger] front[i]].idle && runners[front[i]].id == id;
                assert(order[i] == front[i]);
            } else {
                let j = all.index_of(id);
                if j < head.len() {
                    assert(head[j] == id);
                }
                assert(order[order.len() - 1] == order.last());
            }
        }
    }
}

/// A step is dispatched with its own persona where it declares one, whatever its workflow
/// declares, and with that of its workflow where it declares none. Its prompt, runtime and
/// workspace are those that it declares.
pub proof fn step_personas_override_workflow_personas(
    p: DispatchStepParams,
    ready: ReadyView,
    runner: Seq<char>,
    flows: Map<Seq<char>, WorkflowEngine>,
    workflow: Seq<char>,
    i: int,
)
    requires
        dispatch_params(p, ready, runner, flows, Some(workflow)),
        flows.dom().contains(workflow),
        0 <= i < flows[workflow].step_list().len(),
        flows[workflow].step_list()[i].0 == ready.step,
        forall|j: int| 0 <= j < i ==> (#[trigger] flows[workflow].step_list()[j]).0 != ready.step,
    ensures
        ({
            let def = flows[workflow].step_list()[i].1;
            &&& def.persona is Some ==> p.persona is Some && p.persona->0@ == def.persona->0@
            &&& def.persona is None && flows[workflow].persona is Some ==> p.persona is Some && p.persona->0@
                == flows[workflow].persona->0@
            &&& def.persona is None && flows[workflow].persona is None ==> p.persona is None
            &&& def.prompt is Some ==> p.prompt is Some && p.prompt->0@ == def.prompt->0@
            &&& def.prompt is None ==> p.prompt is None
            &&& def.runtime is Some ==> p.runtime is Spec && same_runtime(p.runtime->Spec_0, def.runtime->0)
            &&& def.runtime is None ==> p.runtime is Null
            &&& def.workspace is Some ==> p.workspace == Payload::Spec(def.workspace->0)
            &&& def.workspace is None ==> p.workspace is Null
        }),
{
    lemma_position(flows[workflow].step_list(), ready.step);
    let at = position_of(flows[workflow].step_list(), ready.step);
    if at < i {
        assert(flows[workflow].step_list()[at].0 != ready.step);
    }
    assert(step_def(flows, workflow, ready.step) == Some(flows[workflow].step_list()[i].1));
    let def = flows[workflow].step_list()[i].1;
    assert(text_option(p.prompt) == text_option(def.prompt));
}

/// A dispatch says which step of which execution goes to which runner, as which attempt and
/// with which variables. Of a step that no workflow has, it says nothing more.
pub proof fn dispatches_carry_the_ready_step(
    p: DispatchStepParams,
    ready: ReadyView,
    runner: Seq<char>,
    flows: Map<Seq<char>, WorkflowEngine>,
    workflow: Option<Seq<char>>,
)
    requires
        dispatch_params(p, ready, runner, flows, workflow),
    ensures
        p.execution_id@ == ready.execution_id,
        p.step@ == ready.step,
        p.runner_id.0@ == runner,
        p.attempt == ready.attempt,
        p.vars.texts() == ready.vars,
        workflow is None || !flows.dom().contains(workflow->0) || (forall|j: int|
            0 <= j < flows[workflow->0].step_list().len() ==> (#[trigger] flows[workflow->0].step_list()[j]).0
                != ready.step) ==> p.persona is None && p.prompt is None && p.runtime is Empty && p.workspace is Empty,
{
    if workflow is Some && flows.dom().contains(workflow->0) {
        lemma_position(flows[workflow->0].step_list(), ready.step);
    }
}

/// A running execution that is ready for a step which is no action waits for a runner,
/// and no other execution does. Executions wait in their order, each with its own step,
/// attempt and variables.
pub proof fn ready_executions_wait_for_runners(
    flows: Map<Seq<char>, WorkflowEngine>,
    order: Seq<Seq<char>>,
    executions: Map<Seq<char>, ExecState>,
    more: Seq<char>,
)
    ensures
        ({
            let e = executions[more];
            let before = ready_list(flows, order, executions);
            let after = ready_list(flows, order.push(more), executions);
            if e.status == ExecStatus::Running && e.phase is Ready && !is_action(flows, e.workflow, e.phase->Ready_step) {
                &&& after.len() == before.len() + 1
                &&& after.drop_last() == before
                &&& after.last().execution_id == more
                &&& after.last().step == e.phase->Ready_step
                &&& after.last().attempt == e.phase->Ready_attempt
                &&& after.last().vars == e.vars
            } else {
                after == before
            }
        }),
        ready_list(flows, Seq::empty(), executions).len() == 0,
{
    assert(order.push(more).drop_last() =~= order);
    assert(order.push(more).last() == more);
    let before = ready_list(flows, order, executions);
    if let Some(r) = ready_for(flows, more, executions[more]) {
        assert(before.push(r).drop_last() =~= before);
    }
}

/// The next step goes to the first runner, in the order of their registration, that is
/// idle; there is none for it exactly where every runner is busy.
pub proof fn the_first_idle_runner_gets_the_work(s: HerderState, i: int)
    requires
        s.consistent(),
        0 <= i < s.runner_order.len(),
        s.runners[s.runner_order[i]].idle,
        forall|j: int| 0 <= j < i ==> !s.runners[#[trigger] s.runner_order[j]].idle,
    ensures
        s.next_runner() == Some(s.runner_order[i]),
{
    lemma_first_idle_is(s.runner_order, s.runners, i);
    assert(s.runners.dom().contains(s.runner_order[i]));
}

proof fn lemma_first_idle_is(order: Seq<Seq<char>>, runners: Map<Seq<char>, RunnerState>, i: int)
    requires
        0 <= i < order.len(),
        runners[order[i]].idle,
        forall|j: int| 0 <= j < i ==> !runners[#[trigger] order[j]].idle,
    ensures
        first_idle(order, runners) == Some(order[i]),
    decreases order.len(),
{
    if i > 0 {
        let rest = order.skip(1);
        assert(!runners[order[0]].idle);
        assert forall|j: int| 0 <= j < i - 1 implies !runners[#[trigger] rest[j]].idle by {
            assert(rest[j] == order[j + 1]);
        }
        lemma_first_idle_is(rest, runners, i - 1);
    }
}

/// Without an idle runner no step is given out.
pub proof fn busy_runners_get_no_work(s: HerderState)
    requires
        forall|j: int| 0 <= j < s.runner_order.len() ==> !s.runners[#[trigger] s.runner_order[j]].idle,
    ensures
        s.next_runner() is None,
{
    lemma_first_idle(s.runner_order, s.runners);
    if let Some(k) = first_idle(s.runner_order, s.runners) {
        let i = s.runner_order.index_of(k);
        assert(!s.runners[s.runner_order[i]].idle);
    }
}

/// As many runners are drained as are above the target, as far as there are idle ones:
/// the first of these, in order.
pub proof fn surplus_runners_are_drained(order: Seq<Seq<char>>, runners: Map<Seq<char>, RunnerState>, limit: int)
    requires
        limit >= 0,
    ensures
        ({
            let idle = order.filter(|k: Seq<char>| runners[k].idle);
            let drained = idle_ids(order, runners, limit);
            &&& drained.len() == (if idle.len() < limit {
                idle.len() as int
            } else {
                limit
            })
            &&& forall|i: int| 0 <= i < drained.len() ==> #[trigger] drained[i] == runners[idle[i]].id
        }),
    decreases order.len(),
{
    reveal(Seq::filter);
    if order.len() > 0 {
        surplus_runners_are_drained(order.drop_last(), runners, limit);
    }
}

/// A confirmed step whose output no transition matches is followed by the step declared next,
/// and the last one ends its execution. The server is told either way. A step without a
/// limit is ready for the attempt that counts its visits.
pub proof fn executions_go_from_step_to_step(
    s: HerderState,
    flows: Map<Seq<char>, WorkflowEngine>,
    id: Seq<char>,
    vars: Seq<(String, String)>,
    i: int,
)
    requires
        s.executions.dom().contains(id),
        flows.dom().contains(s.executions[id].workflow),
        0 <= i < flows[s.executions[id].workflow].step_list().len(),
        s.executions[id].phase == (PhaseView::NeedsAdvance {
            step: flows[s.executions[id].workflow].step_list()[i].0,
        }),
        ({
            let steps = flows[s.executions[id].workflow].step_list();
            let output = match s.executions[id].last_output {
                Some(o) => o,
                None => seq![],
            };
            &&& forall|j: int, k: int|
                0 <= j < k < steps.len() ==> (#[trigger] steps[j]).0 != (#[trigger] steps[k]).0
            &&& forall|j: int|
                0 <= j < steps[i].1.transitions@.len() ==> !pattern_matches(
                    (#[trigger] steps[i].1.transitions@[j]).match_pattern@,
                    output,
                )
            &&& i + 1 < steps.len() ==> steps[i + 1].1.max_visits is None && visits(
                s.executions[id].visits,
                steps[i + 1].0,
            ) < u32::MAX
        }),
    ensures
        ({
            let steps = flows[s.executions[id].workflow].step_list();
            let before = s.executions[id];
            let (after, p) = processed(s, flows, id, vars);
            let e = after.executions[id];
            &&& after.executions.dom().contains(id)
            &&& i + 1 < steps.len() ==> {
                &&& e.status == before.status
                &&& e.phase == (PhaseView::Ready {
                    step: steps[i + 1].0,
                    attempt: (visits(before.visits, steps[i + 1].0) + 1) as u32,
                })
                &&& visits(e.visits, steps[i + 1].0) == visits(before.visits, steps[i + 1].0) + 1
                &&& p == ProgressView::Changed(
                    Some(
                        RequestView::Advance { execution_id: id, from_step: steps[i].0, to_step: steps[i + 1].0 },
                    ),
                )
            }
            &&& i + 1 == steps.len() ==> {
                &&& e.status == ExecStatus::Completed
                &&& e.phase == PhaseView::Done
                &&& e.visits == before.visits
                &&& p == ProgressView::Changed(Some(RequestView::Complete { execution_id: id }))
            }
        }),
{
    let steps = flows[s.executions[id].workflow].step_list();
    let output = match s.executions[id].last_output {
        Some(o) => o,
        None => seq![],
    };
    assert forall|j: int| 0 <= j < i implies (#[trigger] steps[j]).0 != steps[i].0 by {}
    unmatched_outputs_go_to_the_next_step(steps, i, output);
    if i + 1 < steps.len() {
        assert forall|j: int| 0 <= j < steps.len() && (#[trigger] steps[j]).0 == steps[i + 1].0 implies
            steps[j].1.max_visits is None by {
            if j < i + 1 {
                assert(steps[j].0 != steps[i + 1].0);
            } else if j > i + 1 {
                assert(steps[i + 1].0 != steps[j].0);
            }
        }
        unlimited_steps_are_always_entered(steps, steps[i + 1].0, s.executions[id].visits, AdvanceView::Complete);
    }
}

/// Where a graph leads out of itself the execution ends: completed or handed over to a
/// human, and the server is asked for the same. Where it leads to a step the execution gets
/// ready for that step, and the server is told which one it came from.
pub proof fn executions_end_where_the_graph_does(
    s: HerderState,
    flows: Map<Seq<char>, WorkflowEngine>,
    id: Seq<char>,
    vars: Seq<(String, String)>,
    step: Seq<char>,
)
    requires
        s.executions.dom().contains(id),
        flows.dom().contains(s.executions[id].workflow),
        s.executions[id].phase == (PhaseView::NeedsAdvance { step }),
    ensures
        ({
            let steps = flows[s.executions[id].workflow].step_list();
            let before = s.executions[id];
            let output = match before.last_output {
                Some(o) => o,
                None => seq![],
            };
            let advance = advance_along(steps, route(steps, step, output), before.visits);
            let (after, p) = processed(s, flows, id, vars);
            let e = after.executions[id];
            &&& advance == AdvanceView::Complete ==> e.status == ExecStatus::Completed && e.phase == PhaseView::Done && p
                == ProgressView::Changed(Some(RequestView::Complete { execution_id: id }))
            &&& advance == AdvanceView::Escalate ==> e.status == ExecStatus::Escalated && e.phase == PhaseView::Done
                && p is Changed && p->Changed_0 is Some && p->Changed_0->0 is Escalate
                && p->Changed_0->0->Escalate_execution_id == id && p->Changed_0->0->Escalate_step == step
            &&& advance is Goto ==> e.status == before.status && e.phase is Ready && e.phase->Ready_step
                == advance->Goto_0 && p == ProgressView::Changed(
                Some(RequestView::Advance { execution_id: id, from_step: step, to_step: advance->Goto_0 }),
            )
            &&& e.vars == before.vars
            &&& e.last_output == before.last_output
            &&& e.workflow == before.workflow
            &&& e.origin == before.origin
            &&& forall|name: Seq<char>| #[trigger]
                visits(e.visits, name) == visits(counts_along(route(steps, step, output), before.visits), name)
        }),
{
}

/// A step that has used up its retries and names a step for that case goes there, for a
/// first attempt, and the visit is counted. Where that step has had its visits the execution
/// goes where it says for that case, or to a human.
pub proof fn exhausted_steps_go_where_they_say(
    s: HerderState,
    flows: Map<Seq<char>, WorkflowEngine>,
    id: Seq<char>,
    vars: Seq<(String, String)>,
    step: Seq<char>,
    error: Seq<char>,
)
    requires
        s.executions.dom().contains(id),
        s.executions[id].phase == (PhaseView::NeedsFailure { step, error }),
        step_def(flows, s.executions[id].workflow, step) is Some,
        step_def(flows, s.executions[id].workflow, step)->0.on_fail is Some,
        step_def(flows, s.executions[id].workflow, step)->0.on_fail->0@ != "escalate"@,
        s.executions[id].force_escalate || s.executions[id].retry.failures(step) >= retry_limit(
            step_def(flows, s.executions[id].workflow, step)->0.max_retries,
        ),
        visits(
            s.executions[id].visits,
            step_def(flows, s.executions[id].workflow, step)->0.on_fail->0@,
        ) < u32::MAX,
    ensures
        ({
            let before = s.executions[id];
            let target = step_def(flows, before.workflow, step)->0.on_fail->0@;
            let def = step_def(flows, before.workflow, target);
            let n = visits(before.visits, target) + 1;
            let (after, p) = processed(s, flows, id, vars);
            let e = after.executions[id];
            &&& visits(e.visits, target) == n
            &&& !e.force_escalate
            &&& def is None || def->0.max_visits is None || n <= def->0.max_visits->0 ==> {
                &&& e.phase == (PhaseView::Ready { step: target, attempt: 1 })
                &&& e.status == before.status
                &&& p == ProgressView::Changed(None)
            }
            &&& def is Some && def->0.max_visits is Some && n > def->0.max_visits->0 && def->0.max_visits_goto is Some
                ==> {
                &&& e.phase == (PhaseView::Ready { step: def->0.max_visits_goto->0@, attempt: 1 })
                &&& e.status == before.status
                &&& p == ProgressView::Changed(None)
            }
            &&& def is Some && def->0.max_visits is Some && n > def->0.max_visits->0 && def->0.max_visits_goto is None
                ==> {
                &&& e.phase == PhaseView::Done
                &&& e.status == ExecStatus::Escalated
                &&& p is Changed
                &&& p->Changed_0 is Some
                &&& p->Changed_0->0 is Escalate
                &&& p->Changed_0->0->Escalate_execution_id == id
                &&& p->Changed_0->0->Escalate_step == target
            }
        }),
{
}

/// A merge is asked for on the branch that the step declares, with the variables of the
/// execution filled in, squashed as the step says; the execution waits for its outcome. Any
/// other action fails its step, and the server is told.
pub proof fn action_steps_merge_or_fail(
    s: HerderState,
    flows: Map<Seq<char>, WorkflowEngine>,
    id: Seq<char>,
    vars: Seq<(String, String)>,
    step: Seq<char>,
    attempt: u32,
)
    requires
        s.executions.dom().contains(id),
        s.executions[id].phase == (PhaseView::Ready { step, attempt }),
        step_def(flows, s.executions[id].workflow, step) is Some,
    ensures
        ({
            let def = step_def(flows, s.executions[id].workflow, step)->0;
            let (after, p) = processed(s, flows, id, vars);
            &&& def.action is None ==> after == s && p == ProgressView::Unchanged
            &&& def.action is Some && def.action->0@ == "merge_to_main"@ ==> {
                &&& after == s
                &&& p is Merge
                &&& p->Merge_0.execution_id == id
                &&& p->Merge_0.step == step
                &&& p->Merge_0.attempt == attempt
                &&& p->Merge_0.squash == def.squash
                &&& p->Merge_0.branch == substituted(
                    if def.workspace is Some && def.workspace->0.branch is Some {
                        def.workspace->0.branch->0@
                    } else {
                        "main"@
                    },
                    vars,
                )
            }
            &&& def.action is Some && def.action->0@ != "merge_to_main"@ ==> {
                let error = "unknown action: "@ + def.action->0@;
                &&& after.executions[id].phase == (PhaseView::NeedsFailure { step, error })
                &&& p == ProgressView::Changed(Some(RequestView::Fail { execution_id: id, step, attempt, error }))
            }
        }),
{
}

/// A variable in braces stands for its value in the branch of a merge, and text without
/// braces for itself.
pub proof fn branches_are_filled_in(a: Seq<char>, b: Seq<char>, name: String, value: String)
    requires
        !a.contains('{'),
        !b.contains('{'),
        !name@.contains('{'),
    ensures
        substituted(a, seq![(name, value)]) == a,
        substituted(a, Seq::empty()) == a,
        substituted(a + "{"@ + name@ + "}"@ + b, seq![(name, value)]) == a + value@ + b,
{
    reveal_strlit("{");
    reveal_strlit("}");
    let one = seq![(name, value)];
    assert(one.drop_last() =~= seq![]);
    assert(one.last() == (name, value));
    assert(substituted(a, one.drop_last()) == a);
    let from = "{"@ + name@ + "}"@;
    assert(from[0] == '{');
    assert forall|i: int| !occurs_at(a, from, i) by {
        if occurs_at(a, from, i) {
            assert(a.subrange(i, i + from.len())[0] == a[i]);
            assert(a.contains(a[i]));
        }
    }
    texts_without_an_occurrence_stay(a, from, value@);
    let s = a + "{"@ + name@ + "}"@ + b;
    let n = a.len() as int;
    assert(substituted(s, one.drop_last()) == s);
    assert(s.subrange(n, n + from.len()) =~= from);
    assert forall|j: int| j < n implies !occurs_at(s, from, j) by {
        if occurs_at(s, from, j) {
            assert(s.subrange(j, j + from.len())[0] == s[j]);
            assert(a.contains(a[j]));
        }
    }
    the_first_occurrence_is_replaced(s, from, value@, n);
    assert(s.take(n) =~= a);
    assert(s.skip(n + from.len()) =~= b);
    assert forall|i: int| !occurs_at(b, from, i) by {
        if occurs_at(b, from, i) {
            assert(b.subrange(i, i + from.len())[0] == b[i]);
            assert(b.contains(b[i]));
        }
    }
    texts_without_an_occurrence_stay(b, from, value@);
}

/// Variables are filled in one after the other, so that more of them go over the result of
/// the first.
pub proof fn variables_are_filled_in_one_by_one(
    raw: Seq<char>,
    a: Seq<(String, String)>,
    b: Seq<(String, String)>,
)
    ensures
        substituted(raw, a + b) == substituted(substituted(raw, a), b),
    decreases b.len(),
{
    if b.len() == 0 {
        assert(a + b =~= a);
    } else {
        assert((a + b).drop_last() =~= a + b.drop_last());
        assert((a + b).last() == b.last());
        variables_are_filled_in_one_by_one(raw, a, b.drop_last());
    }
}

/// The last definition of a workflow's name is the one that counts.
pub proof fn the_last_definition_of_a_workflow_counts(defs: Seq<WorkflowDef>, name: Seq<char>, i: int)
    ensures
        0 <= i < defs.len() && defs[i].name@ == name && (forall|j: int|
            i < j < defs.len() ==> (#[trigger] defs[j]).name@ != name) ==> last_named(defs, name) == i,
        (forall|j: int| 0 <= j < defs.len() ==> (#[trigger] defs[j]).name@ != name) ==> last_named(defs, name) < 0,
    decreases defs.len(),
{
    if defs.len() > 0 {
        let n = defs.len() - 1;
        let head = defs.drop_last();
        assert(defs.last() == defs[n]);
        the_last_definition_of_a_workflow_counts(head, name, i);
        assert(forall|j: int| 0 <= j < n ==> head[j] == defs[j]);
        if 0 <= i < n && defs[i].name@ == name && (forall|j: int|
            i < j < defs.len() ==> (#[trigger] defs[j]).name@ != name) {
            assert(defs[n].name@ != name);
            assert forall|j: int| i < j < head.len() implies (#[trigger] head[j]).name@ != name by {
                assert(defs[j].name@ != name);
            }
        }
        if forall|j: int| 0 <= j < defs.len() ==> (#[trigger] defs[j]).name@ != name {
            assert(defs[n].name@ != name);
            assert forall|j: int| 0 <= j < head.len() implies (#[trigger] head[j]).name@ != name by {
                assert(defs[j].name@ != name);
            }
        }
    }
}

/// A merge that succeeded confirms its step with the output `pass` and a clean record; one that
/// failed fails its step, and the failure counts like any other. Nothing else changes.
pub proof fn merges_confirm_or_fail_their_step(
    s: HerderState,
    id: Seq<char>,
    step: Seq<char>,
    error: Seq<char>,
    other: Seq<char>,
)
    requires
        s.executions.dom().contains(id),
    ensures
        ({
            let e = s.executions[id];
            let done = s.merged(id, step).executions[id];
            let lost = s.unmerged(id, step, error).executions[id];
            &&& s.merged(id, step).executions.dom().contains(id)
            &&& done.phase == (PhaseView::NeedsAdvance { step })
            &&& done.last_output == Some("pass"@)
            &&& forall|x: Seq<char>| #[trigger] done.retry.failures(x) == 0
            &&& done.status == e.status && done.visits == e.visits && done.vars == e.vars
            &&& s.unmerged(id, step, error).executions.dom().contains(id)
            &&& lost.phase == (PhaseView::NeedsFailure { step, error })
            &&& lost.retry == e.retry && lost.status == e.status && lost.last_output == e.last_output
            &&& lost.visits == e.visits && lost.force_escalate == e.force_escalate
        }),
        other != id && s.executions.dom().contains(other) ==> s.merged(id, step).executions[other]
            == s.executions[other] && s.unmerged(id, step, error).executions[other] == s.executions[other],
        s.merged(id, step).runners == s.runners,
        s.unmerged(id, step, error).runners == s.runners,
{
}

/// A step in flight is not given out again: its execution waits, and is not among those that
/// wait for a runner.
pub proof fn steps_in_flight_are_not_given_out_again(
    s: HerderState,
    flows: Map<Seq<char>, WorkflowEngine>,
    id: Seq<char>,
)
    requires
        s.executions.dom().contains(id),
    ensures
        s.in_flight(id).executions[id].phase == PhaseView::AwaitingStep,
        ready_for(flows, id, s.in_flight(id).executions[id]) is None,
        s.in_flight(id).executions[id].status == s.executions[id].status,
        s.in_flight(id).executions[id].retry == s.executions[id].retry,
        s.in_flight(id).executions[id].visits == s.executions[id].visits,
        s.in_flight(id).runners == s.runners,
{
}

/// An execution is worked on exactly where it runs, in the order in which it was seen.
pub proof fn running_executions_are_worked_on(
    order: Seq<Seq<char>>,
    executions: Map<Seq<char>, ExecState>,
    more: Seq<char>,
)
    ensures
        executions[more].status == ExecStatus::Running ==> running_list(order.push(more), executions) == running_list(
            order,
            executions,
        ).push(more),
        executions[more].status != ExecStatus::Running ==> running_list(order.push(more), executions) == running_list(
            order,
            executions,
        ),
        running_list(Seq::empty(), executions).len() == 0,
{
    reveal(Seq::filter);
    assert(order.push(more).drop_last() =~= order);
    assert(order.push(more).last() == more);
}

/// A pool is above its target by the runners that it has too many; without a target, or at
/// or below it, there is nothing to drain.
pub proof fn pools_are_drained_down_to_their_target(runners: nat, target: nat, more: nat)
    ensures
        surplus(runners, 0) == 0,
        target > 0 ==> surplus(target + more, target) == more,
        target > 0 && runners <= target ==> surplus(runners, target) <= 0,
{
}

/// Waits double from one attempt to the next until they are half a minute long, and grow no
/// further.
pub proof fn waits_double_up_to_half_a_minute(secs: nat)
    ensures
        secs <= 15 ==> backoff_behind(secs) == 2 * secs,
        secs >= 15 ==> backoff_behind(secs) == 30,
        backoff_behind(secs) <= 30,
{
}

/// A loaded definition is known under its name, with its persona, skills, variables and steps,
/// over one that was known before; a workflow that is not among the definitions stays.
pub proof fn loaded_definitions_replace_known_ones(
    before: Map<Seq<char>, WorkflowEngine>,
    defs: Seq<WorkflowDef>,
    after: Map<Seq<char>, WorkflowEngine>,
    i: int,
    other: Seq<char>,
)
    requires
        workflows_loaded(before, defs, after),
        0 <= i < defs.len(),
        forall|j: int| i < j < defs.len() ==> (#[trigger] defs[j]).name@ != defs[i].name@,
        forall|j: int| 0 <= j < defs.len() ==> (#[trigger] defs[j]).name@ != other,
    ensures
        ({
            let engine = after[defs[i].name@];
            &&& after.dom().contains(defs[i].name@)
            &&& engine.name@ == defs[i].name@
            &&& engine.persona == defs[i].persona
            &&& engine.skills == defs[i].skills
            &&& engine.vars == defs[i].vars
            &&& engine.step_list() == crate::workflow::steps_by_name(defs[i].steps@)
        }),
        after.dom().contains(other) == before.dom().contains(other),
        before.dom().contains(other) ==> after[other] == before[other],
{
    the_last_definition_of_a_workflow_counts(defs, defs[i].name@, i);
    the_last_definition_of_a_workflow_counts(defs, other, i);
    assert(after.dom().contains(defs[i].name@));
}

} // verus!
