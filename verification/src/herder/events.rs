//! What events change: pure state updates.

use vstd::prelude::*;

use crate::events::{
    ExecutionCancelledData, ExecutionCompletedData, ExecutionCreatedData, ExecutionEscalatedData, RunnerDrainedData,
    RunnerHeartbeatMissedData, RunnerRegisteredData, SignalMatch, StepConfirmedData, StepDispatchedData, StepDoneData,
    StepFailedData, StepSignalsData, StepTimeoutData,
};
use crate::herder::state::{
    first_working, lemma_drop_runner, lemma_put_execution, lemma_put_runner, lemma_runners_stay_consistent, same_config, ExecPhase,
    ExecState, ExecStatus, ExecutionView, Herder, HerderState, PendingTrigger, PhaseView, RunnerState, RunnerView,
};
use crate::strmap::StringMap;
use crate::text::same;
use crate::workflow::{visits, RetryTracker, RetryView, WorkflowEngine};

verus! {

/// The kinds of events that the herder reads.
#[derive(Debug, Clone, Copy, PartialEq, Eq, Structural)]
pub enum HerderEventKind {
    RunnerRegistered,
    RunnerDrained,
    RunnerHeartbeatMissed,
    ExecutionCreated,
    ExecutionCompleted,
    ExecutionEscalated,
    ExecutionCancelled,
    StepDispatched,
    StepDone,
    StepSignals,
    StepConfirmed,
    StepFailed,
    StepTimeout,
    CxTaskReady,
    Other,
}

/// The kind of an event type.
pub open spec fn kind_of(event_type: Seq<char>) -> HerderEventKind {
    if event_type == "runner.registered"@ {
        HerderEventKind::RunnerRegistered
    } else if event_type == "runner.drained"@ {
        HerderEventKind::RunnerDrained
    } else if event_type == "runner.heartbeat_missed"@ {
        HerderEventKind::RunnerHeartbeatMissed
    } else if event_type == "execution.created"@ {
        HerderEventKind::ExecutionCreated
    } else if event_type == "execution.completed"@ {
        HerderEventKind::ExecutionCompleted
    } else if event_type == "execution.escalated"@ {
        HerderEventKind::ExecutionEscalated
    } else if event_type == "execution.cancelled"@ {
        HerderEventKind::ExecutionCancelled
    } else if event_type == "step.dispatched"@ {
        HerderEventKind::StepDispatched
    } else if event_type == "step.done"@ {
        HerderEventKind::StepDone
    } else if event_type == "step.signals"@ {
        HerderEventKind::StepSignals
    } else if event_type == "step.confirmed"@ {
        HerderEventKind::StepConfirmed
    } else if event_type == "step.failed"@ {
        HerderEventKind::StepFailed
    } else if event_type == "step.timeout"@ {
        HerderEventKind::StepTimeout
    } else if event_type == "cx.task_ready"@ {
        HerderEventKind::CxTaskReady
    } else {
        HerderEventKind::Other
    }
}

/// Tells the kinds of events apart. What the herder does not read is `Other`.
pub fn classify_event(event_type: &str) -> (k: HerderEventKind)
    ensures
        k == kind_of(event_type@),
{
    if same(event_type, "runner.registered") {
        HerderEventKind::RunnerRegistered
    } else if same(event_type, "runner.drained") {
        HerderEventKind::RunnerDrained
    } else if same(event_type, "runner.heartbeat_missed") {
        HerderEventKind::RunnerHeartbeatMissed
    } else if same(event_type, "execution.created") {
        HerderEventKind::ExecutionCreated
    } else if same(event_type, "execution.completed") {
        HerderEventKind::ExecutionCompleted
    } else if same(event_type, "execution.escalated") {
        HerderEventKind::ExecutionEscalated
    } else if same(event_type, "execution.cancelled") {
        HerderEventKind::ExecutionCancelled
    } else if same(event_type, "step.dispatched") {
        HerderEventKind::StepDispatched
    } else if same(event_type, "step.done") {
        HerderEventKind::StepDone
    } else if same(event_type, "step.signals") {
        HerderEventKind::StepSignals
    } else if same(event_type, "step.confirmed") {
        HerderEventKind::StepConfirmed
    } else if same(event_type, "step.failed") {
        HerderEventKind::StepFailed
    } else if same(event_type, "step.timeout") {
        HerderEventKind::StepTimeout
    } else if same(event_type, "cx.task_ready") {
        HerderEventKind::CxTaskReady
    } else {
        HerderEventKind::Other
    }
}

/// An event with its payload.
#[derive(Debug)]
pub enum HerderEvent {
    RunnerRegistered(RunnerRegisteredData),
    RunnerDrained(RunnerDrainedData),
    RunnerHeartbeatMissed(RunnerHeartbeatMissedData),
    ExecutionCreated(ExecutionCreatedData),
    ExecutionCompleted(ExecutionCompletedData),
    ExecutionEscalated(ExecutionEscalatedData),
    ExecutionCancelled(ExecutionCancelledData),
    StepDispatched(StepDispatchedData),
    StepDone(StepDoneData),
    StepSignals(StepSignalsData),
    StepConfirmed(StepConfirmedData),
    StepFailed(StepFailedData),
    StepTimeout(StepTimeoutData),
    /// A cx node became ready.
    CxTaskReady { node_id: String, tags: Vec<String> },
    /// Anything that changes nothing here.
    Other,
}

/// The step that an execution starts with: the one that it was created for, else the
/// first of its workflow, else none.
pub open spec fn starting_step(flows: Map<Seq<char>, WorkflowEngine>, d: ExecutionCreatedData) -> Seq<char> {
    match d.start_step {
        Some(step) => step@,
        None => if flows.dom().contains(d.workflow@) && flows[d.workflow@].step_list().len() > 0 {
            flows[d.workflow@].step_list()[0].0
        } else {
            seq![]
        },
    }
}

/// An execution as it is created.
pub open spec fn created_execution(flows: Map<Seq<char>, WorkflowEngine>, d: ExecutionCreatedData) -> ExecState {
    ExecState {
        vars: d.vars.texts(),
        origin: d.origin@,
        workflow: d.workflow@,
        status: ExecStatus::Running,
        phase: PhaseView::Ready { step: starting_step(flows, d), attempt: 1 },
        visits: Map::empty(),
        last_output: None,
        retry: RetryView::fresh(),
        force_escalate: false,
    }
}

/// Some signal of a step says that retrying cannot mend its failure.
pub open spec fn any_final(ms: Seq<SignalMatch>) -> bool {
    exists|i: int| 0 <= i < ms.len() && !(#[trigger] ms[i]).retriable
}

impl HerderState {
    /// The state with an execution changed, where it is known.
    pub open spec fn change(self, id: Seq<char>, e: ExecState) -> HerderState {
        if self.executions.dom().contains(id) {
            self.put_execution(id, e)
        } else {
            self
        }
    }

    /// The state with an execution changed, where it is known and running.
    pub open spec fn change_running(self, id: Seq<char>, e: ExecState) -> HerderState {
        if self.executions.dom().contains(id) && self.executions[id].status == ExecStatus::Running {
            self.put_execution(id, e)
        } else {
            self
        }
    }

    /// The state once it is known how far the stream has come: history is over where it has
    /// caught up with the server.
    pub open spec fn caught_up(self) -> HerderState {
        HerderState { replaying: self.replaying && self.last_seq < self.replay_target, ..self }
    }

    /// The state with a step at work on a runner.
    pub open spec fn dispatched(self, d: StepDispatchedData) -> HerderState {
        let id = d.execution_id.0@;
        let runner = d.runner_id.0@;
        let s = if self.runners.dom().contains(runner) {
            self.put_runner(runner, self.runners[runner].working(id, d.step@))
        } else {
            self
        };
        let e = self.executions[id];
        let running = e.status == ExecStatus::Running;
        s.change(
            id,
            ExecState {
                phase: if running { PhaseView::AwaitingStep } else { e.phase },
                force_escalate: if running { false } else { e.force_escalate },
                visits: if self.replaying {
                    e.visits.insert(d.step@, (visits(e.visits, d.step@) + 1) as u32)
                } else {
                    e.visits
                },
                ..e
            },
        )
    }

    /// The state behind an event.
    pub open spec fn after(self, flows: Map<Seq<char>, WorkflowEngine>, seq: u64, ev: HerderEvent) -> HerderState {
        let s = HerderState { last_seq: seq, ..self };
        match ev {
            HerderEvent::RunnerRegistered(d) => s.put_runner(d.runner_id.0@, RunnerState::waiting(d.runner_id.0@)),
            HerderEvent::RunnerDrained(d) => s.drop_runner(d.runner_id.0@),
            HerderEvent::RunnerHeartbeatMissed(d) => s.orphaned(d).drop_runner(d.runner_id.0@),
            HerderEvent::ExecutionCreated(d) => s.put_execution(d.execution_id.0@, created_execution(flows, d)),
            HerderEvent::ExecutionCompleted(d) => s.change(
                d.execution_id.0@,
                s.executions[d.execution_id.0@].ended(ExecStatus::Completed),
            ),
            HerderEvent::ExecutionEscalated(d) => s.change(
                d.execution_id.0@,
                s.executions[d.execution_id.0@].ended(ExecStatus::Escalated),
            ),
            HerderEvent::ExecutionCancelled(d) => s.change(
                d.execution_id.0@,
                s.executions[d.execution_id.0@].ended(ExecStatus::Cancelled),
            ),
            HerderEvent::StepDispatched(d) => s.dispatched(d),
            HerderEvent::StepDone(d) => s.change_running(
                d.execution_id.0@,
                ExecState { last_output: Some(d.output@), ..s.executions[d.execution_id.0@] },
            ),
            HerderEvent::StepSignals(d) => s.change_running(
                d.execution_id.0@,
                ExecState {
                    force_escalate: s.executions[d.execution_id.0@].force_escalate || any_final(d.signal_matches@),
                    ..s.executions[d.execution_id.0@]
                },
            ),
            HerderEvent::StepConfirmed(d) => s.freed(d.execution_id.0@, d.step@).change_running(
                d.execution_id.0@,
                ExecState {
                    retry: RetryView::fresh(),
                    phase: PhaseView::NeedsAdvance { step: d.step@ },
                    force_escalate: false,
                    ..s.executions[d.execution_id.0@]
                },
            ),
            HerderEvent::StepFailed(d) => s.freed(d.execution_id.0@, d.step@).change_running(
                d.execution_id.0@,
                s.executions[d.execution_id.0@].with_phase(PhaseView::NeedsFailure { step: d.step@, error: d.error@ }),
            ),
            HerderEvent::StepTimeout(d) => s.freed(d.execution_id.0@, d.step@).change_running(
                d.execution_id.0@,
                s.executions[d.execution_id.0@].with_phase(PhaseView::Ready { step: d.step@, attempt: d.attempt }),
            ),
            HerderEvent::CxTaskReady { node_id, tags } => s,
            HerderEvent::Other => s,
        }
    }

    /// The state with the step of a runner that went silent ready again.
    pub open spec fn orphaned(self, d: RunnerHeartbeatMissedData) -> HerderState {
        match (d.execution_id, d.step, d.attempt) {
            (Some(id), Some(step), Some(attempt)) => if self.executions.dom().contains(id@)
                && self.executions[id@].phase == PhaseView::AwaitingStep {
                self.put_execution(
                    id@,
                    self.executions[id@].with_phase(PhaseView::Ready { step: step@, attempt }),
                )
            } else {
                self
            },
            _ => self,
        }
    }
}

/// The state behind an event, and what it queues for trigger evaluation: a ready
/// node, unless the event is history.
pub open spec fn event_applied(
    before: HerderState,
    flows: Map<Seq<char>, WorkflowEngine>,
    seq: u64,
    ev: HerderEvent,
    after: HerderState,
) -> bool {
    match ev {
        HerderEvent::CxTaskReady { node_id, tags } => if before.replaying {
            after == before.after(flows, seq, ev)
        } else {
            &&& after == (HerderState { pending: after.pending, ..before.after(flows, seq, ev) })
            &&& after.pending.len() == before.pending.len() + 1
            &&& after.pending.drop_last() == before.pending
            &&& after.pending.last().node_id@ == node_id@
            &&& after.pending.last().event_type@ == "cx.task_ready"@
            &&& after.pending.last().tags == tags
        },
        _ => after == before.after(flows, seq, ev),
    }
}

/// A dispatch in history counts a visit, which must fit in the counter.
pub open spec fn event_fits(s: HerderState, ev: HerderEvent) -> bool {
    match ev {
        HerderEvent::StepDispatched(d) => s.replaying && s.executions.dom().contains(d.execution_id.0@) ==> visits(
            s.executions[d.execution_id.0@].visits,
            d.step@,
        ) < u32::MAX,
        _ => true,
    }
}

fn has_final(ms: &Vec<SignalMatch>) -> (r: bool)
    ensures
        r == any_final(ms@),
{
    let mut i: usize = 0;
    while i < ms.len()
        invariant
            0 <= i <= ms@.len(),
            forall|j: int| 0 <= j < i ==> (#[trigger] ms@[j]).retriable,
        decreases ms@.len() - i,
    {
        if !ms[i].retriable {
            assert(!ms@[i as int].retriable);
            return true;
        }
        i += 1;
    }
    false
}

/// The number of visits of a step.
pub fn visit_count(counts: &StringMap<u32>, step: &str) -> (n: u32)
    ensures
        n == visits(counts@, step@),
{
    match counts.get(step) {
        Some(n) => *n,
        None => 0,
    }
}

impl Herder {
    /// Whether the visit that an event counts fits in its counter.
    pub fn fits(&self, event: &HerderEvent) -> (r: bool)
        ensures
            r == event_fits(self@, *event),
    {
        match event {
            HerderEvent::StepDispatched(d) => match self.executions.get(d.execution_id.0.as_str()) {
                Some(e) => !self.replaying || visit_count(&e.visit_counts, d.step.as_str()) < u32::MAX,
                None => true,
            },
            _ => true,
        }
    }

    fn set_runner(&mut self, id: String, runner: RunnerView)
        ensures
            final(self)@ == old(self)@.put_runner(id@, runner@),
            same_config(*final(self), *old(self)),
    {
        proof {
            lemma_put_runner(self.runners@, id@, runner);
        }
        self.runners.insert(id, runner);
    }

    fn remove_runner(&mut self, id: &str)
        ensures
            final(self)@ == old(self)@.drop_runner(id@),
            same_config(*final(self), *old(self)),
    {
        proof {
            lemma_drop_runner(self.runners@, id@);
        }
        self.runners.remove(id);
    }

    /// Puts an execution that is known into another phase.
    pub(crate) fn set_phase(&mut self, id: &str, phase: ExecPhase)
        ensures
            final(self)@ == old(self)@.change(id@, old(self)@.executions[id@].with_phase(phase@)),
            same_config(*final(self), *old(self)),
    {
        let ghost before = self.executions@;
        if let Some(e) = self.executions.get_mut(id) {
            e.phase = phase;
        }
        proof {
            if before.dom().contains(id@) {
                lemma_put_execution(before, id@, self.executions@[id@]);
                assert(self.executions@ =~= before.insert(id@, self.executions@[id@]));
            }
        }
    }

    /// Puts an execution that is known at its end.
    pub(crate) fn end_execution(&mut self, id: &str, status: ExecStatus)
        ensures
            final(self)@ == old(self)@.change(id@, old(self)@.executions[id@].ended(status)),
            same_config(*final(self), *old(self)),
    {
        let ghost before = self.executions@;
        if let Some(e) = self.executions.get_mut(id) {
            e.status = status;
            e.phase = ExecPhase::Done;
        }
        proof {
            if before.dom().contains(id@) {
                lemma_put_execution(before, id@, self.executions@[id@]);
                assert(self.executions@ =~= before.insert(id@, self.executions@[id@]));
            }
        }
    }

    fn is_running(&self, id: &str) -> (r: bool)
        ensures
            r == (self@.executions.dom().contains(id@) && self@.executions[id@].status == ExecStatus::Running),
    {
        match self.executions.get(id) {
            Some(e) => e.status == ExecStatus::Running,
            None => false,
        }
    }

    fn first_step_of(&self, d: &ExecutionCreatedData) -> (s: String)
        ensures
            s@ == starting_step(self.workflows@, *d),
    {
        match &d.start_step {
            Some(step) => step.clone(),
            None => match self.workflows.get(d.workflow.as_str()) {
                Some(engine) => match engine.first_step() {
                    Some(name) => name.to_owned(),
                    None => String::new(),
                },
                None => String::new(),
            },
        }
    }

    fn on_created(&mut self, d: ExecutionCreatedData)
        ensures
            final(self)@ == old(self)@.put_execution(d.execution_id.0@, created_execution(old(self).workflows@, d)),
            same_config(*final(self), *old(self)),
    {
        let first_step = self.first_step_of(&d);
        let execution = ExecutionView {
            vars: d.vars,
            origin: d.origin,
            workflow: d.workflow,
            status: ExecStatus::Running,
            phase: ExecPhase::Ready { step: first_step, attempt: 1 },
            visit_counts: StringMap::new(),
            last_output: None,
            retry_tracker: RetryTracker::new(),
            force_escalate: false,
        };
        proof {
            lemma_put_execution(self.executions@, d.execution_id.0@, execution);
        }
        self.executions.insert(d.execution_id.0, execution);
    }

    fn on_dispatched(&mut self, d: StepDispatchedData)
        requires
            event_fits(old(self)@, HerderEvent::StepDispatched(d)),
        ensures
            final(self)@ == old(self)@.dispatched(d),
            same_config(*final(self), *old(self)),
    {
        let ghost s0 = self@;
        let ghost id = d.execution_id.0@;
        let ghost runners = self.runners@;
        let ghost execs = self.executions@;
        // Mark runner as busy
        if let Some(runner) = self.runners.get_mut(d.runner_id.0.as_str()) {
            runner.start(d.execution_id.0.as_str(), d.step.as_str());
        }
        proof {
            let k = d.runner_id.0@;
            if runners.dom().contains(k) {
                lemma_put_runner(runners, k, self.runners@[k]);
                assert(self.runners@ =~= runners.insert(k, self.runners@[k]));
            }
        }
        let replaying = self.replaying;
        if let Some(exec) = self.executions.get_mut(d.execution_id.0.as_str()) {
            if exec.status == ExecStatus::Running {
                exec.phase = ExecPhase::AwaitingStep;
                exec.force_escalate = false;
            }
            // During replay, reconstruct visit_counts from dispatches
            if replaying {
                let n = visit_count(&exec.visit_counts, d.step.as_str());
                exec.visit_counts.insert(d.step, n + 1);
            }
        }
        proof {
            if execs.dom().contains(id) {
                lemma_put_execution(execs, id, self.executions@[id]);
                assert(self.executions@ =~= execs.insert(id, self.executions@[id]));
            }
        }
    }

    fn on_orphaned(&mut self, d: &RunnerHeartbeatMissedData)
        ensures
            final(self)@ == old(self)@.orphaned(*d),
            same_config(*final(self), *old(self)),
    {
        if let (Some(exec_id), Some(step), Some(attempt)) = (&d.execution_id, &d.step, d.attempt) {
            let awaiting = match self.executions.get(exec_id.as_str()) {
                Some(exec) => matches!(exec.phase, ExecPhase::AwaitingStep),
                None => false,
            };
            if awaiting {
                self.set_phase(exec_id.as_str(), ExecPhase::Ready { step: step.clone(), attempt });
            }
        }
    }

    fn on_done(&mut self, d: StepDoneData)
        ensures
            final(self)@ == old(self)@.change_running(
                d.execution_id.0@,
                (ExecState { last_output: Some(d.output@), ..old(self)@.executions[d.execution_id.0@] }),
            ),
            same_config(*final(self), *old(self)),
    {
        let ghost before = self.executions@;
        let ghost id = d.execution_id.0@;
        if self.is_running(d.execution_id.0.as_str()) {
            if let Some(exec) = self.executions.get_mut(d.execution_id.0.as_str()) {
                exec.last_output = Some(d.output);
            }
            proof {
                lemma_put_execution(before, id, self.executions@[id]);
                assert(self.executions@ =~= before.insert(id, self.executions@[id]));
            }
        }
    }

    fn on_signals(&mut self, d: StepSignalsData)
        ensures
            final(self)@ == old(self)@.change_running(
                d.execution_id.0@,
                (ExecState {
                    force_escalate: old(self)@.executions[d.execution_id.0@].force_escalate || any_final(
                        d.signal_matches@,
                    ),
                    ..old(self)@.executions[d.execution_id.0@]
                }),
            ),
            same_config(*final(self), *old(self)),
    {
        let ghost before = self.executions@;
        let ghost id = d.execution_id.0@;
        if self.is_running(d.execution_id.0.as_str()) {
            let force = has_final(&d.signal_matches);
            if let Some(exec) = self.executions.get_mut(d.execution_id.0.as_str()) {
                exec.force_escalate = exec.force_escalate || force;
            }
            proof {
                lemma_put_execution(before, id, self.executions@[id]);
                assert(self.executions@ =~= before.insert(id, self.executions@[id]));
            }
        }
    }

    fn on_confirmed(&mut self, d: StepConfirmedData)
        ensures
            final(self)@ == old(self)@.freed(d.execution_id.0@, d.step@).change_running(
                d.execution_id.0@,
                (ExecState {
                    retry: RetryView::fresh(),
                    phase: PhaseView::NeedsAdvance { step: d.step@ },
                    force_escalate: false,
                    ..old(self)@.executions[d.execution_id.0@]
                }),
            ),
            same_config(*final(self), *old(self)),
    {
        let ghost id = d.execution_id.0@;
        self.free_runner_for_step(d.execution_id.0.as_str(), d.step.as_str());
        let ghost before = self.executions@;
        if self.is_running(d.execution_id.0.as_str()) {
            if let Some(exec) = self.executions.get_mut(d.execution_id.0.as_str()) {
                exec.retry_tracker.reset();
                exec.phase = ExecPhase::NeedsAdvance { step: d.step };
                exec.force_escalate = false;
            }
            proof {
                lemma_put_execution(before, id, self.executions@[id]);
                assert(self.executions@ =~= before.insert(id, self.executions@[id]));
            }
        }
    }

    /// Applies an event of the stream.
    pub fn handle_event(&mut self, seq: u64, event: HerderEvent)
        requires
            event_fits(old(self)@, event),
        ensures
            event_applied(old(self)@, old(self).workflows@, seq, event, final(self)@),
            same_config(*final(self), *old(self)),
    {
        self.last_seq = seq;
        match event {
            HerderEvent::RunnerRegistered(d) => {
                let key = d.runner_id.0.clone();
                self.set_runner(
                    key,
                    RunnerView { id: d.runner_id, idle: true, current_execution: None, current_step: None },
                );
            },
            HerderEvent::RunnerDrained(d) => {
                self.remove_runner(d.runner_id.0.as_str());
            },
            HerderEvent::RunnerHeartbeatMissed(d) => {
                // Re-ready the orphaned step if the runner was working on one
                self.on_orphaned(&d);
                // Remove the dead runner
                self.remove_runner(d.runner_id.0.as_str());
            },
            HerderEvent::ExecutionCreated(d) => { self.on_created(d); },
            HerderEvent::ExecutionCompleted(d) => {
                self.end_execution(d.execution_id.0.as_str(), ExecStatus::Completed);
            },
            HerderEvent::ExecutionEscalated(d) => {
                self.end_execution(d.execution_id.0.as_str(), ExecStatus::Escalated);
            },
            HerderEvent::ExecutionCancelled(d) => {
                self.end_execution(d.execution_id.0.as_str(), ExecStatus::Cancelled);
            },
            HerderEvent::StepDispatched(d) => { self.on_dispatched(d); },
            HerderEvent::StepDone(d) => { self.on_done(d); },
            HerderEvent::StepSignals(d) => { self.on_signals(d); },
            HerderEvent::StepConfirmed(d) => { self.on_confirmed(d); },
            HerderEvent::StepFailed(d) => {
                self.free_runner_for_step(d.execution_id.0.as_str(), d.step.as_str());
                if self.is_running(d.execution_id.0.as_str()) {
                    self.set_phase(
                        d.execution_id.0.as_str(),
                        ExecPhase::NeedsFailure { step: d.step, error: d.error },
                    );
                }
            },
            HerderEvent::StepTimeout(d) => {
                self.free_runner_for_step(d.execution_id.0.as_str(), d.step.as_str());
                if self.is_running(d.execution_id.0.as_str()) {
                    // Infrastructure failure, not a workflow failure — re-dispatch
                    // without burning a retry.
                    self.set_phase(
                        d.execution_id.0.as_str(),
                        ExecPhase::Ready { step: d.step, attempt: d.attempt },
                    );
                }
            },
            HerderEvent::CxTaskReady { node_id, tags } => {
                if !self.replaying {
                    let ghost before = self.pending_triggers@;
                    self.pending_triggers.push(
                        PendingTrigger { node_id, event_type: "cx.task_ready".to_owned(), tags },
                    );
                    assert(self.pending_triggers@.drop_last() =~= before);
                }
            },
            HerderEvent::Other => {},
        }
    }

    /// Ends the replay once the stream has caught up with the server. Returns whether
    /// it ended now.
    pub fn finish_replay(&mut self) -> (r: bool)
        ensures
            r == (old(self).replaying && old(self).last_seq >= old(self).replay_target),
            final(self)@ == (HerderState { replaying: old(self)@.replaying && !r, ..old(self)@ }),
            final(self)@ == old(self)@.caught_up(),
            same_config(*final(self), *old(self)),
    {
        if self.replaying && self.last_seq >= self.replay_target {
            self.replaying = false;
            true
        } else {
            false
        }
    }
}

/// The execution that an event is about.
pub open spec fn subject(ev: HerderEvent) -> Option<Seq<char>> {
    match ev {
        HerderEvent::RunnerRegistered(d) => None,
        HerderEvent::RunnerDrained(d) => None,
        HerderEvent::RunnerHeartbeatMissed(d) => match d.execution_id {
            Some(id) => Some(id@),
            None => None,
        },
        HerderEvent::ExecutionCreated(d) => Some(d.execution_id.0@),
        HerderEvent::ExecutionCompleted(d) => Some(d.execution_id.0@),
        HerderEvent::ExecutionEscalated(d) => Some(d.execution_id.0@),
        HerderEvent::ExecutionCancelled(d) => Some(d.execution_id.0@),
        HerderEvent::StepDispatched(d) => Some(d.execution_id.0@),
        HerderEvent::StepDone(d) => Some(d.execution_id.0@),
        HerderEvent::StepSignals(d) => Some(d.execution_id.0@),
        HerderEvent::StepConfirmed(d) => Some(d.execution_id.0@),
        HerderEvent::StepFailed(d) => Some(d.execution_id.0@),
        HerderEvent::StepTimeout(d) => Some(d.execution_id.0@),
        HerderEvent::CxTaskReady { node_id, tags } => None,
        HerderEvent::Other => None,
    }
}

/// Events keep the state consistent: runners are known under their ids and idle exactly
/// where they have no work, and executions that have come to an end have nothing left to do.
pub proof fn events_keep_the_state_consistent(
    before: HerderState,
    flows: Map<Seq<char>, WorkflowEngine>,
    seq: u64,
    ev: HerderEvent,
    after: HerderState,
)
    requires
        before.consistent(),
        event_applied(before, flows, seq, ev, after),
    ensures
        after.consistent(),
{
    let s = HerderState { last_seq: seq, ..before };
    assert(s.consistent());
    match ev {
        HerderEvent::RunnerRegistered(d) => {
            let id = d.runner_id.0@;
            lemma_runners_stay_consistent(s, id, RunnerState::waiting(id), seq![], seq![]);
        },
        HerderEvent::RunnerDrained(d) => {
            let id = d.runner_id.0@;
            lemma_runners_stay_consistent(s, id, RunnerState::waiting(id), seq![], seq![]);
        },
        HerderEvent::RunnerHeartbeatMissed(d) => {
            let id = d.runner_id.0@;
            lemma_runners_stay_consistent(s.orphaned(d), id, RunnerState::waiting(id), seq![], seq![]);
        },
        HerderEvent::StepDispatched(d) => {
            let id = d.runner_id.0@;
            let r = s.runners[id].working(d.execution_id.0@, d.step@);
            if s.runners.dom().contains(id) {
                lemma_runners_stay_consistent(s, id, r, seq![], seq![]);
            }
        },
        HerderEvent::StepConfirmed(d) => {
            lemma_runners_stay_consistent(s, seq![], RunnerState::waiting(seq![]), d.execution_id.0@, d.step@);
        },
        HerderEvent::StepFailed(d) => {
            lemma_runners_stay_consistent(s, seq![], RunnerState::waiting(seq![]), d.execution_id.0@, d.step@);
        },
        HerderEvent::StepTimeout(d) => {
            lemma_runners_stay_consistent(s, seq![], RunnerState::waiting(seq![]), d.execution_id.0@, d.step@);
        },
        _ => {},
    }
}

/// An event changes no execution but the one it is about.
pub proof fn events_leave_other_executions_alone(
    before: HerderState,
    flows: Map<Seq<char>, WorkflowEngine>,
    seq: u64,
    ev: HerderEvent,
    after: HerderState,
    id: Seq<char>,
)
    requires
        event_applied(before, flows, seq, ev, after),
        subject(ev) != Some(id),
    ensures
        after.executions.dom().contains(id) == before.executions.dom().contains(id),
        before.executions.dom().contains(id) ==> after.executions[id] == before.executions[id],
{
}

/// An execution that has come to an end is not taken up again by any event but its
/// own creation. Its phase and output stay, and so does its status but for an event that
/// ends it once more.
pub proof fn ended_executions_stay_ended(
    before: HerderState,
    flows: Map<Seq<char>, WorkflowEngine>,
    seq: u64,
    ev: HerderEvent,
    after: HerderState,
    id: Seq<char>,
)
    requires
        before.consistent(),
        event_applied(before, flows, seq, ev, after),
        before.executions.dom().contains(id),
        before.executions[id].status != ExecStatus::Running,
        !(ev is ExecutionCreated),
    ensures
        after.executions.dom().contains(id),
        after.executions[id].status != ExecStatus::Running,
        after.executions[id].phase == PhaseView::Done,
        after.executions[id].last_output == before.executions[id].last_output,
        !(ev is ExecutionCompleted || ev is ExecutionEscalated || ev is ExecutionCancelled)
            ==> after.executions[id].status == before.executions[id].status,
        after.executions[id].phase == before.executions[id].phase,
{
    if subject(ev) != Some(id) {
        events_leave_other_executions_alone(before, flows, seq, ev, after, id);
    } else {
        events_keep_the_state_consistent(before, flows, seq, ev, after);
        let s = HerderState { last_seq: seq, ..before };
        assert(s.executions[id].consistent());
        match ev {
            HerderEvent::StepDispatched(d) => {
                assert(after == s.dispatched(d));
            },
            _ => {},
        }
    }
}

/// Replayed history queues nothing for trigger evaluation.
pub proof fn replay_queues_nothing(
    before: HerderState,
    flows: Map<Seq<char>, WorkflowEngine>,
    seq: u64,
    ev: HerderEvent,
    after: HerderState,
)
    requires
        before.replaying,
        event_applied(before, flows, seq, ev, after),
    ensures
        after.pending == before.pending,
        after.replaying,
{
}

/// A step that times out, or whose runner goes silent, burns no retry.
pub proof fn infrastructure_failures_burn_no_retry(
    before: HerderState,
    flows: Map<Seq<char>, WorkflowEngine>,
    seq: u64,
    ev: HerderEvent,
    after: HerderState,
    id: Seq<char>,
)
    requires
        ev is StepTimeout || ev is RunnerHeartbeatMissed,
        event_applied(before, flows, seq, ev, after),
        before.executions.dom().contains(id),
    ensures
        after.executions.dom().contains(id),
        after.executions[id].retry == before.executions[id].retry,
        after.executions[id].visits == before.executions[id].visits,
{
}

/// Every event is remembered by its number, and a ready node is queued for trigger
/// evaluation once history is over, behind those that wait already. No other event queues
/// anything, and none changes what is replayed.
pub proof fn events_are_numbered_and_nodes_queued(
    before: HerderState,
    flows: Map<Seq<char>, WorkflowEngine>,
    seq: u64,
    ev: HerderEvent,
    after: HerderState,
)
    requires
        event_applied(before, flows, seq, ev, after),
    ensures
        after.last_seq == seq,
        after.replaying == before.replaying,
        after.replay_target == before.replay_target,
        ev is CxTaskReady && !before.replaying ==> {
            &&& after.pending.len() == before.pending.len() + 1
            &&& forall|i: int| 0 <= i < before.pending.len() ==> after.pending[i] == #[trigger] before.pending[i]
            &&& after.pending.last().node_id@ == ev->CxTaskReady_node_id@
            &&& after.pending.last().tags == ev->CxTaskReady_tags
            &&& after.pending.last().event_type@ == "cx.task_ready"@
            &&& after.executions == before.executions
            &&& after.runners == before.runners
        },
        !(ev is CxTaskReady) ==> after.pending == before.pending,
{
    if ev is CxTaskReady && !before.replaying {
        assert forall|i: int| 0 <= i < before.pending.len() implies after.pending[i] == #[trigger] before.pending[i] by {
            assert(after.pending.drop_last()[i] == after.pending[i]);
        }
    }
}

/// A created execution runs with its own variables, workflow and origin. It is ready for a
/// first attempt of the step that it was created for, else of the first one that its workflow
/// declares, and has no history.
pub proof fn created_executions_are_ready_for_their_first_step(
    before: HerderState,
    flows: Map<Seq<char>, WorkflowEngine>,
    seq: u64,
    d: ExecutionCreatedData,
)
    ensures
        ({
            let after = before.after(flows, seq, HerderEvent::ExecutionCreated(d));
            let e = after.executions[d.execution_id.0@];
            &&& after.executions.dom().contains(d.execution_id.0@)
            &&& e.status == ExecStatus::Running
            &&& e.vars == d.vars.texts()
            &&& e.workflow == d.workflow@
            &&& e.origin == d.origin@
            &&& e.phase is Ready
            &&& e.phase->Ready_attempt == 1
            &&& d.start_step is Some ==> e.phase->Ready_step == d.start_step->0@
            &&& d.start_step is None && flows.dom().contains(d.workflow@) && flows[d.workflow@].step_list().len() > 0
                ==> e.phase->Ready_step == flows[d.workflow@].step_list()[0].0
            &&& forall|step: Seq<char>| #[trigger] visits(e.visits, step) == 0
            &&& forall|step: Seq<char>| #[trigger] e.retry.failures(step) == 0
            &&& e.last_output is None
            &&& !e.force_escalate
        }),
{
}

/// What a step of a running execution reports moves the execution on: dispatched, it waits;
/// done, its output is kept; confirmed, it is to be advanced with a clean record; failed, the
/// failure is to be handled; timed out, the same attempt is ready again.
pub proof fn step_events_move_running_executions(
    before: HerderState,
    flows: Map<Seq<char>, WorkflowEngine>,
    seq: u64,
    ev: HerderEvent,
    id: Seq<char>,
)
    requires
        before.executions.dom().contains(id),
        before.executions[id].status == ExecStatus::Running,
        subject(ev) == Some(id),
    ensures
        ({
            let old_e = before.executions[id];
            let after = before.after(flows, seq, ev);
            let e = after.executions[id];
            &&& after.executions.dom().contains(id)
            &&& match ev {
                HerderEvent::StepDispatched(d) => {
                    &&& e.phase == PhaseView::AwaitingStep
                    &&& e.status == ExecStatus::Running
                    &&& !e.force_escalate
                    &&& e.last_output == old_e.last_output
                    &&& e.retry == old_e.retry
                    &&& !before.replaying ==> e.visits == old_e.visits
                    &&& before.replaying && visits(old_e.visits, d.step@) < u32::MAX ==> visits(e.visits, d.step@)
                        == visits(old_e.visits, d.step@) + 1
                },
                HerderEvent::StepDone(d) => e.last_output == Some(d.output@) && e.phase == old_e.phase && e.status
                    == ExecStatus::Running && e.retry == old_e.retry && e.visits == old_e.visits,
                HerderEvent::StepSignals(d) => {
                    &&& e.force_escalate <==> old_e.force_escalate || exists|i: int|
                        0 <= i < d.signal_matches@.len() && !(#[trigger] d.signal_matches@[i]).retriable
                    &&& e.phase == old_e.phase
                    &&& e.status == ExecStatus::Running
                    &&& e.last_output == old_e.last_output
                },
                HerderEvent::StepConfirmed(d) => {
                    &&& e.phase == (PhaseView::NeedsAdvance { step: d.step@ })
                    &&& e.status == ExecStatus::Running
                    &&& e.last_output == old_e.last_output
                    &&& e.visits == old_e.visits
                    &&& !e.force_escalate
                    &&& forall|step: Seq<char>| #[trigger] e.retry.failures(step) == 0
                },
                HerderEvent::StepFailed(d) => {
                    &&& e.phase == (PhaseView::NeedsFailure { step: d.step@, error: d.error@ })
                    &&& e.status == ExecStatus::Running
                    &&& e.retry == old_e.retry
                    &&& e.force_escalate == old_e.force_escalate
                    &&& e.visits == old_e.visits
                },
                HerderEvent::StepTimeout(d) => {
                    &&& e.phase == (PhaseView::Ready { step: d.step@, attempt: d.attempt })
                    &&& e.status == ExecStatus::Running
                    &&& e.retry == old_e.retry
                    &&& e.visits == old_e.visits
                },
                HerderEvent::ExecutionCompleted(d) => e.status == ExecStatus::Completed && e.phase == PhaseView::Done,
                HerderEvent::ExecutionEscalated(d) => e.status == ExecStatus::Escalated && e.phase == PhaseView::Done,
                HerderEvent::ExecutionCancelled(d) => e.status == ExecStatus::Cancelled && e.phase == PhaseView::Done,
                HerderEvent::RunnerHeartbeatMissed(d) => {
                    &&& e.status == ExecStatus::Running
                    &&& e.retry == old_e.retry
                    &&& d.step is Some && d.attempt is Some && old_e.phase == PhaseView::AwaitingStep ==> e.phase == (
                    PhaseView::Ready { step: d.step->0@, attempt: d.attempt->0 })
                    &&& d.step is None || d.attempt is None || old_e.phase != PhaseView::AwaitingStep ==> e.phase
                        == old_e.phase
                },
                _ => true,
            }
        }),
{
}

/// A runner that registers is idle, one that is drained or goes silent is gone, and one that
/// a step is dispatched to is busy with it. The other runners stay as they were.
pub proof fn runners_come_and_go(
    before: HerderState,
    flows: Map<Seq<char>, WorkflowEngine>,
    seq: u64,
    ev: HerderEvent,
    other: Seq<char>,
)
    ensures
        ({
            let after = before.after(flows, seq, ev);
            match ev {
                HerderEvent::RunnerRegistered(d) => {
                    &&& after.runners.dom().contains(d.runner_id.0@)
                    &&& after.runners[d.runner_id.0@].id == d.runner_id.0@
                    &&& after.runners[d.runner_id.0@].idle
                    &&& other != d.runner_id.0@ ==> after.runners.dom().contains(other) == before.runners.dom().contains(
                        other,
                    ) && (before.runners.dom().contains(other) ==> after.runners[other] == before.runners[other])
                },
                HerderEvent::RunnerDrained(d) => {
                    &&& !after.runners.dom().contains(d.runner_id.0@)
                    &&& other != d.runner_id.0@ ==> after.runners.dom().contains(other) == before.runners.dom().contains(
                        other,
                    ) && (before.runners.dom().contains(other) ==> after.runners[other] == before.runners[other])
                },
                HerderEvent::RunnerHeartbeatMissed(d) => {
                    &&& !after.runners.dom().contains(d.runner_id.0@)
                    &&& other != d.runner_id.0@ ==> after.runners.dom().contains(other) == before.runners.dom().contains(
                        other,
                    ) && (before.runners.dom().contains(other) ==> after.runners[other] == before.runners[other])
                },
                HerderEvent::StepDispatched(d) => {
                    &&& before.runners.dom().contains(d.runner_id.0@) ==> {
                        let r = after.runners[d.runner_id.0@];
                        &&& after.runners.dom().contains(d.runner_id.0@)
                        &&& !r.idle
                        &&& r.execution == Some(d.execution_id.0@)
                        &&& r.step == Some(d.step@)
                    }
                    &&& other != d.runner_id.0@ && before.runners.dom().contains(other)
                        ==> after.runners.dom().contains(other) && after.runners[other] == before.runners[other]
                },
                _ => true,
            }
        }),
{
}

/// The runner that works on a step, the first in order, is idle again once the step is
/// confirmed, failed or timed out, and the other runners stay as they were.
pub proof fn finished_steps_free_their_runner(
    before: HerderState,
    flows: Map<Seq<char>, WorkflowEngine>,
    seq: u64,
    ev: HerderEvent,
    execution: Seq<char>,
    step: Seq<char>,
    i: int,
    other: Seq<char>,
)
    requires
        match ev {
            HerderEvent::StepConfirmed(d) => d.execution_id.0@ == execution && d.step@ == step,
            HerderEvent::StepFailed(d) => d.execution_id.0@ == execution && d.step@ == step,
            HerderEvent::StepTimeout(d) => d.execution_id.0@ == execution && d.step@ == step,
            _ => false,
        },
        0 <= i < before.runner_order.len(),
        before.runners[before.runner_order[i]].works_on(execution, step),
        forall|j: int| 0 <= j < i ==> !before.runners[#[trigger] before.runner_order[j]].works_on(execution, step),
    ensures
        ({
            let after = before.after(flows, seq, ev);
            let k = before.runner_order[i];
            &&& after.runners.dom().contains(k)
            &&& after.runners[k].idle
            &&& after.runners[k].execution is None
            &&& after.runners[k].step is None
            &&& after.runners[k].id == before.runners[k].id
            &&& other != k && before.runners.dom().contains(other) ==> after.runners.dom().contains(other)
                && after.runners[other] == before.runners[other]
            &&& after.runner_order == before.runner_order
        }),
{
    lemma_first_working_is(before.runner_order, before.runners, execution, step, i);
}

proof fn lemma_first_working_is(
    order: Seq<Seq<char>>,
    runners: Map<Seq<char>, RunnerState>,
    execution: Seq<char>,
    step: Seq<char>,
    i: int,
)
    requires
        0 <= i < order.len(),
        runners[order[i]].works_on(execution, step),
        forall|j: int| 0 <= j < i ==> !runners[#[trigger] order[j]].works_on(execution, step),
    ensures
        first_working(order, runners, execution, step) == Some(order[i]),
    decreases order.len(),
{
    if i > 0 {
        let rest = order.skip(1);
        assert(!runners[order[0]].works_on(execution, step));
        assert forall|j: int| 0 <= j < i - 1 implies !runners[#[trigger] rest[j]].works_on(execution, step) by {
            assert(rest[j] == order[j + 1]);
        }
        lemma_first_working_is(rest, runners, execution, step, i - 1);
    }
}

/// An event type is of a kind exactly where it bears the name of that kind.
pub proof fn event_types_have_their_kinds(event_type: Seq<char>)
    ensures
        kind_of(event_type) == HerderEventKind::RunnerRegistered <==> event_type == "runner.registered"@,
        kind_of(event_type) == HerderEventKind::RunnerDrained <==> event_type == "runner.drained"@,
        kind_of(event_type) == HerderEventKind::RunnerHeartbeatMissed <==> event_type == "runner.heartbeat_missed"@,
        kind_of(event_type) == HerderEventKind::ExecutionCreated <==> event_type == "execution.created"@,
        kind_of(event_type) == HerderEventKind::ExecutionCompleted <==> event_type == "execution.completed"@,
        kind_of(event_type) == HerderEventKind::ExecutionEscalated <==> event_type == "execution.escalated"@,
        kind_of(event_type) == HerderEventKind::ExecutionCancelled <==> event_type == "execution.cancelled"@,
        kind_of(event_type) == HerderEventKind::StepDispatched <==> event_type == "step.dispatched"@,
        kind_of(event_type) == HerderEventKind::StepDone <==> event_type == "step.done"@,
        kind_of(event_type) == HerderEventKind::StepSignals <==> event_type == "step.signals"@,
        kind_of(event_type) == HerderEventKind::StepConfirmed <==> event_type == "step.confirmed"@,
        kind_of(event_type) == HerderEventKind::StepFailed <==> event_type == "step.failed"@,
        kind_of(event_type) == HerderEventKind::StepTimeout <==> event_type == "step.timeout"@,
        kind_of(event_type) == HerderEventKind::CxTaskReady <==> event_type == "cx.task_ready"@,
{
    reveal_strlit("runner.registered");
    reveal_strlit("runner.drained");
    reveal_strlit("runner.heartbeat_missed");
    reveal_strlit("execution.created");
    reveal_strlit("execution.completed");
    reveal_strlit("execution.escalated");
    reveal_strlit("execution.cancelled");
    reveal_strlit("step.dispatched");
    reveal_strlit("step.done");
    reveal_strlit("step.signals");
    reveal_strlit("step.confirmed");
    reveal_strlit("step.failed");
    reveal_strlit("step.timeout");
    reveal_strlit("cx.task_ready");
    assert("runner.registered"@.len() == 17);
    assert("runner.drained"@.len() == 14);
    assert("runner.heartbeat_missed"@.len() == 23);
    assert("execution.created"@.len() == 17);
    assert("execution.completed"@.len() == 19);
    assert("execution.escalated"@.len() == 19);
    assert("execution.cancelled"@.len() == 19);
    assert("step.dispatched"@.len() == 15);
    assert("step.done"@.len() == 9);
    assert("step.signals"@.len() == 12);
    assert("step.confirmed"@.len() == 14);
    assert("step.failed"@.len() == 11);
    assert("step.timeout"@.len() == 12);
    assert("cx.task_ready"@.len() == 13);
    assert("runner.registered"@[0] != "execution.created"@[0]);
    assert("execution.completed"@[10] != "execution.escalated"@[10]);
    assert("execution.completed"@[11] != "execution.cancelled"@[11]);
    assert("execution.escalated"@[10] != "execution.cancelled"@[10]);
    assert("runner.drained"@[0] != "step.confirmed"@[0]);
    assert("step.signals"@[5] != "step.timeout"@[5]);
}

/// History is over exactly from the event on that the server had reached at the start, and
/// stays over; nothing else changes with it.
pub proof fn history_ends_where_the_server_was(s: HerderState)
    ensures
        s.last_seq >= s.replay_target ==> !s.caught_up().replaying,
        s.last_seq < s.replay_target ==> s.caught_up().replaying == s.replaying,
        !s.replaying ==> s.caught_up() == s,
        s.caught_up().executions == s.executions,
        s.caught_up().runners == s.runners,
        s.caught_up().pending == s.pending,
        s.caught_up().last_seq == s.last_seq,
{
}

} // verus!
