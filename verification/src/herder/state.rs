//! What the herder knows.

use vstd::prelude::*;

use crate::events::{ExecutionOrigin, OriginView};
use crate::strmap::StringMap;
use crate::text::text_option;
use crate::types::RunnerId;
use crate::workflow::{RetryTracker, RetryView, TriggerDef, WorkflowEngine};

verus! {

/// The outcome of an execution so far.
#[derive(Debug, Clone, Copy, PartialEq, Eq, Structural)]
pub enum ExecStatus {
    Running,
    Completed,
    Escalated,
    Cancelled,
}

/// The name of a status.
pub open spec fn status_text(s: ExecStatus) -> Seq<char> {
    match s {
        ExecStatus::Running => "running"@,
        ExecStatus::Completed => "completed"@,
        ExecStatus::Escalated => "escalated"@,
        ExecStatus::Cancelled => "cancelled"@,
    }
}

impl ExecStatus {
    /// The name of the status.
    pub fn as_str(&self) -> (s: &'static str)
        ensures
            s@ == status_text(*self),
    {
        match self {
            ExecStatus::Running => "running",
            ExecStatus::Completed => "completed",
            ExecStatus::Escalated => "escalated",
            ExecStatus::Cancelled => "cancelled",
        }
    }
}

/// What the scheduler needs to do for an execution.
#[derive(Debug)]
pub enum ExecPhase {
    /// Step is in-flight on a runner — nothing to do.
    AwaitingStep,
    /// Step confirmed — scheduler should advance the workflow.
    NeedsAdvance { step: String },
    /// Step failed — scheduler should retry or escalate.
    NeedsFailure { step: String, error: String },
    /// Next step determined — needs dispatching (or inline action).
    Ready { step: String, attempt: u32 },
    /// Terminal — completed, escalated, or cancelled.
    Done,
}

/// What a phase is.
pub enum PhaseView {
    AwaitingStep,
    NeedsAdvance { step: Seq<char> },
    NeedsFailure { step: Seq<char>, error: Seq<char> },
    Ready { step: Seq<char>, attempt: u32 },
    Done,
}

impl View for ExecPhase {
    type V = PhaseView;

    open spec fn view(&self) -> PhaseView {
        match self {
            ExecPhase::AwaitingStep => PhaseView::AwaitingStep,
            ExecPhase::NeedsAdvance { step } => PhaseView::NeedsAdvance { step: step@ },
            ExecPhase::NeedsFailure { step, error } => PhaseView::NeedsFailure { step: step@, error: error@ },
            ExecPhase::Ready { step, attempt } => PhaseView::Ready { step: step@, attempt: *attempt },
            ExecPhase::Done => PhaseView::Done,
        }
    }
}

/// Local view of a runner's state, rebuilt from the event stream.
#[derive(Debug)]
pub struct RunnerView {
    pub id: RunnerId,
    pub idle: bool,
    pub current_execution: Option<String>,
    pub current_step: Option<String>,
}

/// What is known of a runner.
pub struct RunnerState {
    pub id: Seq<char>,
    pub idle: bool,
    pub execution: Option<Seq<char>>,
    pub step: Option<Seq<char>>,
}

impl View for RunnerView {
    type V = RunnerState;

    open spec fn view(&self) -> RunnerState {
        RunnerState {
            id: self.id.0@,
            idle: self.idle,
            execution: text_option(self.current_execution),
            step: text_option(self.current_step),
        }
    }
}

impl RunnerState {
    /// A runner without work.
    pub open spec fn waiting(id: Seq<char>) -> RunnerState {
        RunnerState { id, idle: true, execution: None, step: None }
    }

    /// The runner at work on a step.
    pub open spec fn working(self, execution: Seq<char>, step: Seq<char>) -> RunnerState {
        RunnerState { id: self.id, idle: false, execution: Some(execution), step: Some(step) }
    }

    /// The runner is at work on a step.
    pub open spec fn works_on(self, execution: Seq<char>, step: Seq<char>) -> bool {
        self.execution == Some(execution) && self.step == Some(step)
    }

    /// A runner is idle exactly where it has no work.
    pub open spec fn consistent(self) -> bool {
        &&& self.idle <==> self.execution is None
        &&& self.idle <==> self.step is None
    }
}

impl RunnerView {
    /// Gives the runner a step to work on.
    pub fn start(&mut self, execution: &str, step: &str)
        ensures
            final(self)@ == old(self)@.working(execution@, step@),
    {
        self.idle = false;
        self.current_execution = Some(execution.to_owned());
        self.current_step = Some(step.to_owned());
    }

    /// Takes the runner's work away.
    pub fn release(&mut self)
        ensures
            final(self)@ == RunnerState::waiting(old(self)@.id),
    {
        self.idle = true;
        self.current_execution = None;
        self.current_step = None;
    }
}

/// Local view of an execution, rebuilt from the event stream.
#[derive(Debug)]
pub struct ExecutionView {
    pub vars: StringMap<String>,
    pub origin: ExecutionOrigin,
    pub workflow: String,
    pub status: ExecStatus,
    pub phase: ExecPhase,
    pub visit_counts: StringMap<u32>,
    pub last_output: Option<String>,
    pub retry_tracker: RetryTracker,
    /// The step in flight reported a failure that retrying cannot mend.
    pub force_escalate: bool,
}

/// What is known of an execution.
pub struct ExecState {
    pub vars: Map<Seq<char>, Seq<char>>,
    pub origin: OriginView,
    pub workflow: Seq<char>,
    pub status: ExecStatus,
    pub phase: PhaseView,
    pub visits: Map<Seq<char>, u32>,
    pub last_output: Option<Seq<char>>,
    pub retry: RetryView,
    pub force_escalate: bool,
}

impl View for ExecutionView {
    type V = ExecState;

    open spec fn view(&self) -> ExecState {
        ExecState {
            vars: self.vars.texts(),
            origin: self.origin@,
            workflow: self.workflow@,
            status: self.status,
            phase: self.phase@,
            visits: self.visit_counts@,
            last_output: text_option(self.last_output),
            retry: self.retry_tracker@,
            force_escalate: self.force_escalate,
        }
    }
}

impl ExecState {
    /// The execution in another phase.
    pub open spec fn with_phase(self, phase: PhaseView) -> ExecState {
        ExecState { phase, ..self }
    }

    /// The execution at its end.
    pub open spec fn ended(self, status: ExecStatus) -> ExecState {
        ExecState { status, phase: PhaseView::Done, ..self }
    }

    /// An execution that has come to an end has nothing left to do.
    pub open spec fn consistent(self) -> bool {
        self.status != ExecStatus::Running ==> self.phase == PhaseView::Done
    }
}

/// A pending trigger to evaluate in the next scheduling pass.
#[derive(Debug)]
pub struct PendingTrigger {
    pub node_id: String,
    pub event_type: String,
    pub tags: Vec<String>,
}

/// The scheduler's state.
#[derive(Debug)]
pub struct Herder {
    pub pool_target: usize,
    // Local state rebuilt from the event stream
    pub runners: StringMap<RunnerView>,
    pub executions: StringMap<ExecutionView>,
    pub workflows: StringMap<WorkflowEngine>,
    pub triggers: Vec<TriggerDef>,
    pub pending_triggers: Vec<PendingTrigger>,
    pub last_seq: u64,
    /// True while replaying historical events — suppresses side effects.
    pub replaying: bool,
    /// The server's current seq at startup, used to detect end of replay.
    pub replay_target: u64,
}

/// The states of runners.
pub open spec fn runner_states(m: Map<Seq<char>, RunnerView>) -> Map<Seq<char>, RunnerState> {
    m.map_values(|r: RunnerView| r@)
}

/// The states of executions.
pub open spec fn exec_states(m: Map<Seq<char>, ExecutionView>) -> Map<Seq<char>, ExecState> {
    m.map_values(|e: ExecutionView| e@)
}

/// What the herder knows of runners and executions. Keys stand in the order in which
/// they were first seen.
pub struct HerderState {
    pub runners: Map<Seq<char>, RunnerState>,
    pub runner_order: Seq<Seq<char>>,
    pub executions: Map<Seq<char>, ExecState>,
    pub exec_order: Seq<Seq<char>>,
    pub pending: Seq<PendingTrigger>,
    pub last_seq: u64,
    pub replaying: bool,
    pub replay_target: u64,
}

impl View for Herder {
    type V = HerderState;

    open spec fn view(&self) -> HerderState {
        HerderState {
            runners: runner_states(self.runners@),
            runner_order: self.runners.keys(),
            executions: exec_states(self.executions@),
            exec_order: self.executions.keys(),
            pending: self.pending_triggers@,
            last_seq: self.last_seq,
            replaying: self.replaying,
            replay_target: self.replay_target,
        }
    }
}

/// What stays as it is while the herder works: the configuration.
pub open spec fn same_config(a: Herder, b: Herder) -> bool {
    &&& a.pool_target == b.pool_target
    &&& a.workflows == b.workflows
    &&& a.triggers == b.triggers
}

/// The order of keys behind an insertion.
pub open spec fn order_with(order: Seq<Seq<char>>, known: bool, key: Seq<char>) -> Seq<Seq<char>> {
    if known {
        order
    } else {
        order.push(key)
    }
}

/// The order of keys behind a removal.
pub open spec fn order_without(order: Seq<Seq<char>>, known: bool, key: Seq<char>) -> Seq<Seq<char>> {
    if known {
        order.remove(order.index_of(key))
    } else {
        order
    }
}

impl HerderState {
    /// The state with what is known of an execution set.
    pub open spec fn put_execution(self, id: Seq<char>, e: ExecState) -> HerderState {
        HerderState {
            executions: self.executions.insert(id, e),
            exec_order: order_with(self.exec_order, self.executions.dom().contains(id), id),
            ..self
        }
    }

    /// The state with what is known of a runner set.
    pub open spec fn put_runner(self, id: Seq<char>, r: RunnerState) -> HerderState {
        HerderState {
            runners: self.runners.insert(id, r),
            runner_order: order_with(self.runner_order, self.runners.dom().contains(id), id),
            ..self
        }
    }

    /// The state without a runner.
    pub open spec fn drop_runner(self, id: Seq<char>) -> HerderState {
        HerderState {
            runners: self.runners.remove(id),
            runner_order: order_without(self.runner_order, self.runners.dom().contains(id), id),
            ..self
        }
    }

    /// Runners are known under their ids, each once in order, and are idle exactly where
    /// they have no work; executions that have come to an end have nothing left to do.
    pub open spec fn consistent(self) -> bool {
        &&& self.runner_order.no_duplicates()
        &&& forall|i: int|
            0 <= i < self.runner_order.len() ==> self.runners.dom().contains(#[trigger] self.runner_order[i])
        &&& forall|k: Seq<char>| #[trigger]
            self.runners.dom().contains(k) ==> self.runner_order.contains(k) && self.runners[k].id == k
        &&& forall|k: Seq<char>| #[trigger] self.runners.dom().contains(k) ==> self.runners[k].consistent()
        &&& forall|k: Seq<char>| #[trigger] self.executions.dom().contains(k) ==> self.executions[k].consistent()
    }
}

/// The first runner, in order, that is at work on a step.
pub open spec fn first_working(
    order: Seq<Seq<char>>,
    runners: Map<Seq<char>, RunnerState>,
    execution: Seq<char>,
    step: Seq<char>,
) -> Option<Seq<char>>
    decreases order.len(),
{
    if order.len() == 0 {
        None
    } else if runners[order[0]].works_on(execution, step) {
        Some(order[0])
    } else {
        first_working(order.skip(1), runners, execution, step)
    }
}

/// The first runner, in order, that is idle.
pub open spec fn first_idle(order: Seq<Seq<char>>, runners: Map<Seq<char>, RunnerState>) -> Option<Seq<char>>
    decreases order.len(),
{
    if order.len() == 0 {
        None
    } else if runners[order[0]].idle {
        Some(order[0])
    } else {
        first_idle(order.skip(1), runners)
    }
}

impl HerderState {
    /// The state with the runner that is at work on a step freed.
    pub open spec fn freed(self, execution: Seq<char>, step: Seq<char>) -> HerderState {
        match first_working(self.runner_order, self.runners, execution, step) {
            Some(k) => HerderState {
                runners: self.runners.insert(k, RunnerState::waiting(self.runners[k].id)),
                ..self
            },
            None => self,
        }
    }
}

/// The state stays consistent where a runner is set under its id, where one leaves, and
/// where one is freed.
pub proof fn lemma_runners_stay_consistent(
    s: HerderState,
    id: Seq<char>,
    r: RunnerState,
    execution: Seq<char>,
    step: Seq<char>,
)
    requires
        s.consistent(),
    ensures
        r.consistent() && r.id == id ==> s.put_runner(id, r).consistent(),
        s.drop_runner(id).consistent(),
        s.freed(execution, step).consistent(),
{
    let order = s.runner_order;
    let put = s.put_runner(id, r);
    assert forall|k: Seq<char>| #[trigger] put.runners.dom().contains(k) implies put.runner_order.contains(k) by {
        if s.runners.dom().contains(k) {
            let i = order.index_of(k);
            assert(put.runner_order[i] == k);
        } else {
            assert(put.runner_order[order.len() as int] == k);
        }
    }
    assert(put.runner_order.no_duplicates()) by {
        if !s.runners.dom().contains(id) {
            assert forall|i: int| 0 <= i < order.len() implies order[i] != id by {
                assert(s.runners.dom().contains(order[i]));
            }
        }
    }
    let gone = s.drop_runner(id);
    if s.runners.dom().contains(id) {
        let at = order.index_of(id);
        assert(order[at] == id);
        assert forall|i: int| 0 <= i < gone.runner_order.len() implies gone.runner_order[i] == order[if i < at {
            i
        } else {
            i + 1
        }] && gone.runners.dom().contains(#[trigger] gone.runner_order[i]) by {
            assert(s.runners.dom().contains(order[if i < at { i } else { i + 1 }]));
        }
        assert forall|k: Seq<char>| #[trigger] gone.runners.dom().contains(k) implies gone.runner_order.contains(k) by {
            assert(s.runners.dom().contains(k));
            let i = order.index_of(k);
            assert(order[i] == k);
            assert(gone.runner_order[if i < at { i } else { i - 1 }] == k);
        }
    } else {
        assert(gone.runners =~= s.runners);
    }
    lemma_first_working(order, s.runners, execution, step);
    let freed = s.freed(execution, step);
    assert(freed.runners.dom() =~= s.runners.dom());
}

proof fn lemma_first_working(
    order: Seq<Seq<char>>,
    runners: Map<Seq<char>, RunnerState>,
    execution: Seq<char>,
    step: Seq<char>,
)
    requires
        forall|i: int| 0 <= i < order.len() ==> runners.dom().contains(#[trigger] order[i]),
    ensures
        match first_working(order, runners, execution, step) {
            Some(k) => runners.dom().contains(k),
            None => true,
        },
    decreases order.len(),
{
    if order.len() > 0 {
        assert forall|i: int| 0 <= i < order.skip(1).len() implies runners.dom().contains(
            #[trigger] order.skip(1)[i],
        ) by {
            assert(order.skip(1)[i] == order[i + 1]);
        }
        assert(runners.dom().contains(order[0]));
        lemma_first_working(order.skip(1), runners, execution, step);
    }
}

/// Setting a runner sets its state.
pub proof fn lemma_put_runner(m: Map<Seq<char>, RunnerView>, k: Seq<char>, r: RunnerView)
    ensures
        runner_states(m.insert(k, r)) == runner_states(m).insert(k, r@),
{
    assert(runner_states(m.insert(k, r)) =~= runner_states(m).insert(k, r@));
}

/// Removing a runner removes its state.
pub proof fn lemma_drop_runner(m: Map<Seq<char>, RunnerView>, k: Seq<char>)
    ensures
        runner_states(m.remove(k)) == runner_states(m).remove(k),
{
    assert(runner_states(m.remove(k)) =~= runner_states(m).remove(k));
}

/// Setting an execution sets its state.
pub proof fn lemma_put_execution(m: Map<Seq<char>, ExecutionView>, k: Seq<char>, e: ExecutionView)
    ensures
        exec_states(m.insert(k, e)) == exec_states(m).insert(k, e@),
{
    assert(exec_states(m.insert(k, e)) =~= exec_states(m).insert(k, e@));
}

fn is_text(o: &Option<String>, s: &str) -> (r: bool)
    ensures
        r == (text_option(*o) == Some(s@)),
{
    match o {
        Some(t) => crate::text::same(t.as_str(), s),
        None => false,
    }
}

impl Herder {
    /// A herder that knows nothing yet and is about to replay the event log.
    pub fn new(pool_target: usize) -> (h: Self)
        ensures
            h.pool_target == pool_target,
            h@.consistent(),
            h@ == (HerderState {
                runners: Map::empty(),
                runner_order: seq![],
                executions: Map::empty(),
                exec_order: seq![],
                pending: seq![],
                last_seq: 0,
                replaying: true,
                replay_target: 0,
            }),
            h.workflows@ == Map::<Seq<char>, WorkflowEngine>::empty(),
            h.triggers@ == Seq::<TriggerDef>::empty(),
    {
        let h = Herder {
            pool_target,
            runners: StringMap::new(),
            executions: StringMap::new(),
            workflows: StringMap::new(),
            triggers: Vec::new(),
            pending_triggers: Vec::new(),
            last_seq: 0,
            replaying: true,
            replay_target: 0,
        };
        assert(runner_states(h.runners@) =~= Map::empty());
        assert(exec_states(h.executions@) =~= Map::empty());
        assert(h.runners.keys() =~= seq![]);
        assert(h.executions.keys() =~= seq![]);
        h
    }

    /// Frees the runner that is at work on a step.
    pub fn free_runner_for_step(&mut self, execution_id: &str, step: &str)
        ensures
            final(self)@ == old(self)@.freed(execution_id@, step@),
            same_config(*final(self), *old(self)),
    {
        let ghost order = self.runners.keys();
        let ghost states = runner_states(self.runners@);
        let mut i: usize = 0;
        assert(order.skip(0) =~= order);
        while i < self.runners.len()
            invariant
                *self == *old(self),
                order == self.runners.keys(),
                states == runner_states(self.runners@),
                0 <= i <= order.len(),
                first_working(order, states, execution_id@, step@) == first_working(
                    order.skip(i as int),
                    states,
                    execution_id@,
                    step@,
                ),
            decreases order.len() - i,
        {
            assert(order.skip(i as int).skip(1) =~= order.skip(i + 1));
            let (key, runner) = self.runners.entry(i);
            assert(states[order[i as int]] == runner@);
            if is_text(&runner.current_execution, execution_id) && is_text(&runner.current_step, step) {
                let key = key.clone();
                let ghost before = self.runners@;
                if let Some(r) = self.runners.get_mut(key.as_str()) {
                    r.release();
                }
                proof {
                    lemma_put_runner(before, key@, self.runners@[key@]);
                    assert(self.runners@ =~= before.insert(key@, self.runners@[key@]));
                }
                return ;
            }
            i += 1;
        }
    }

    /// Finds a runner without work.
    pub fn find_idle_runner(&self) -> (r: Option<RunnerId>)
        ensures
            match r {
                Some(id) => {
                    &&& first_idle(self@.runner_order, self@.runners) is Some
                    &&& id.0@ == self@.runners[first_idle(self@.runner_order, self@.runners)->0].id
                },
                None => first_idle(self@.runner_order, self@.runners) is None,
            },
    {
        match self.idle_key() {
            Some(key) => match self.runners.get(key.as_str()) {
                Some(r) => Some(r.id.clone()),
                None => None,
            },
            None => None,
        }
    }

    fn idle_key(&self) -> (r: Option<String>)
        ensures
            match r {
                Some(k) => first_idle(self@.runner_order, self@.runners) == Some(k@) && self.runners@.dom().contains(
                    k@,
                ),
                None => first_idle(self@.runner_order, self@.runners) is None,
            },
    {
        let ghost order = self.runners.keys();
        let ghost states = runner_states(self.runners@);
        let mut i: usize = 0;
        assert(order.skip(0) =~= order);
        while i < self.runners.len()
            invariant
                order == self.runners.keys(),
                states == runner_states(self.runners@),
                0 <= i <= order.len(),
                first_idle(order, states) == first_idle(order.skip(i as int), states),
            decreases order.len() - i,
        {
            assert(order.skip(i as int).skip(1) =~= order.skip(i + 1));
            let (key, runner) = self.runners.entry(i);
            assert(states[order[i as int]] == runner@);
            if runner.idle {
                return Some(key.clone());
            }
            i += 1;
        }
        None
    }
}

} // verus!
