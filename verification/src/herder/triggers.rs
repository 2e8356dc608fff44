//! Triggers: which executions the state of cx nodes calls for.

use vstd::prelude::*;

use crate::client::CxStateSnapshot;
use crate::events::{
    origins_match_for_dedup, same_subject, EnvelopeView, EventEnvelope, ExecutionOrigin, OriginView,
    TriggerFailedData,
};
use crate::herder::state::{
    lemma_put_execution, same_config, ExecPhase, ExecState, ExecStatus, ExecutionView, Herder, HerderState,
    PendingTrigger, PhaseView,
};
use crate::json::{member_views, members_are_read_by_name, Json, JsonView};
use crate::strmap::StringMap;
use crate::text::{copy_texts, same, views};
use crate::types::EventSeq;
use crate::workflow::{event_template, vars_built, RetryTracker, RetryView, TriggerDef, TriggerError};

verus! {

/// A cx node that triggers are evaluated for.
#[derive(Debug)]
pub struct NodeRef {
    pub node_id: String,
    pub event_type: String,
    pub tags: Vec<String>,
    /// The state that the node is in now, where it is known.
    pub state: Option<String>,
}

/// What a node is.
pub struct NodeView {
    pub node_id: Seq<char>,
    pub event_type: Seq<char>,
    pub tags: Seq<Seq<char>>,
    pub state: Option<Seq<char>>,
}

impl View for NodeRef {
    type V = NodeView;

    open spec fn view(&self) -> NodeView {
        NodeView {
            node_id: self.node_id@,
            event_type: self.event_type@,
            tags: views(self.tags@),
            state: match self.state {
                Some(s) => Some(s@),
                None => None,
            },
        }
    }
}

/// JSON strings.
pub open spec fn json_strings(v: Seq<Seq<char>>) -> Seq<JsonView> {
    v.map_values(|s: Seq<char>| JsonView::String(s))
}

/// The event that a node stands for: the node is its subject, and its data holds the
/// node's id, its tags and, where it is known, its state.
pub open spec fn node_event(n: NodeView, seq: u64) -> EnvelopeView {
    EnvelopeView {
        seq: EventSeq(seq),
        ts: seq![],
        source: "cx"@,
        kind: n.event_type,
        subject_id: n.node_id,
        data: JsonView::Object(
            seq![
                ("node_id"@, JsonView::String(n.node_id)),
                ("tags"@, JsonView::Array(json_strings(n.tags))),
                (
                    "state"@,
                    match n.state {
                        Some(s) => JsonView::String(s),
                        None => JsonView::Null,
                    },
                ),
            ],
        ),
    }
}

/// Lists JSON strings.
pub fn json_list(v: &Vec<String>) -> (r: Json)
    ensures
        r@ == JsonView::Array(json_strings(views(v@))),
{
    let mut items: Vec<Json> = Vec::new();
    let mut i: usize = 0;
    while i < v.len()
        invariant
            0 <= i <= v@.len(),
            items@.len() == i,
            forall|j: int| 0 <= j < i ==> (#[trigger] items@[j])@ == JsonView::String(v@[j]@),
        decreases v@.len() - i,
    {
        items.push(Json::String(v[i].clone()));
        i += 1;
    }
    let r = Json::Array(items);
    assert(r@->Array_0 =~= json_strings(views(v@)));
    r
}

impl NodeRef {
    /// The event that the node stands for.
    pub fn event(&self, seq: u64) -> (e: EventEnvelope)
        ensures
            e@ == node_event(self@, seq),
    {
        let mut data: Vec<(String, Json)> = Vec::new();
        data.push(("node_id".to_owned(), Json::text(self.node_id.as_str())));
        data.push(("tags".to_owned(), json_list(&self.tags)));
        let state = match &self.state {
            Some(s) => Json::text(s.as_str()),
            None => Json::Null,
        };
        data.push(("state".to_owned(), state));
        assert(member_views(data@) =~= node_event(self@, seq).data->Object_0);
        let e = EventEnvelope {
            seq: EventSeq(seq),
            ts: String::new(),
            source: "cx".to_owned(),
            kind: self.event_type.clone(),
            subject_id: self.node_id.clone(),
            data: Json::object(data),
        };
        assert(e@.ts =~= seq![]);
        e
    }

    /// The origin of the executions that the node calls for.
    pub fn origin(&self, seq: u64) -> (o: ExecutionOrigin)
        ensures
            o@ == node_origin(self@, seq),
    {
        ExecutionOrigin::Event {
            source: "cx".to_owned(),
            kind: self.event_type.clone(),
            subject_id: self.node_id.clone(),
            seq: EventSeq(seq),
        }
    }
}

/// The origin of the executions that a node calls for.
pub open spec fn node_origin(n: NodeView, seq: u64) -> OriginView {
    OriginView::Event { source: "cx"@, kind: n.event_type, subject_id: n.node_id, seq: EventSeq(seq) }
}

/// A node that is done with.
pub open spec fn settled(n: NodeView) -> bool {
    n.state == Some("integrated"@) || n.state == Some("shadowed"@)
}

/// Some execution of a workflow with an origin runs or waits for a human. The herder
/// does not start another then: it won't auto-retry an escalated execution.
pub open spec fn active(executions: Map<Seq<char>, ExecState>, origin: OriginView, workflow: Seq<char>) -> bool {
    exists|k: Seq<char>| #[trigger]
        executions.dom().contains(k) && same_subject(executions[k].origin, origin) && executions[k].workflow == workflow
            && (executions[k].status == ExecStatus::Running || executions[k].status == ExecStatus::Escalated)
}

/// An execution to create.
#[derive(Debug)]
pub struct NewExecution {
    pub workflow: String,
    /// The event kind of the trigger that calls for it.
    pub trigger: String,
    pub vars: StringMap<String>,
    pub origin: ExecutionOrigin,
}

/// What a trigger calls for on a node.
#[derive(Debug)]
pub enum TriggerOutcome {
    /// Nothing.
    Skip,
    /// A report that its variables cannot be made.
    Failed(TriggerFailedData),
    /// An execution.
    Create(NewExecution),
}

/// A trigger fires on a node: it matches, nothing is active for the node yet, and the
/// node is not done with.
pub open spec fn fires(
    t: TriggerDef,
    n: NodeView,
    seq: u64,
    executions: Map<Seq<char>, ExecState>,
) -> bool {
    &&& t.fires_on(node_event(n, seq))
    &&& !active(executions, node_origin(n, seq), t.workflow@)
    &&& !settled(n)
}

/// What a trigger calls for on a node.
pub open spec fn trigger_outcome(
    t: TriggerDef,
    n: NodeView,
    seq: u64,
    executions: Map<Seq<char>, ExecState>,
    r: TriggerOutcome,
) -> bool {
    match r {
        TriggerOutcome::Skip => !fires(t, n, seq, executions),
        TriggerOutcome::Failed(d) => {
            &&& fires(t, n, seq, executions)
            &&& d.source_seq == EventSeq(seq)
            &&& d.on@ == t.on@
            &&& d.workflow@ == t.workflow@
            &&& d.reason is MissingEventField
            &&& vars_built(
                t.vars.texts(),
                node_event(n, seq),
                Err(TriggerError::MissingEventField { path: d.reason->path }),
            )
        },
        TriggerOutcome::Create(x) => {
            &&& fires(t, n, seq, executions)
            &&& x.workflow@ == t.workflow@
            &&& x.trigger@ == t.on@
            &&& vars_built(t.vars.texts(), node_event(n, seq), Ok(x.vars))
            &&& x.origin@ == node_origin(n, seq)
        },
    }
}

/// The nodes of a snapshot that are ready and not shadowed, in order.
pub open spec fn ready_views(nodes: Seq<(String, crate::client::CxNodeSnapshot)>) -> Seq<NodeView>
    decreases nodes.len(),
{
    if nodes.len() == 0 {
        seq![]
    } else {
        let head = ready_views(nodes.drop_last());
        let n = nodes.last().1;
        if n.state@ == "ready"@ && !n.shadowed {
            head.push(
                NodeView {
                    node_id: n.node_id@,
                    event_type: "cx.task_ready"@,
                    tags: views(n.tags@),
                    state: Some(n.state@),
                },
            )
        } else {
            head
        }
    }
}

/// Walk all currently-ready cx nodes that triggers are to be evaluated for.
/// State-driven — regardless of whether a `cx.task_ready` event was ever observed for
/// the node.
pub fn ready_nodes(snapshot: &CxStateSnapshot) -> (r: Vec<NodeRef>)
    ensures
        r@.map_values(|n: NodeRef| n@) == ready_views(snapshot.nodes.list()),
{
    let mut out: Vec<NodeRef> = Vec::new();
    let ghost all = snapshot.nodes.list();
    let mut i: usize = 0;
    assert(all.take(0) =~= seq![]);
    assert(out@.map_values(|n: NodeRef| n@) =~= seq![]);
    while i < snapshot.nodes.len()
        invariant
            0 <= i <= all.len(),
            all == snapshot.nodes.list(),
            out@.map_values(|n: NodeRef| n@) == ready_views(all.take(i as int)),
        decreases all.len() - i,
    {
        let (key, n) = snapshot.nodes.entry(i);
        let ghost before = out@.map_values(|n: NodeRef| n@);
        let ghost next = all.take(i + 1);
        assert(next.drop_last() =~= all.take(i as int));
        assert(next.last() == (*key, *n));
        if same(n.state.as_str(), "ready") && !n.shadowed {
            let node = NodeRef {
                node_id: n.node_id.clone(),
                event_type: "cx.task_ready".to_owned(),
                tags: copy_texts(&n.tags),
                state: Some(n.state.clone()),
            };
            out.push(node);
            assert(out@.map_values(|n: NodeRef| n@) =~= before.push(node@));
        }
        i += 1;
    }
    assert(all.take(i as int) =~= all);
    out
}

/// The execution as it is known before the event stream brings its creation.
pub open spec fn announced(x: NewExecution) -> ExecState {
    ExecState {
        vars: x.vars.texts(),
        origin: x.origin@,
        workflow: x.workflow@,
        status: ExecStatus::Running,
        phase: PhaseView::AwaitingStep,
        visits: Map::empty(),
        last_output: None,
        retry: RetryView::fresh(),
        force_escalate: false,
    }
}

impl Herder {
    /// Takes the pending triggers, which leaves none pending.
    pub fn take_pending(&mut self) -> (r: Vec<PendingTrigger>)
        ensures
            r@ == old(self)@.pending,
            final(self)@ == (HerderState { pending: seq![], ..old(self)@ }),
            same_config(*final(self), *old(self)),
    {
        let mut pending: Vec<PendingTrigger> = Vec::new();
        std::mem::swap(&mut pending, &mut self.pending_triggers);
        assert(self.pending_triggers@ =~= seq![]);
        pending
    }

    fn is_active(&self, origin: &ExecutionOrigin, workflow: &str) -> (r: bool)
        ensures
            r == active(self@.executions, origin@, workflow@),
    {
        let mut i: usize = 0;
        let ghost states = self@.executions;
        while i < self.executions.len()
            invariant
                0 <= i <= self.executions.list().len(),
                states == self@.executions,
                forall|j: int|
                    0 <= j < i ==> !(same_subject(states[#[trigger] self.executions.keys()[j]].origin, origin@)
                        && states[self.executions.keys()[j]].workflow == workflow@ && (
                    states[self.executions.keys()[j]].status == ExecStatus::Running
                        || states[self.executions.keys()[j]].status == ExecStatus::Escalated)),
            decreases self.executions.list().len() - i,
        {
            let (id, e) = self.executions.entry(i);
            assert(states[id@] == e@);
            assert(states.dom().contains(id@));
            if origins_match_for_dedup(&e.origin, origin) && same(e.workflow.as_str(), workflow) && (e.status
                == ExecStatus::Running || e.status == ExecStatus::Escalated) {
                return true;
            }
            i += 1;
        }
        proof {
            if active(states, origin@, workflow@) {
                let k = choose|k: Seq<char>| #[trigger]
                    states.dom().contains(k) && same_subject(states[k].origin, origin@) && states[k].workflow
                        == workflow@ && (states[k].status == ExecStatus::Running || states[k].status
                        == ExecStatus::Escalated);
                assert(self.executions@.dom().contains(k));
                let j = self.executions.keys().index_of(k);
                assert(self.executions.keys()[j] == k);
            }
        }
        false
    }

    /// Evaluates one trigger for a node.
    ///
    /// Dedup: a trigger is skipped if there's already an active execution with the
    /// same (origin, workflow) pair. Idempotent: nodes that already have an active
    /// execution are skipped.
    ///
    /// Workflow vars are built by interpolating the trigger's `[trigger.vars]`
    /// block against the event that the node stands for. On a missing field the
    /// outcome is a failure to be recorded in the event log.
    pub fn evaluate_trigger(&self, trigger: &TriggerDef, node: &NodeRef) -> (r: TriggerOutcome)
        ensures
            trigger_outcome(*trigger, node@, self.last_seq, self@.executions, r),
    {
        let event = node.event(self.last_seq);
        if !trigger.matches(&event) {
            return TriggerOutcome::Skip;
        }
        let origin = node.origin(self.last_seq);
        if self.is_active(&origin, trigger.workflow.as_str()) {
            return TriggerOutcome::Skip;
        }
        if let Some(state) = &node.state {
            if same(state.as_str(), "integrated") || same(state.as_str(), "shadowed") {
                return TriggerOutcome::Skip;
            }
        }
        match trigger.build_vars(&event) {
            Ok(vars) => TriggerOutcome::Create(
                NewExecution { workflow: trigger.workflow.clone(), trigger: trigger.on.clone(), vars, origin },
            ),
            Err(TriggerError::MissingEventField { path }) => TriggerOutcome::Failed(
                TriggerFailedData::from_missing_field(
                    EventSeq(self.last_seq),
                    trigger.on.as_str(),
                    trigger.workflow.as_str(),
                    path,
                ),
            ),
        }
    }

    /// Takes up an execution that the server has just created, ahead of the event stream,
    /// so that the next evaluation sees it. Its creation event brings its first step.
    pub fn execution_started(&mut self, id: String, x: NewExecution)
        ensures
            final(self)@ == old(self)@.put_execution(id@, announced(x)),
            same_config(*final(self), *old(self)),
    {
        let execution = ExecutionView {
            vars: x.vars,
            origin: x.origin,
            workflow: x.workflow,
            status: ExecStatus::Running,
            phase: ExecPhase::AwaitingStep,
            visit_counts: StringMap::new(),
            last_output: None,
            retry_tracker: RetryTracker::new(),
            force_escalate: false,
        };
        proof {
            lemma_put_execution(self.executions@, id@, execution);
        }
        self.executions.insert(id, execution);
    }
}

/// A trigger does not fire twice for one node: once the execution that it called for is
/// taken up, the same trigger calls for nothing, whatever the sequence number is by then.
/// Taking it up keeps the state consistent.
pub proof fn triggers_do_not_fire_twice(
    s: HerderState,
    t: TriggerDef,
    n: NodeView,
    seq: u64,
    later: u64,
    id: Seq<char>,
    x: NewExecution,
)
    requires
        trigger_outcome(t, n, seq, s.executions, TriggerOutcome::Create(x)),
    ensures
        s.consistent() ==> s.put_execution(id, announced(x)).consistent(),
        !fires(t, n, later, s.put_execution(id, announced(x)).executions),
        forall|r: TriggerOutcome| #[trigger]
            trigger_outcome(t, n, later, s.put_execution(id, announced(x)).executions, r) ==> r is Skip,
{
    let after = s.put_execution(id, announced(x)).executions;
    assert(after.dom().contains(id));
    assert(after[id] == announced(x));
}

/// A node with an active execution of a workflow gets no other from that workflow's
/// triggers.
pub proof fn active_nodes_are_left_alone(
    s: HerderState,
    t: TriggerDef,
    n: NodeView,
    seq: u64,
    id: Seq<char>,
    r: TriggerOutcome,
)
    requires
        s.executions.dom().contains(id),
        same_subject(s.executions[id].origin, node_origin(n, seq)),
        s.executions[id].workflow == t.workflow@,
        s.executions[id].status == ExecStatus::Running || s.executions[id].status == ExecStatus::Escalated,
        trigger_outcome(t, n, seq, s.executions, r),
    ensures
        r is Skip,
{
}

/// A trigger that matches the event of a node calls for an execution of its workflow, with
/// the node as its origin, unless one is active for the node or the node is done with. An
/// execution that has completed or was cancelled does not stand in its way.
pub proof fn matching_triggers_call_for_executions(
    t: TriggerDef,
    n: NodeView,
    seq: u64,
    executions: Map<Seq<char>, ExecState>,
    r: TriggerOutcome,
)
    requires
        trigger_outcome(t, n, seq, executions, r),
    ensures
        t.fires_on(node_event(n, seq)) && n.state != Some("integrated"@) && n.state != Some("shadowed"@) && (forall|
            k: Seq<char>,
        | #[trigger]
            executions.dom().contains(k) && executions[k].workflow == t.workflow@ && executions[k].origin is Event
                && executions[k].origin->Event_source == "cx"@ && executions[k].origin->Event_kind == n.event_type
                && executions[k].origin->Event_subject_id == n.node_id ==> executions[k].status != ExecStatus::Running
                && executions[k].status != ExecStatus::Escalated) ==> !(r is Skip),
        !t.fires_on(node_event(n, seq)) ==> r is Skip,
        n.state == Some("integrated"@) ==> r is Skip,
        n.state == Some("shadowed"@) ==> r is Skip,
        r is Create ==> {
            let x = r->Create_0;
            &&& x.workflow@ == t.workflow@
            &&& x.trigger@ == t.on@
            &&& x.origin@ is Event
            &&& x.origin@->Event_source == "cx"@
            &&& x.origin@->Event_kind == n.event_type
            &&& x.origin@->Event_subject_id == n.node_id
            &&& x.origin@->Event_seq == EventSeq(seq)
            &&& vars_built(t.vars.texts(), node_event(n, seq), Ok(x.vars))
        },
        r is Failed ==> {
            let d = r->Failed_0;
            &&& d.source_seq == EventSeq(seq)
            &&& d.on@ == t.on@
            &&& d.workflow@ == t.workflow@
            &&& d.reason is MissingEventField
            &&& exists|k: Seq<char>| #[trigger]
                t.vars.texts().dom().contains(k) && event_template(t.vars.texts()[k], node_event(n, seq)) == Err::<
                    Seq<char>,
                    _,
                >(d.reason->path@)
        },
        (forall|k: Seq<char>| #[trigger]
            t.vars.texts().dom().contains(k) ==> event_template(t.vars.texts()[k], node_event(n, seq)) is Ok)
            ==> !(r is Failed),
{
}

/// The event of a node is of its type, from cx and about the node; its data holds the
/// node's id, its tags and its state.
pub proof fn node_events_tell_of_the_node(n: NodeView, seq: u64)
    ensures
        ({
            let e = node_event(n, seq);
            &&& e.source == "cx"@
            &&& e.kind == n.event_type
            &&& e.subject_id == n.node_id
            &&& e.seq == EventSeq(seq)
            &&& e.data.at("node_id"@).as_str() == Some(n.node_id)
            &&& e.data.at("tags"@) is Array
            &&& e.data.at("tags"@)->Array_0.len() == n.tags.len()
            &&& forall|i: int|
                0 <= i < n.tags.len() ==> #[trigger] e.data.at("tags"@)->Array_0[i] == JsonView::String(n.tags[i])
            &&& e.data.at("state"@).as_str() == n.state
        }),
{
    reveal_strlit("node_id");
    reveal_strlit("tags");
    reveal_strlit("state");
    let m = node_event(n, seq).data->Object_0;
    assert("node_id"@[0] != "tags"@[0]);
    assert("node_id"@[0] != "state"@[0]);
    assert("tags"@[0] != "state"@[0]);
    assert(m =~= m.take(0) + seq![m[0]] + m.skip(1));
    members_are_read_by_name(m.take(0), m[0].0, m[0].1, m.skip(1));
    assert(m =~= m.take(1) + seq![m[1]] + m.skip(2));
    members_are_read_by_name(m.take(1), m[1].0, m[1].1, m.skip(2));
    assert(m =~= m.take(2) + seq![m[2]] + m.skip(3));
    members_are_read_by_name(m.take(2), m[2].0, m[2].1, m.skip(3));
}

/// A node of a snapshot is taken up exactly where it is ready and not shadowed, with its id,
/// tags and state, behind those before it.
pub proof fn ready_nodes_are_taken_up(
    nodes: Seq<(String, crate::client::CxNodeSnapshot)>,
    key: String,
    n: crate::client::CxNodeSnapshot,
)
    ensures
        ({
            let before = ready_views(nodes);
            let after = ready_views(nodes.push((key, n)));
            if n.state@ == "ready"@ && !n.shadowed {
                &&& after.len() == before.len() + 1
                &&& after.drop_last() == before
                &&& after.last().node_id == n.node_id@
                &&& after.last().event_type == "cx.task_ready"@
                &&& after.last().tags == views(n.tags@)
                &&& after.last().state == Some("ready"@)
            } else {
                after == before
            }
        }),
        ready_views(Seq::empty()).len() == 0,
{
    let all = nodes.push((key, n));
    assert(all.drop_last() =~= nodes);
    assert(all.last() == (key, n));
    if n.state@ == "ready"@ && !n.shadowed {
        assert(ready_views(all).drop_last() =~= ready_views(nodes));
    }
}

/// An execution that was asked for runs with the variables, workflow and origin that it was
/// asked for with, and waits for its creation to arrive.
pub proof fn announced_executions_wait_for_their_creation(x: NewExecution)
    ensures
        announced(x).status == ExecStatus::Running,
        announced(x).phase == PhaseView::AwaitingStep,
        announced(x).vars == x.vars.texts(),
        announced(x).workflow == x.workflow@,
        announced(x).origin == x.origin@,
        announced(x).last_output is None,
        !announced(x).force_escalate,
{
}

} // verus!
