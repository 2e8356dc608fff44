//! The event log: the envelope that every event travels in, the payload of each
//! kind, the origin of an execution, and failed triggers.

use vstd::prelude::*;

use crate::json::{entry_of, scalar_text, Json, JsonView};
use crate::strmap::StringMap;
use crate::text::{
    copy_option, has_prefix, same, split_char, split_spec, splits_take_parts_apart, strip_prefix, views,
};
use crate::types::{EventSeq, ExecutionId, RunnerId};

pub mod kinds;

verus! {

// ── Canonical envelope ──────────────────────────────────────────────

/// Canonical event envelope. Every event in the log — whether emitted
/// by Ox internally or ingested from a watcher — has this shape.
///
/// - `ts`: when the event was recorded, in RFC 3339.
/// - `source`: identifier of the emitter (`"ox"`, `"cx"`, `"github"`, ...).
/// - `kind`: the event kind string (e.g. `"execution.completed"`,
///   `"node.ready"`). Plain string on the wire, grep-able, extensible
///   without recompiling downstream consumers.
/// - `subject_id`: the source-native correlation key — what the event
///   is about. Empty string for events with no meaningful subject
///   (e.g. `server.ready`).
/// - `data`: free-form kind-specific payload.
#[derive(Debug)]
pub struct EventEnvelope {
    pub seq: EventSeq,
    pub ts: String,
    pub source: String,
    pub kind: String,
    pub subject_id: String,
    pub data: Json,
}

/// What an event envelope is.
pub struct EnvelopeView {
    pub seq: EventSeq,
    pub ts: Seq<char>,
    pub source: Seq<char>,
    pub kind: Seq<char>,
    pub subject_id: Seq<char>,
    pub data: JsonView,
}

impl View for EventEnvelope {
    type V = EnvelopeView;

    open spec fn view(&self) -> EnvelopeView {
        EnvelopeView {
            seq: self.seq,
            ts: self.ts@,
            source: self.source@,
            kind: self.kind@,
            subject_id: self.subject_id@,
            data: self.data@,
        }
    }
}

impl Clone for EventEnvelope {
    fn clone(&self) -> (r: Self)
        ensures
            r@ == self@,
    {
        EventEnvelope {
            seq: self.seq,
            ts: self.ts.clone(),
            source: self.source.clone(),
            kind: self.kind.clone(),
            subject_id: self.subject_id.clone(),
            data: self.data.clone(),
        }
    }
}

/// Source identifier stamped on every event emitted internally by Ox.
pub const SOURCE_OX: &'static str = "ox";

// ── Ingest path ─────────────────────────────────────────────────────

/// One event in a watcher ingest batch. The server combines
/// `batch.source` with each `IngestEventData` to produce the canonical
/// `EventEnvelope`. `idempotency_key` is storage/ingest mechanics and
/// is not persisted on the envelope — it lands in the
/// `ingest_idempotency` table alone.
#[derive(Debug)]
pub struct IngestEventData {
    pub kind: String,
    pub subject_id: String,
    pub idempotency_key: String,
    pub data: Json,
}

impl IngestEventData {
    /// The envelope of the event in a batch from a source.
    pub fn into_envelope(self, source: &str, seq: EventSeq, ts: &str) -> (e: EventEnvelope)
        ensures
            e@ == (EnvelopeView {
                seq,
                ts: ts@,
                source: source@,
                kind: self.kind@,
                subject_id: self.subject_id@,
                data: self.data@,
            }),
    {
        EventEnvelope {
            seq,
            ts: ts.to_owned(),
            source: source.to_owned(),
            kind: self.kind,
            subject_id: self.subject_id,
            data: self.data,
        }
    }
}

/// One fact that a watcher observed. `tags` repeats the tags of the subject for
/// consumers that do not look into `data`.
#[derive(Debug, Clone)]
pub struct SourceEventData {
    pub source: String,
    pub kind: String,
    pub subject_id: String,
    pub idempotency_key: String,
    pub tags: Vec<String>,
    pub data: Json,
}

/// What a source event is.
pub struct SourceEventView {
    pub source: Seq<char>,
    pub kind: Seq<char>,
    pub subject_id: Seq<char>,
    pub idempotency_key: Seq<char>,
    pub tags: Seq<Seq<char>>,
    pub data: JsonView,
}

impl View for SourceEventData {
    type V = SourceEventView;

    open spec fn view(&self) -> SourceEventView {
        SourceEventView {
            source: self.source@,
            kind: self.kind@,
            subject_id: self.subject_id@,
            idempotency_key: self.idempotency_key@,
            tags: views(self.tags@),
            data: self.data@,
        }
    }
}

impl SourceEventData {
    /// The event as it goes into a batch, whose source stands for that of its events.
    pub fn into_ingest(self) -> (r: IngestEventData)
        ensures
            r.kind == self.kind,
            r.subject_id == self.subject_id,
            r.idempotency_key == self.idempotency_key,
            r.data == self.data,
    {
        IngestEventData {
            kind: self.kind,
            subject_id: self.subject_id,
            idempotency_key: self.idempotency_key,
            data: self.data,
        }
    }
}

// ── Event data structs ──────────────────────────────────────────────

#[derive(Debug, Clone)]
pub struct RunnerRegisteredData {
    pub runner_id: RunnerId,
    pub environment: String,
    pub labels: StringMap<String>,
}

#[derive(Debug, Clone)]
pub struct RunnerDrainedData {
    pub runner_id: RunnerId,
    pub reason: String,
}

#[derive(Debug, Clone)]
pub struct RunnerHeartbeatMissedData {
    pub runner_id: RunnerId,
    pub last_seen: String,
    pub grace_period_secs: u64,
    /// The step the runner was working on when it went stale (if any).
    pub execution_id: Option<String>,
    pub step: Option<String>,
    pub attempt: Option<u32>,
}

/// Emitted when a runner that was previously marked stale
/// (`runner.heartbeat_missed`) starts heartbeating within the grace
/// period again. Paired with `heartbeat_missed` so projections can
/// track the full healthy↔stale transition without out-of-band
/// queries.
#[derive(Debug, Clone)]
pub struct RunnerRecoveredData {
    pub runner_id: RunnerId,
    pub last_seen: String,
}

#[derive(Debug, Clone)]
pub struct ExecutionCreatedData {
    pub execution_id: ExecutionId,
    pub workflow: String,
    pub trigger: String,
    pub vars: StringMap<String>,
    pub origin: ExecutionOrigin,
    /// Override for the step the herder schedules first. `None`
    /// (the default) means start at `workflow.first_step()` — the
    /// existing behavior. Set by `ox-ctl exec retry` to resume an
    /// escalated execution from the failed step instead of redoing
    /// confirmed work.
    pub start_step: Option<String>,
}

#[derive(Debug, Clone)]
pub struct ExecutionCompletedData {
    pub execution_id: ExecutionId,
    /// Workflow that just finished. Lets `[trigger.where]` on
    /// `execution.completed` filter by workflow (e.g. cx-surface only
    /// chains after `code-task`, not after itself).
    pub workflow: String,
    /// All input vars the execution was created with. Chained
    /// workflows can template from `{event.data.vars.<name>}`.
    pub vars: StringMap<String>,
    /// Origin of the completed execution — the cause that started it.
    /// Useful for correlating a completion back to the source fact
    /// (cx node id, linear issue, manual run, ...).
    pub origin: ExecutionOrigin,
}

#[derive(Debug, Clone)]
pub struct ExecutionEscalatedData {
    pub execution_id: ExecutionId,
    pub step: String,
    pub reason: String,
}

#[derive(Debug, Clone)]
pub struct ExecutionCancelledData {
    pub execution_id: ExecutionId,
    pub reason: String,
}

#[derive(Debug, Clone)]
pub struct StepDispatchedData {
    pub execution_id: ExecutionId,
    pub step: String,
    pub attempt: u32,
    pub runner_id: RunnerId,
    /// Secret names referenced by this step (values NOT included).
    pub secret_refs: Vec<String>,
    pub runtime: Json,
    pub workspace: Json,
    pub artifacts: Vec<ArtifactDecl>,
}

#[derive(Debug, Clone)]
pub struct ArtifactDecl {
    pub name: String,
}

#[derive(Debug, Clone)]
pub struct StepRunningData {
    pub execution_id: ExecutionId,
    pub step: String,
    pub attempt: u32,
    /// TCP address for interactive (tty) sessions, e.g. "192.168.1.5:43210".
    pub connect_addr: Option<String>,
}

#[derive(Debug, Clone)]
pub struct StepDoneData {
    pub execution_id: ExecutionId,
    pub step: String,
    pub attempt: u32,
    pub output: String,
}

#[derive(Debug, Clone)]
pub struct StepSignalsData {
    pub execution_id: ExecutionId,
    pub step: String,
    pub attempt: u32,
    pub signals: Vec<String>,
    /// Per-match diagnostics for signals fired by declarative log-pattern
    /// detection. Parallel to `signals` (every entry's `name` also appears
    /// in `signals`), kept additive so older event records deserialize
    /// cleanly with an empty vec.
    pub signal_matches: Vec<SignalMatch>,
}

/// One log-pattern signal match: the configured signal name, the log
/// line that triggered it (so operators can see *why* a signal fired
/// without trawling logs), and the `retriable` bit copied from the
/// runtime config so the workflow engine can decide policy without
/// re-reading config.
#[derive(Debug, Clone, PartialEq, Eq)]
pub struct SignalMatch {
    pub name: String,
    pub line: String,
    /// Whether this signal allows further retries. Defaults to `true`
    /// for events written before this field existed.
    pub retriable: bool,
}

/// Signals allow further retries unless they say otherwise.
pub fn default_signal_match_retriable() -> (r: bool)
    ensures
        r,
{
    true
}

#[derive(Debug, Clone)]
pub struct StepConfirmedData {
    pub execution_id: ExecutionId,
    pub step: String,
    pub attempt: u32,
    pub metrics: Option<Json>,
}

#[derive(Debug, Clone)]
pub struct StepFailedData {
    pub execution_id: ExecutionId,
    pub step: String,
    pub attempt: u32,
    pub error: String,
}

#[derive(Debug, Clone)]
pub struct StepTimeoutData {
    pub execution_id: ExecutionId,
    pub step: String,
    pub attempt: u32,
    pub timeout_secs: u64,
    pub runner_id: RunnerId,
}

#[derive(Debug, Clone)]
pub struct StepAdvancedData {
    pub execution_id: ExecutionId,
    pub from_step: String,
    pub to_step: String,
}

#[derive(Debug, Clone)]
pub struct StepRetryingData {
    pub execution_id: ExecutionId,
    pub step: String,
    pub attempt: u32,
}

#[derive(Debug, Clone)]
pub struct ArtifactDeclaredData {
    pub execution_id: ExecutionId,
    pub step: String,
    pub artifact: String,
    pub source: String,
    pub streaming: bool,
}

#[derive(Debug, Clone)]
pub struct ArtifactClosedData {
    pub execution_id: ExecutionId,
    pub step: String,
    pub artifact: String,
    pub size: u64,
    pub sha256: String,
}

#[derive(Debug, Clone)]
pub struct SecretSetData {
    pub name: String,
    /// Present in the event log, redacted from SSE broadcast.
    pub value: String,
}

#[derive(Debug, Clone)]
pub struct SecretDeletedData {
    pub name: String,
}

#[derive(Debug, Clone)]
pub struct GitBranchPushedData {
    pub branch: String,
    pub sha: String,
    pub execution_id: ExecutionId,
    pub step: String,
}

#[derive(Debug, Clone)]
pub struct GitMergedData {
    pub branch: String,
    pub into: String,
    pub sha: String,
    pub execution_id: ExecutionId,
}

#[derive(Debug, Clone)]
pub struct GitMergeFailedData {
    pub branch: String,
    pub into: String,
    pub reason: String,
    pub execution_id: ExecutionId,
}

// ── ExecutionOrigin ─────────────────────────────────────────────────

/// Identity of what caused an execution to be created.
///
/// `Event` carries the canonical envelope triplet `(source, kind,
/// subject_id)` plus the firing event's `seq` as a backreference. The
/// seq is informational — dedup matches on the triplet only via
/// [`origins_match_for_dedup`].
#[derive(Debug, PartialEq, Eq, Hash)]
pub enum ExecutionOrigin {
    /// Direct API call or CLI trigger with no event context.
    Manual { user: Option<String> },
    /// Fired from an event on the bus. The tuple `(source, kind,
    /// subject_id)` identifies *what* the execution is about. `seq`
    /// points at the firing envelope for audit.
    Event { source: String, kind: String, subject_id: String, seq: EventSeq },
}

/// What an execution origin is.
pub enum OriginView {
    Manual { user: Option<Seq<char>> },
    Event { source: Seq<char>, kind: Seq<char>, subject_id: Seq<char>, seq: EventSeq },
}

impl View for ExecutionOrigin {
    type V = OriginView;

    open spec fn view(&self) -> OriginView {
        match self {
            ExecutionOrigin::Manual { user } => OriginView::Manual {
                user: match user {
                    Some(u) => Some(u@),
                    None => None,
                },
            },
            ExecutionOrigin::Event { source, kind, subject_id, seq } => OriginView::Event {
                source: source@,
                kind: kind@,
                subject_id: subject_id@,
                seq: *seq,
            },
        }
    }
}

impl Clone for ExecutionOrigin {
    fn clone(&self) -> (r: Self)
        ensures
            r == *self,
    {
        match self {
            ExecutionOrigin::Manual { user } => ExecutionOrigin::Manual { user: copy_option(user) },
            ExecutionOrigin::Event { source, kind, subject_id, seq } => ExecutionOrigin::Event {
                source: source.clone(),
                kind: kind.clone(),
                subject_id: subject_id.clone(),
                seq: *seq,
            },
        }
    }
}

impl Default for ExecutionOrigin {
    fn default() -> (r: Self)
        ensures
            r == (ExecutionOrigin::Manual { user: None }),
    {
        ExecutionOrigin::Manual { user: None }
    }
}

/// Two origins are about the same subject: both are events with one source, one
/// kind and one subject.
pub open spec fn same_subject(a: OriginView, b: OriginView) -> bool {
    match (a, b) {
        (
            OriginView::Event { source: sa, kind: ka, subject_id: ia, .. },
            OriginView::Event { source: sb, kind: kb, subject_id: ib, .. },
        ) => sa == sb && ka == kb && ia == ib,
        _ => false,
    }
}

/// Structural match for trigger-dedup semantics. Two `Event` origins
/// are considered the same subject if their `(source, kind,
/// subject_id)` triplets match — the firing `seq` is ignored because a
/// retried watcher post would otherwise appear as a new subject.
/// `Manual` origins never dedup against anything.
pub fn origins_match_for_dedup(a: &ExecutionOrigin, b: &ExecutionOrigin) -> (r: bool)
    ensures
        r == same_subject(a@, b@),
{
    match (a, b) {
        (
            ExecutionOrigin::Event { source: sa, kind: ka, subject_id: ia, .. },
            ExecutionOrigin::Event { source: sb, kind: kb, subject_id: ib, .. },
        ) => *sa == *sb && *ka == *kb && *ia == *ib,
        _ => false,
    }
}

/// Dedup predicate. Returns `true` if any element of `existing` (an origin, a
/// workflow and a status) has an origin that matches `origin` for dedup purposes,
/// its workflow is `workflow`, and its status is considered active.
///
/// The `is_active` callback is supplied by the caller because the
/// herder and the API handler use different liveness rules (the API
/// blocks on `running` only; the herder blocks on `running|escalated`).
pub fn is_origin_active<F: Fn(&str) -> bool>(
    existing: &[(&ExecutionOrigin, &str, &str)],
    origin: &ExecutionOrigin,
    workflow: &str,
    is_active: F,
) -> (r: bool)
    requires
        forall|s: &str| #[trigger] is_active.requires((s,)),
    ensures
        r ==> exists|i: int|
            0 <= i < existing@.len() && same_subject((#[trigger] existing@[i]).0@, origin@) && existing@[i].1@
                == workflow@ && is_active.ensures((existing@[i].2,), true),
        !r ==> forall|i: int|
            0 <= i < existing@.len() && same_subject((#[trigger] existing@[i]).0@, origin@) && existing@[i].1@
                == workflow@ ==> is_active.ensures((existing@[i].2,), false),
{
    let mut i: usize = 0;
    while i < existing.len()
        invariant
            0 <= i <= existing@.len(),
            forall|s: &str| #[trigger] is_active.requires((s,)),
            forall|j: int|
                0 <= j < i && same_subject((#[trigger] existing@[j]).0@, origin@) && existing@[j].1@ == workflow@
                    ==> is_active.ensures((existing@[j].2,), false),
        decreases existing@.len() - i,
    {
        let (o, w, s) = existing[i];
        if origins_match_for_dedup(o, origin) && same(w, workflow) {
            if is_active(s) {
                assert(same_subject(existing@[i as int].0@, origin@));
                return true;
            }
        }
        i += 1;
    }
    false
}

/// Matching for dedup ignores the firing sequence number, does not depend on the
/// order of the two origins, carries over from one match to the next, and never
/// holds of a manual origin.
pub proof fn dedup_matching_is_a_partial_equivalence(a: OriginView, b: OriginView, c: OriginView)
    ensures
        same_subject(a, b) == same_subject(b, a),
        same_subject(a, b) && same_subject(b, c) ==> same_subject(a, c),
        a is Event ==> same_subject(a, a),
        a is Manual ==> !same_subject(a, b),
        a is Event && b is Event && a->Event_source == b->Event_source && a->Event_kind == b->Event_kind
            && a->Event_subject_id == b->Event_subject_id ==> same_subject(a, b),
{
}

/// Origins that match for dedup agree in source, kind and subject.
pub proof fn deduped_origins_have_one_subject(a: OriginView, b: OriginView)
    requires
        same_subject(a, b),
    ensures
        a is Event,
        b is Event,
        a->Event_source == b->Event_source,
        a->Event_kind == b->Event_kind,
        a->Event_subject_id == b->Event_subject_id,
{
}

// ── Envelope helpers ────────────────────────────────────────────────

/// The value that a list of keys leads to, from object to object.
pub open spec fn walk(v: JsonView, keys: Seq<Seq<char>>) -> Option<JsonView>
    decreases keys.len(),
{
    if keys.len() == 0 {
        Some(v)
    } else {
        match v.get(keys[0]) {
            Some(x) => walk(x, keys.skip(1)),
            None => None,
        }
    }
}

impl EnvelopeView {
    /// The value that a path behind `event.` names.
    pub open spec fn field(self, field: Seq<char>) -> Option<JsonView> {
        if field == "source"@ {
            Some(JsonView::String(self.source))
        } else if field == "kind"@ {
            Some(JsonView::String(self.kind))
        } else if field == "subject_id"@ {
            Some(JsonView::String(self.subject_id))
        } else if has_prefix(field, "data."@) {
            walk(self.data, split_spec(field.skip("data."@.len() as int), '.'))
        } else {
            None
        }
    }

    /// The value that a path names.
    pub open spec fn resolve_value(self, path: Seq<char>) -> Option<JsonView> {
        if has_prefix(path, "event."@) {
            self.field(path.skip("event."@.len() as int))
        } else {
            None
        }
    }

    /// The text of the scalar that a path names.
    pub open spec fn resolve(self, path: Seq<char>) -> Option<Seq<char>> {
        match self.resolve_value(path) {
            Some(v) => scalar_text(v),
            None => None,
        }
    }

    /// The event sets a secret.
    pub open spec fn is_secret_set(self) -> bool {
        self.source == SOURCE_OX@ && self.kind == kinds::SECRET_SET@
    }

    /// The envelope as it may be broadcast.
    pub open spec fn redacted(self) -> EnvelopeView {
        if self.is_secret_set() {
            EnvelopeView { data: without_key(self.data, "value"@), ..self }
        } else {
            self
        }
    }
}

/// The entries whose key is another one.
pub open spec fn drop_key(entries: Seq<(Seq<char>, JsonView)>, key: Seq<char>) -> Seq<(Seq<char>, JsonView)>
    decreases entries.len(),
{
    if entries.len() == 0 {
        seq![]
    } else if entries.last().0 == key {
        drop_key(entries.drop_last(), key)
    } else {
        drop_key(entries.drop_last(), key).push(entries.last())
    }
}

/// An object without a member; any other value as it is.
pub open spec fn without_key(v: JsonView, key: Seq<char>) -> JsonView {
    match v {
        JsonView::Object(entries) => JsonView::Object(drop_key(entries, key)),
        _ => v,
    }
}

fn remove_key(v: &Json, key: &str) -> (r: Json)
    ensures
        r@ == without_key(v@, key@),
{
    match v {
        Json::Object(m) => {
            let ghost all = v@->Object_0;
            let mut out: Vec<(String, Json)> = Vec::new();
            let mut i: usize = 0;
            assert(all.take(0) =~= seq![]);
            assert(Json::Object(out)@->Object_0 =~= drop_key(all.take(0), key@));
            while i < m.len()
                invariant
                    *v == Json::Object(*m),
                    all == v@->Object_0,
                    all.len() == m@.len(),
                    0 <= i <= m@.len(),
                    Json::Object(out)@->Object_0 == drop_key(all.take(i as int), key@),
                decreases m@.len() - i,
            {
                let ghost next = all.take(i + 1);
                let ghost before = Json::Object(out)@->Object_0;
                assert(next.drop_last() =~= all.take(i as int));
                assert(next.last() == (m@[i as int].0@, m@[i as int].1@));
                if !same(m[i].0.as_str(), key) {
                    out.push((m[i].0.clone(), m[i].1.clone()));
                    assert(Json::Object(out)@->Object_0 =~= before.push(next.last()));
                }
                i += 1;
            }
            assert(all.take(i as int) =~= all);
            Json::Object(out)
        },
        _ => v.clone(),
    }
}

/// Walk a dotted path into a JSON value. Returns `None` if any
/// segment is missing.
fn resolve_json_value<'a>(root: &'a Json, path: &str) -> (r: Option<&'a Json>)
    ensures
        match r {
            Some(v) => walk(root@, split_spec(path@, '.')) == Some(v@),
            None => walk(root@, split_spec(path@, '.')) is None,
        },
{
    let segs = split_char(path, '.');
    let mut cur = root;
    let mut i: usize = 0;
    let ghost keys = split_spec(path@, '.');
    assert(keys.skip(0) =~= keys);
    while i < segs.len()
        invariant
            0 <= i <= segs@.len(),
            views(segs@) == keys,
            keys == split_spec(path@, '.'),
            walk(cur@, keys.skip(i as int)) == walk(root@, keys),
        decreases segs@.len() - i,
    {
        assert(keys.skip(i as int)[0] == segs@[i as int]@);
        assert(keys.skip(i as int).skip(1) =~= keys.skip(i + 1));
        match cur.get(segs[i].as_str()) {
            Some(v) => { cur = v; },
            None => { return None; },
        }
        i += 1;
    }
    Some(cur)
}

impl EventEnvelope {
    /// Resolve `event.<path>` to a string value. `None` when the
    /// leaf is missing or not a scalar.
    ///
    /// Supported roots: `event.source`, `event.kind`,
    /// `event.subject_id`, `event.data.<key>...`.
    pub fn resolve(&self, path: &str) -> (r: Option<String>)
        ensures
            match r {
                Some(s) => self@.resolve(path@) == Some(s@),
                None => self@.resolve(path@) is None,
            },
    {
        match self.resolve_value(path) {
            Some(v) => v.scalar_text(),
            None => None,
        }
    }

    /// Resolve `event.<path>` to a JSON value. Used by
    /// `[trigger.where]` predicates that need to walk into arrays.
    pub fn resolve_value(&self, path: &str) -> (r: Option<Json>)
        ensures
            match r {
                Some(v) => self@.resolve_value(path@) == Some(v@),
                None => self@.resolve_value(path@) is None,
            },
    {
        let field = match strip_prefix(path, "event.") {
            Some(field) => field,
            None => { return None; },
        };
        if same(field.as_str(), "source") {
            Some(Json::String(self.source.clone()))
        } else if same(field.as_str(), "kind") {
            Some(Json::String(self.kind.clone()))
        } else if same(field.as_str(), "subject_id") {
            Some(Json::String(self.subject_id.clone()))
        } else {
            match strip_prefix(field.as_str(), "data.") {
                Some(p) => match resolve_json_value(&self.data, p.as_str()) {
                    Some(v) => Some(v.clone()),
                    None => None,
                },
                None => None,
            }
        }
    }

    /// Return a copy suitable for SSE broadcast — secret values stripped.
    pub fn redacted_for_sse(&self) -> (r: Self)
        ensures
            r@ == self@.redacted(),
    {
        if same(self.source.as_str(), SOURCE_OX) && same(self.kind.as_str(), kinds::SECRET_SET) {
            EventEnvelope {
                seq: self.seq,
                ts: self.ts.clone(),
                source: self.source.clone(),
                kind: self.kind.clone(),
                subject_id: self.subject_id.clone(),
                data: remove_key(&self.data, "value"),
            }
        } else {
            self.clone()
        }
    }
}

/// A broadcast copy of an event that sets a secret has no value in it, and differs
/// from the event in nothing else; every other event is broadcast as it is.
pub proof fn redaction_strips_the_secret_and_nothing_else(e: EnvelopeView, key: Seq<char>)
    ensures
        e.is_secret_set() ==> e.redacted().data.get("value"@) is None,
        key != "value"@ ==> e.redacted().data.get(key) == e.data.get(key),
        !e.is_secret_set() ==> e.redacted() == e,
        e.redacted().seq == e.seq,
        e.redacted().ts == e.ts,
        e.redacted().source == e.source,
        e.redacted().kind == e.kind,
        e.redacted().subject_id == e.subject_id,
        e.redacted().redacted() == e.redacted(),
{
    match e.data {
        JsonView::Object(entries) => {
            lemma_drop_key(entries, "value"@, key);
            lemma_drop_key(entries, "value"@, "value"@);
        },
        _ => {},
    }
}

proof fn lemma_entry_push(entries: Seq<(Seq<char>, JsonView)>, e: (Seq<char>, JsonView), key: Seq<char>)
    ensures
        entry_of(entries.push(e), key) == (match entry_of(entries, key) {
            Some(v) => Some(v),
            None => if e.0 == key {
                Some(e.1)
            } else {
                None
            },
        }),
    decreases entries.len(),
{
    let all = entries.push(e);
    if entries.len() == 0 {
        assert(all.skip(1) =~= seq![]);
        assert(all[0] == e);
    } else {
        assert(all.skip(1) =~= entries.skip(1).push(e));
        assert(all[0] == entries[0]);
        lemma_entry_push(entries.skip(1), e, key);
    }
}

proof fn lemma_drop_key(entries: Seq<(Seq<char>, JsonView)>, key: Seq<char>, other: Seq<char>)
    ensures
        entry_of(drop_key(entries, key), key) is None,
        other != key ==> entry_of(drop_key(entries, key), other) == entry_of(entries, other),
        drop_key(drop_key(entries, key), key) == drop_key(entries, key),
    decreases entries.len(),
{
    if entries.len() > 0 {
        let head = entries.drop_last();
        let e = entries.last();
        lemma_drop_key(head, key, other);
        assert(entries =~= head.push(e));
        lemma_entry_push(head, e, other);
        lemma_entry_push(drop_key(head, key), e, other);
        lemma_entry_push(drop_key(head, key), e, key);
        if e.0 != key {
            let d = drop_key(entries, key);
            assert(d.drop_last() =~= drop_key(head, key));
            assert(d.last() == e);
        }
    }
}

/// The paths of an event name its source, its kind and its subject, and behind `data.` the
/// members of its data, from object to object. Nothing else has a path.
pub proof fn event_paths_name_its_fields(e: EnvelopeView, key: Seq<char>, more: Seq<char>, path: Seq<char>)
    requires
        !key.contains('.'),
        !has_prefix(path, "event."@),
    ensures
        e.resolve("event.source"@) == Some(e.source),
        e.resolve("event.kind"@) == Some(e.kind),
        e.resolve("event.subject_id"@) == Some(e.subject_id),
        e.resolve_value("event.data."@ + key) == e.data.get(key),
        e.resolve_value("event.data."@ + key + "."@ + more) == (match e.data.get(key) {
            Some(v) => (EnvelopeView { data: v, ..e }).resolve_value("event.data."@ + more),
            None => None,
        }),
        e.resolve_value(path) is None,
        e.resolve(path) is None,
{
    reveal_strlit("event.");
    reveal_strlit("event.source");
    reveal_strlit("event.kind");
    reveal_strlit("event.subject_id");
    reveal_strlit("event.data.");
    reveal_strlit("data.");
    reveal_strlit("source");
    reveal_strlit("kind");
    reveal_strlit("subject_id");
    reveal_strlit(".");
    assert("event.source"@.subrange(0, 6) =~= "event."@);
    assert("event.source"@.skip(6) =~= "source"@);
    assert("event.kind"@.subrange(0, 6) =~= "event."@);
    assert("event.kind"@.skip(6) =~= "kind"@);
    assert("kind"@[0] != "source"@[0]);
    assert("event.subject_id"@.subrange(0, 6) =~= "event."@);
    assert("event.subject_id"@.skip(6) =~= "subject_id"@);
    assert("subject_id"@[0] != "kind"@[0]);
    assert("subject_id"@[1] != "source"@[1]);
    lemma_data_path(e, key);
    lemma_data_path(e, key + "."@ + more);
    let nested = match e.data.get(key) {
        Some(v) => EnvelopeView { data: v, ..e },
        None => e,
    };
    lemma_data_path(nested, more);
    assert("event.data."@ + key + "."@ + more =~= "event.data."@ + (key + "."@ + more));
    splits_take_parts_apart(key, more, '.');
    assert(key + "."@ + more =~= key + seq!['.'] + more);
    let parts = split_spec(key, '.');
    assert(parts == seq![key]);
    assert(parts.skip(1) =~= seq![]);
    let v = e.data.get(key);
    if v is Some {
        assert(walk(v->0, parts.skip(1)) == v);
    }
    let all = split_spec(key + "."@ + more, '.');
    assert(all[0] == key);
    assert(all.skip(1) =~= split_spec(more, '.'));
}

proof fn lemma_data_path(e: EnvelopeView, path: Seq<char>)
    ensures
        e.resolve_value("event.data."@ + path) == walk(e.data, split_spec(path, '.')),
{
    reveal_strlit("event.");
    reveal_strlit("event.data.");
    reveal_strlit("data.");
    reveal_strlit("source");
    reveal_strlit("kind");
    reveal_strlit("subject_id");
    let t = "event.data."@ + path;
    assert(t.subrange(0, 6) =~= "event."@);
    let f = t.skip(6);
    assert(f =~= "data."@ + path);
    assert(f[0] == 'd');
    assert(f.subrange(0, 5) =~= "data."@);
    assert(f.skip(5) =~= path);
    assert("source"@[0] != 'd');
    assert("kind"@[0] != 'd');
    assert("subject_id"@[0] != 'd');
}

// ── Trigger failure events ─────────────────────────────────────────

/// Recorded when a trigger matches a firing event but cannot produce
/// a valid execution. Always surfaces deterministically — a bad
/// `[trigger.vars]` template will emit on every SSE replay, so the
/// herder guards emission behind `!replaying`.
#[derive(Debug, Clone, PartialEq, Eq)]
pub struct TriggerFailedData {
    /// The `seq` of the event that caused this trigger to fire.
    /// Lets a UI correlate "which source event caused this failure".
    pub source_seq: EventSeq,
    /// The matched trigger's `on` field (source-native event kind,
    /// e.g. `"node.ready"`).
    pub on: String,
    /// The workflow the trigger would have fired.
    pub workflow: String,
    pub reason: TriggerFailureReason,
}

/// Why a trigger failed to create an execution. Discriminated so UIs
/// and operators can act on the category without parsing free-text.
#[derive(Debug, Clone, PartialEq, Eq)]
pub enum TriggerFailureReason {
    /// A `{event.X}` template referenced a field the firing event
    /// does not expose.
    MissingEventField { path: String },
    /// The interpolated vars map failed `WorkflowDef::validate_vars`.
    ValidationFailed { message: String },
    /// The trigger's `workflow` is not loaded in the current config.
    UnknownWorkflow,
}

impl TriggerFailedData {
    fn new(source_seq: EventSeq, on: &str, workflow: &str, reason: TriggerFailureReason) -> (r: Self)
        ensures
            r.source_seq == source_seq,
            r.on@ == on@,
            r.workflow@ == workflow@,
            r.reason == reason,
    {
        TriggerFailedData { source_seq, on: on.to_owned(), workflow: workflow.to_owned(), reason }
    }

    /// The failure of a trigger whose template names a field that the event lacks.
    pub fn from_missing_field(source_seq: EventSeq, on: &str, workflow: &str, missing_path: String) -> (r: Self)
        ensures
            r.source_seq == source_seq,
            r.on@ == on@,
            r.workflow@ == workflow@,
            r.reason == (TriggerFailureReason::MissingEventField { path: missing_path }),
    {
        Self::new(source_seq, on, workflow, TriggerFailureReason::MissingEventField { path: missing_path })
    }

    /// The failure of a trigger whose variables the workflow does not accept.
    pub fn from_validation_error(source_seq: EventSeq, on: &str, workflow: &str, message: String) -> (r: Self)
        ensures
            r.source_seq == source_seq,
            r.on@ == on@,
            r.workflow@ == workflow@,
            r.reason == (TriggerFailureReason::ValidationFailed { message }),
    {
        Self::new(source_seq, on, workflow, TriggerFailureReason::ValidationFailed { message })
    }

    /// The failure of a trigger whose workflow is not loaded.
    pub fn for_unknown_workflow(source_seq: EventSeq, on: &str, workflow: &str) -> (r: Self)
        ensures
            r.source_seq == source_seq,
            r.on@ == on@,
            r.workflow@ == workflow@,
            r.reason == TriggerFailureReason::UnknownWorkflow,
    {
        Self::new(source_seq, on, workflow, TriggerFailureReason::UnknownWorkflow)
    }
}

} // verus!
