//! Workflow definitions, the step graph, triggers and retry budgets.

use vstd::prelude::*;

use indexmap::IndexMap;

use crate::events::{EnvelopeView, EventEnvelope};
use crate::interpolation::{
    ends_outside, lemma_plain_pieces, piece_views, pieces, read_pieces, Piece, PieceView,
};
use crate::json::{scalar_text, Json, JsonView};
use crate::strmap::StringMap;
use crate::text::{
    cat, contains_part, copy_option, ends_with, find_from, has_prefix, has_suffix, holds_text, lemma_find_from,
    lemma_find_is, occurs_at, same, starts_with,
};

verus! {

// ── Definitions ─────────────────────────────────────────────────────

/// Variable type — shared by workflow vars and runtime vars.
#[derive(Debug, Clone, Copy, PartialEq, Eq, Structural)]
pub enum VarType {
    String,
    File,
    Bool,
    Int,
}

impl Default for VarType {
    fn default() -> (t: Self)
        ensures
            t == VarType::String,
    {
        VarType::String
    }
}

/// A variable declaration — shared by workflow vars and runtime vars.
#[derive(Debug, Clone)]
pub struct VarDef {
    pub var_type: VarType,
    pub required: bool,
    pub default: Option<String>,
    pub description: Option<String>,
    /// For file vars: subdirectory to search on the search path.
    /// Defaults to "{varname}s" (e.g. "personas" for a var named "persona").
    pub search_dir: Option<String>,
}

/// A complete workflow definition, loaded from TOML.
#[derive(Debug, Clone)]
pub struct WorkflowDef {
    pub name: String,
    pub description: String,
    /// Default persona for steps that don't specify their own.
    pub persona: Option<String>,
    /// Workflow-level skills, added to every step.
    pub skills: Vec<String>,
    pub vars: StringMap<VarDef>,
    pub steps: Vec<StepDef>,
}

/// A single step in a workflow.
#[derive(Debug, Clone)]
pub struct StepDef {
    pub name: String,
    /// Persona for this step. Overrides the workflow default.
    pub persona: Option<String>,
    /// Step-level prompt passed to the runtime.
    pub prompt: Option<String>,
    /// Additional skills for this step (added to runtime + persona + workflow skills).
    pub skills: Vec<String>,
    /// Runtime override — escape hatch for overriding persona's runtime/model.
    pub runtime: Option<RuntimeSpec>,
    pub action: Option<String>,
    pub output: Option<String>,
    pub workspace: Option<WorkspaceDef>,
    pub artifacts: Vec<ArtifactDecl>,
    pub transitions: Vec<TransitionDef>,
    pub max_retries: Option<u32>,
    pub max_visits: Option<u32>,
    pub max_visits_goto: Option<String>,
    pub on_fail: Option<String>,
    pub squash: bool,
}

/// A value in a TOML document, as far as runtime fields read it.
#[derive(Debug)]
pub enum TomlValue {
    String(String),
    Integer(i64),
    /// A float, as it is printed.
    Float(String),
    Boolean(bool),
    /// A date, an array or a table, as TOML writes it.
    Other(String),
}

impl Clone for TomlValue {
    fn clone(&self) -> (r: Self)
        ensures
            r == *self,
    {
        match self {
            TomlValue::String(s) => TomlValue::String(s.clone()),
            TomlValue::Integer(i) => TomlValue::Integer(*i),
            TomlValue::Float(s) => TomlValue::Float(s.clone()),
            TomlValue::Boolean(b) => TomlValue::Boolean(*b),
            TomlValue::Other(s) => TomlValue::Other(s.clone()),
        }
    }
}

/// Runtime specification on a step — selects which runtime to use and passes parameters.
/// In persona-primary mode, `runtime` is optional — the persona declares it.
#[derive(Debug)]
pub struct RuntimeSpec {
    pub runtime: String,
    pub tty: bool,
    pub env: StringMap<String>,
    /// Seconds until the step times out.
    pub timeout: Option<u64>,
    /// All other fields are runtime-definition-specific.
    pub fields: StringMap<TomlValue>,
}

/// Two runtime specifications with the same content.
pub open spec fn same_runtime(a: RuntimeSpec, b: RuntimeSpec) -> bool {
    &&& a.runtime == b.runtime
    &&& a.tty == b.tty
    &&& a.env@ == b.env@
    &&& a.timeout == b.timeout
    &&& a.fields@ == b.fields@
}

impl Clone for RuntimeSpec {
    fn clone(&self) -> (r: Self)
        ensures
            same_runtime(r, *self),
    {
        let fields = self.fields.clone();
        assert(fields@ =~= self.fields@);
        RuntimeSpec {
            runtime: self.runtime.clone(),
            tty: self.tty,
            env: self.env.duplicate(),
            timeout: self.timeout,
            fields,
        }
    }
}

/// Workspace provisioning spec.
#[derive(Debug)]
pub struct WorkspaceDef {
    pub git_clone: bool,
    pub branch: Option<String>,
    pub push: bool,
    pub read_only: bool,
}

impl Clone for WorkspaceDef {
    fn clone(&self) -> (r: Self)
        ensures
            r == *self,
    {
        WorkspaceDef {
            git_clone: self.git_clone,
            branch: copy_option(&self.branch),
            push: self.push,
            read_only: self.read_only,
        }
    }
}

/// A declared artifact on a step.
#[derive(Debug, Clone)]
pub struct ArtifactDecl {
    pub name: String,
}

/// Transition routing based on step output.
#[derive(Debug, Clone)]
pub struct TransitionDef {
    pub match_pattern: String,
    pub goto: String,
}

/// What a variable map needs: the defaults of the omitted variables.
pub open spec fn merged_vars(
    declared: Map<Seq<char>, VarDef>,
    input: Map<Seq<char>, Seq<char>>,
) -> Map<Seq<char>, Seq<char>> {
    Map::new(
        |k: Seq<char>| input.dom().contains(k) || (declared.dom().contains(k) && declared[k].default is Some),
        |k: Seq<char>|
            if input.dom().contains(k) {
                input[k]
            } else {
                declared[k].default->0@
            },
    )
}

/// A required variable without a default that the caller left out.
pub open spec fn missing_var(
    declared: Map<Seq<char>, VarDef>,
    input: Map<Seq<char>, Seq<char>>,
    name: Seq<char>,
) -> bool {
    &&& declared.dom().contains(name)
    &&& !input.dom().contains(name)
    &&& declared[name].default is None
    &&& declared[name].required
}

/// The outcome of validating variables: the merged map where no required variable
/// is missing, else an error that names one that is.
pub open spec fn vars_validated(
    declared: Map<Seq<char>, VarDef>,
    input: Map<Seq<char>, Seq<char>>,
    r: Result<StringMap<String>, String>,
) -> bool {
    match r {
        Ok(m) => {
            &&& forall|name: Seq<char>| !#[trigger] missing_var(declared, input, name)
            &&& m.texts() == merged_vars(declared, input)
        },
        Err(message) => exists|name: Seq<char>| #[trigger]
            missing_var(declared, input, name) && message@ == "missing required variable: "@ + name,
    }
}

fn merge_vars(declared: &StringMap<VarDef>, input: &StringMap<String>) -> (r: Result<StringMap<String>, String>)
    ensures
        vars_validated(declared@, input.texts(), r),
{
    let mut merged = input.duplicate();
    let mut i: usize = 0;
    let ghost known = input.texts();
    while i < declared.len()
        invariant
            0 <= i <= declared.list().len(),
            known == input.texts(),
            forall|k: Seq<char>| #[trigger] known.dom().contains(k) ==> merged@.dom().contains(k) && merged@[k]@ == known[k],
            forall|k: Seq<char>| #[trigger]
                merged@.dom().contains(k) && !known.dom().contains(k) ==> declared@.dom().contains(k)
                    && declared@[k].default is Some && merged@[k]@ == declared@[k].default->0@,
            forall|j: int|
                0 <= j < i ==> merged@.dom().contains(#[trigger] declared.keys()[j]) || (
                declared@[declared.keys()[j]].default is None && !declared@[declared.keys()[j]].required),
        decreases declared.list().len() - i,
    {
        let e = declared.entry(i);
        if !merged.contains_key(e.0.as_str()) {
            match &e.1.default {
                Some(default) => {
                    merged.insert(e.0.clone(), default.clone());
                },
                None => if e.1.required {
                    assert(missing_var(declared@, known, e.0@));
                    return Err(cat("missing required variable: ", e.0.as_str()));
                },
            }
        }
        i += 1;
    }
    proof {
        assert forall|k: Seq<char>| #[trigger] declared@.dom().contains(k) implies merged@.dom().contains(k) || (
        declared@[k].default is None && !declared@[k].required) by {
            let j = declared.keys().index_of(k);
            assert(declared.keys()[j] == k);
        }
        assert forall|name: Seq<char>| !#[trigger] missing_var(declared@, known, name) by {
            if missing_var(declared@, known, name) {
                assert(declared@.dom().contains(name));
            }
        }
        assert(merged.texts() =~= merged_vars(declared@, known)) by {
            assert forall|k: Seq<char>| #[trigger]
                merged_vars(declared@, known).dom().contains(k) implies merged@.dom().contains(k) by {
                if known.dom().contains(k) {
                } else {
                    assert(declared@.dom().contains(k));
                }
            }
        }
    }
    Ok(merged)
}

impl WorkflowDef {
    /// Validate caller-provided vars against declarations.
    ///
    /// Returns the merged variable map: caller values + defaults for
    /// omitted optional vars. Returns an error if a required var is missing.
    pub fn validate_vars(&self, input: &StringMap<String>) -> (r: Result<StringMap<String>, String>)
        ensures
            vars_validated(self.vars@, input.texts(), r),
    {
        merge_vars(&self.vars, input)
    }
}

/// Validation never overrides what the caller gave, adds nothing but declared
/// defaults, and accepts its own result unchanged.
pub proof fn validation_keeps_caller_values_and_is_idempotent(
    declared: Map<Seq<char>, VarDef>,
    input: Map<Seq<char>, Seq<char>>,
)
    requires
        forall|name: Seq<char>| !#[trigger] missing_var(declared, input, name),
    ensures
        forall|k: Seq<char>| #[trigger]
            input.dom().contains(k) ==> merged_vars(declared, input).dom().contains(k) && merged_vars(declared, input)[k]
                == input[k],
        forall|k: Seq<char>| #[trigger]
            merged_vars(declared, input).dom().contains(k) && !input.dom().contains(k) ==> declared.dom().contains(k)
                && declared[k].default is Some && merged_vars(declared, input)[k] == declared[k].default->0@,
        forall|name: Seq<char>| !#[trigger] missing_var(declared, merged_vars(declared, input), name),
        merged_vars(declared, merged_vars(declared, input)) == merged_vars(declared, input),
{
    let m = merged_vars(declared, input);
    assert forall|name: Seq<char>| !#[trigger] missing_var(declared, m, name) by {
        assert(!missing_var(declared, input, name));
    }
    assert(merged_vars(declared, m) =~= m);
}

/// Validation fails exactly where a required variable without a default is left out, and
/// names one that is. Else it gives the caller's values and the default of every declared
/// variable that was left out, and nothing more.
pub proof fn required_variables_must_be_given(
    declared: Map<Seq<char>, VarDef>,
    input: Map<Seq<char>, Seq<char>>,
    r: Result<StringMap<String>, String>,
    name: Seq<char>,
)
    requires
        vars_validated(declared, input, r),
    ensures
        declared.dom().contains(name) && declared[name].required && declared[name].default is None
            && !input.dom().contains(name) ==> r is Err,
        r is Err ==> exists|k: Seq<char>| #[trigger]
            declared.dom().contains(k) && declared[k].required && declared[k].default is None && !input.dom().contains(k)
                && r->Err_0@ == "missing required variable: "@ + k,
        r is Ok && input.dom().contains(name) ==> r->Ok_0.texts().dom().contains(name) && r->Ok_0.texts()[name]
            == input[name],
        r is Ok && !input.dom().contains(name) && declared.dom().contains(name) && declared[name].default is Some
            ==> r->Ok_0.texts().dom().contains(name) && r->Ok_0.texts()[name] == declared[name].default->0@,
        r is Ok && !input.dom().contains(name) && !(declared.dom().contains(name) && declared[name].default is Some)
            ==> !r->Ok_0.texts().dom().contains(name),
{
    if r is Err {
        let k = choose|k: Seq<char>| #[trigger]
            missing_var(declared, input, k) && r->Err_0@ == "missing required variable: "@ + k;
        assert(declared.dom().contains(k));
    } else {
        assert(!missing_var(declared, input, name));
    }
}

// ── Triggers ────────────────────────────────────────────────────────

/// Trigger definition — creates executions in response to conditions.
#[derive(Debug, Clone)]
pub struct TriggerDef {
    /// Event kind to match. For source events this is the watcher-native
    /// `kind` (`node.ready`, `issue.labeled`, ...); for legacy cx events
    /// this is the dotted event type (`cx.task_ready`).
    pub on: String,
    /// Watcher identifier to filter on. Only source events from this
    /// watcher match. `None` means any source. Legacy cx-flavored
    /// triggers leave this unset.
    pub source: Option<String>,
    /// Generic field predicates. Keys are event paths without the
    /// `event.` prefix, e.g. `data.tags` or `data.workflow`.
    pub where_: StringMap<TriggerWhere>,
    pub workflow: String,
    pub poll_interval: Option<String>,
    /// Mapping from workflow var name to a template interpolated against
    /// `{event.*}` fields of the firing event context.
    pub vars: StringMap<String>,
}

/// Errors returned when a trigger cannot produce workflow vars from an event.
#[derive(Debug, Clone, PartialEq, Eq)]
pub enum TriggerError {
    MissingEventField { path: String },
}

impl TriggerError {
    /// The error in words.
    pub fn message(&self) -> (s: String)
        ensures
            s@ == "missing event field: "@ + self->path@,
    {
        match self {
            TriggerError::MissingEventField { path } => cat("missing event field: ", path.as_str()),
        }
    }
}

/// A single `[trigger.where]` condition.
#[derive(Debug, Clone, PartialEq, Eq)]
pub enum TriggerWhere {
    /// Exact scalar match.
    Eq(String),
    /// Array/string containment.
    Contains { contains: String },
}

/// A condition holds of a value: a scalar with the wanted text; or a string that the
/// wanted text occurs in, or an array with a scalar that has the wanted text.
pub open spec fn where_holds(cond: TriggerWhere, value: Option<JsonView>) -> bool {
    match value {
        None => false,
        Some(v) => match cond {
            TriggerWhere::Eq(want) => scalar_text(v) == Some(want@),
            TriggerWhere::Contains { contains } => match v {
                JsonView::Array(items) => exists|i: int|
                    0 <= i < items.len() && scalar_text(#[trigger] items[i]) == Some(contains@),
                JsonView::String(s) => holds_text(s, contains@),
                _ => false,
            },
        },
    }
}

impl TriggerWhere {
    fn scalar_is(v: &Json, want: &str) -> (r: bool)
        ensures
            r == (scalar_text(v@) == Some(want@)),
    {
        match v.scalar_text() {
            Some(s) => same(s.as_str(), want),
            None => false,
        }
    }

    /// Whether the condition holds of a value.
    pub fn matches(&self, value: Option<Json>) -> (r: bool)
        ensures
            r == where_holds(
                *self,
                match value {
                    Some(v) => Some(v@),
                    None => None,
                },
            ),
    {
        match value {
            Some(v) => self.matches_value(&v),
            None => false,
        }
    }

    fn matches_value(&self, value: &Json) -> (r: bool)
        ensures
            r == where_holds(*self, Some(value@)),
    {
        match self {
            TriggerWhere::Eq(want) => Self::scalar_is(value, want.as_str()),
            TriggerWhere::Contains { contains } => match value {
                Json::Array(items) => {
                    let ghost all = value@->Array_0;
                    let mut i: usize = 0;
                    while i < items.len()
                        invariant
                            *self == (TriggerWhere::Contains { contains: *contains }),
                            *value == Json::Array(*items),
                            all == value@->Array_0,
                            0 <= i <= items@.len(),
                            forall|j: int| 0 <= j < i ==> scalar_text(#[trigger] all[j]) != Some(contains@),
                        decreases items@.len() - i,
                    {
                        assert(all[i as int] == items@[i as int]@);
                        if Self::scalar_is(&items[i], contains.as_str()) {
                            return true;
                        }
                        i += 1;
                    }
                    false
                },
                Json::String(s) => contains_part(s.as_str(), contains.as_str()),
                _ => false,
            },
        }
    }
}

/// What a piece of an event template stands for: text, a brace that is left open, and
/// references that do not start with `event.` for themselves, the others for the field
/// they name.
pub open spec fn event_piece(p: PieceView, e: EnvelopeView) -> Result<Seq<char>, Seq<char>> {
    match p {
        PieceView::Text(s) => Ok(s),
        PieceView::Ref(path) => if has_prefix(path, "event."@) {
            match e.resolve(path) {
                Some(s) => Ok(s),
                None => Err(path),
            }
        } else {
            Ok("{"@ + path + "}"@)
        },
        PieceView::Open(rest) => Ok("{"@ + rest),
    }
}

/// The pieces of an event template put together; the first path without a field
/// where there is one.
pub open spec fn event_pieces(ps: Seq<PieceView>, e: EnvelopeView) -> Result<Seq<char>, Seq<char>>
    decreases ps.len(),
{
    if ps.len() == 0 {
        Ok(seq![])
    } else {
        match event_pieces(ps.drop_last(), e) {
            Err(path) => Err(path),
            Ok(head) => match event_piece(ps.last(), e) {
                Err(path) => Err(path),
                Ok(s) => Ok(head + s),
            },
        }
    }
}

/// A template with its event references resolved.
pub open spec fn event_template(template: Seq<char>, e: EnvelopeView) -> Result<Seq<char>, Seq<char>> {
    event_pieces(pieces(template), e)
}

proof fn lemma_event_error_stays(ps: Seq<PieceView>, e: EnvelopeView, k: int)
    requires
        0 <= k <= ps.len(),
        event_pieces(ps.take(k), e) is Err,
    ensures
        event_pieces(ps, e) == event_pieces(ps.take(k), e),
    decreases ps.len(),
{
    if k == ps.len() {
        assert(ps.take(k) =~= ps);
    } else {
        assert(ps.drop_last().take(k) =~= ps.take(k));
        lemma_event_error_stays(ps.drop_last(), e, k);
    }
}

/// Interpolate `{event.X}` references in a template against the given envelope.
/// Literal text and non-event braces are passed through unchanged, and so is a brace
/// that is left open, with what follows it.
pub fn interpolate_event_template(template: &str, envelope: &EventEnvelope) -> (r: Result<String, TriggerError>)
    ensures
        match r {
            Ok(s) => event_template(template@, envelope@) == Ok::<_, Seq<char>>(s@),
            Err(TriggerError::MissingEventField { path }) => event_template(template@, envelope@) == Err::<
                Seq<char>,
                _,
            >(path@),
        },
{
    let ps = read_pieces(template);
    let mut out = String::new();
    let mut i: usize = 0;
    let ghost all = pieces(template@);
    assert(all.take(0) =~= seq![]);
    while i < ps.len()
        invariant
            0 <= i <= ps@.len(),
            piece_views(ps@) == all,
            all == pieces(template@),
            event_pieces(all.take(i as int), envelope@) == Ok::<_, Seq<char>>(out@),
        decreases ps@.len() - i,
    {
        let ghost before = out@;
        let ghost next = all.take(i + 1);
        assert(next.drop_last() =~= all.take(i as int));
        assert(next.last() == ps@[i as int]@);
        match &ps[i] {
            Piece::Text(run) => { out.append(run.as_str()); },
            Piece::Ref(path) => {
                if starts_with(path.as_str(), "event.") {
                    match envelope.resolve(path.as_str()) {
                        Some(value) => { out.append(value.as_str()); },
                        None => {
                            proof {
                                lemma_event_error_stays(all, envelope@, i + 1);
                            }
                            return Err(TriggerError::MissingEventField { path: path.clone() });
                        },
                    }
                } else {
                    out.append("{");
                    out.append(path.as_str());
                    out.append("}");
                    assert(out@ =~= before + ("{"@ + path@ + "}"@));
                }
            },
            Piece::Open(rest) => {
                out.append("{");
                out.append(rest.as_str());
                assert(out@ =~= before + ("{"@ + rest@));
            },
        }
        i += 1;
    }
    assert(all.take(i as int) =~= all);
    Ok(out)
}

/// A template without `{` is passed through unchanged, whatever the event.
pub proof fn event_template_without_references_is_unchanged(template: Seq<char>, e: EnvelopeView)
    requires
        !template.contains('{'),
    ensures
        event_template(template, e) == Ok::<_, Seq<char>>(template),
{
    lemma_plain_pieces(template);
    let ps = pieces(template);
    if template.len() > 0 {
        assert(ps.drop_last() =~= seq![]);
        assert(event_pieces(ps.drop_last(), e)->Ok_0 + template =~= template);
    } else {
        assert(template =~= seq![]);
    }
}

/// A reference that does not start with `event.` is left intact for a later
/// interpolation.
pub proof fn other_references_are_left_intact(name: Seq<char>, e: EnvelopeView)
    requires
        !has_prefix(name, "event."@),
        !name.contains('}'),
    ensures
        event_template("{"@ + name + "}"@, e) == Ok::<_, Seq<char>>("{"@ + name + "}"@),
{
    reveal_strlit("{");
    reveal_strlit("}");
    let t = "{"@ + name + "}"@;
    assert forall|i: int| 1 <= i < 1 + name.len() implies t[i] != '}' by {
        assert(t[i] == name[i - 1]);
        assert(name.contains(name[i - 1]));
    }
    lemma_find_is(t, '}', 1, 1 + name.len() as int);
    assert(t.subrange(1, 1 + name.len() as int) =~= name);
    assert(t.skip(2 + name.len() as int) =~= seq![]);
    assert(pieces(t.skip(2 + name.len() as int)) =~= seq![]);
    assert(pieces(t) =~= seq![PieceView::Ref(name)]);
    assert(pieces(t).drop_last() =~= seq![]);
    assert(event_pieces(pieces(t).drop_last(), e)->Ok_0 + t =~= t);
}

/// A brace that is left open stands for itself with what follows it, behind whatever text
/// comes first.
pub proof fn open_braces_are_left_intact(front: Seq<char>, rest: Seq<char>, e: EnvelopeView)
    requires
        !front.contains('{'),
        !rest.contains('}'),
    ensures
        event_template(front + "{"@ + rest, e) == Ok::<_, Seq<char>>(front + "{"@ + rest),
{
    reveal_strlit("{");
    let t = "{"@ + rest;
    assert forall|i: int| 1 <= i < t.len() implies t[i] != '}' by {
        assert(t[i] == rest[i - 1]);
        assert(rest.contains(rest[i - 1]));
    }
    lemma_find_is(t, '}', 1, t.len() as int);
    assert(t.skip(1) =~= rest);
    assert(pieces(t) =~= seq![PieceView::Open(rest)]);
    let all = front + "{"@ + rest;
    assert(all =~= front + t);
    if front.len() == 0 {
        assert(all =~= t);
        assert(pieces(t).drop_last() =~= seq![]);
        assert(event_pieces(pieces(t).drop_last(), e)->Ok_0 + t =~= t);
    } else {
        let n = front.len() as int;
        assert forall|i: int| 0 <= i < n implies all[i] != '{' by {
            assert(all[i] == front[i]);
            assert(front.contains(front[i]));
        }
        assert(all[n] == '{');
        lemma_find_is(all, '{', 1, n);
        assert(all.take(n) =~= front);
        assert(all.skip(n) =~= t);
        let ps = pieces(all);
        assert(ps =~= seq![PieceView::Text(front), PieceView::Open(rest)]);
        let head = ps.drop_last();
        assert(head =~= seq![PieceView::Text(front)]);
        assert(head.drop_last() =~= seq![]);
        assert(event_pieces(head.drop_last(), e) == Ok::<Seq<char>, Seq<char>>(seq![]));
        assert(Seq::<char>::empty() + front =~= front);
        assert(head.last() == PieceView::Text(front));
        assert(event_pieces(head, e) == Ok::<_, Seq<char>>(front));
        assert(ps.last() == PieceView::Open(rest));
        assert(event_pieces(ps, e) == Ok::<_, Seq<char>>(front + t));
    }
}

/// The variables that a trigger makes of an event: each template resolved, or the
/// path that one of them misses.
pub open spec fn vars_built(
    templates: Map<Seq<char>, Seq<char>>,
    e: EnvelopeView,
    r: Result<StringMap<String>, TriggerError>,
) -> bool {
    match r {
        Ok(m) => {
            &&& m.texts().dom() == templates.dom()
            &&& forall|k: Seq<char>| #[trigger]
                templates.dom().contains(k) ==> event_template(templates[k], e) == Ok::<_, Seq<char>>(m.texts()[k])
        },
        Err(TriggerError::MissingEventField { path }) => exists|k: Seq<char>| #[trigger]
            templates.dom().contains(k) && event_template(templates[k], e) == Err::<Seq<char>, _>(path@),
    }
}

impl TriggerDef {
    /// Every `[trigger.where]` predicate holds of an event.
    pub open spec fn where_matches(&self, e: EnvelopeView) -> bool {
        forall|path: Seq<char>| #[trigger]
            self.where_@.dom().contains(path) ==> where_holds(self.where_@[path], e.resolve_value("event."@ + path))
    }

    /// Return true when every `[trigger.where]` predicate matches the
    /// firing event envelope.
    pub fn matches_where(&self, envelope: &EventEnvelope) -> (r: bool)
        ensures
            r == self.where_matches(envelope@),
    {
        let mut i: usize = 0;
        while i < self.where_.len()
            invariant
                0 <= i <= self.where_.list().len(),
                forall|j: int|
                    0 <= j < i ==> where_holds(
                        self.where_@[#[trigger] self.where_.keys()[j]],
                        envelope@.resolve_value("event."@ + self.where_.keys()[j]),
                    ),
            decreases self.where_.list().len() - i,
        {
            let e = self.where_.entry(i);
            let event_path = cat("event.", e.0.as_str());
            if !e.1.matches(envelope.resolve_value(event_path.as_str())) {
                return false;
            }
            i += 1;
        }
        proof {
            assert forall|path: Seq<char>| #[trigger] self.where_@.dom().contains(path) implies where_holds(
                self.where_@[path],
                envelope@.resolve_value("event."@ + path),
            ) by {
                let j = self.where_.keys().index_of(path);
                assert(self.where_.keys()[j] == path);
            }
        }
        true
    }

    /// Resolve the trigger's `[trigger.vars]` block against an event envelope,
    /// returning the map of workflow vars to pass to `create_execution`.
    ///
    /// Each value is a template that may reference `{event.X}` fields from
    /// the firing event. Unknown fields produce `TriggerError::MissingEventField`.
    pub fn build_vars(&self, envelope: &EventEnvelope) -> (r: Result<StringMap<String>, TriggerError>)
        ensures
            vars_built(self.vars.texts(), envelope@, r),
    {
        let mut out: StringMap<String> = StringMap::new();
        let mut i: usize = 0;
        let ghost templates = self.vars.texts();
        while i < self.vars.len()
            invariant
                0 <= i <= self.vars.list().len(),
                templates == self.vars.texts(),
                forall|k: Seq<char>| #[trigger]
                    out@.dom().contains(k) ==> templates.dom().contains(k) && event_template(templates[k], envelope@)
                        == Ok::<_, Seq<char>>(out@[k]@),
                forall|j: int| 0 <= j < i ==> out@.dom().contains(#[trigger] self.vars.keys()[j]),
            decreases self.vars.list().len() - i,
        {
            let e = self.vars.entry(i);
            match interpolate_event_template(e.1.as_str(), envelope) {
                Ok(value) => { out.insert(e.0.clone(), value); },
                Err(err) => {
                    assert(templates.dom().contains(e.0@));
                    return Err(err);
                },
            }
            i += 1;
        }
        proof {
            assert forall|k: Seq<char>| #[trigger] templates.dom().contains(k) implies out@.dom().contains(k) by {
                let j = self.vars.keys().index_of(k);
                assert(self.vars.keys()[j] == k);
            }
            assert(out.texts().dom() =~= templates.dom());
        }
        Ok(out)
    }

    /// The trigger with a filter on one tag, as the short form of a predicate on
    /// `data.tags`. A predicate on the tags that is there already stays.
    pub fn with_tag(self, tag: Option<String>) -> (r: Self)
        ensures
            r.on == self.on,
            r.source == self.source,
            r.workflow == self.workflow,
            r.poll_interval == self.poll_interval,
            r.vars == self.vars,
            r.where_@ == (match tag {
                Some(t) => if self.where_@.dom().contains("data.tags"@) {
                    self.where_@
                } else {
                    self.where_@.insert("data.tags"@, TriggerWhere::Contains { contains: t })
                },
                None => self.where_@,
            }),
    {
        let mut where_ = self.where_;
        if let Some(t) = tag {
            if !where_.contains_key("data.tags") {
                where_.insert("data.tags".to_owned(), TriggerWhere::Contains { contains: t });
            }
        }
        TriggerDef {
            on: self.on,
            source: self.source,
            where_,
            workflow: self.workflow,
            poll_interval: self.poll_interval,
            vars: self.vars,
        }
    }

    /// The trigger fires on an event: its kind, its source and its predicates match.
    pub open spec fn fires_on(&self, e: EnvelopeView) -> bool {
        &&& self.on@ == e.kind
        &&& match self.source {
            Some(source) => source@ == e.source,
            None => true,
        }
        &&& self.where_matches(e)
    }

    /// Whether the trigger fires on an event.
    pub fn matches(&self, envelope: &EventEnvelope) -> (r: bool)
        ensures
            r == self.fires_on(envelope@),
    {
        if !same(self.on.as_str(), envelope.kind.as_str()) {
            return false;
        }
        match &self.source {
            Some(source) => if !same(source.as_str(), envelope.source.as_str()) {
                return false;
            },
            None => {},
        }
        self.matches_where(envelope)
    }
}

/// A trigger does not fire on an event of another kind or, where it names one, of another
/// source, nor on one that a predicate fails on; it fires on every other.
pub proof fn triggers_fire_on_their_events(t: TriggerDef, e: EnvelopeView, path: Seq<char>)
    ensures
        t.on@ != e.kind ==> !t.fires_on(e),
        t.source is Some && t.source->0@ != e.source ==> !t.fires_on(e),
        t.where_@.dom().contains(path) && !where_holds(t.where_@[path], e.resolve_value("event."@ + path))
            ==> !t.fires_on(e),
        t.on@ == e.kind && (t.source is None || t.source->0@ == e.source) && (forall|p: Seq<char>| #[trigger]
            t.where_@.dom().contains(p) ==> where_holds(t.where_@[p], e.resolve_value("event."@ + p))) ==> t.fires_on(e),
{
}

/// A predicate for an exact match holds of the scalar with that text and of nothing else.
/// One for containment holds of an array that has it as an element, and of a text that it
/// occurs in. Neither holds of a field that is not there.
pub proof fn predicates_compare_texts(
    want: String,
    s: Seq<char>,
    items: Seq<Seq<char>>,
    members: Seq<(Seq<char>, JsonView)>,
)
    ensures
        !where_holds(TriggerWhere::Eq(want), None),
        !where_holds(TriggerWhere::Contains { contains: want }, None),
        where_holds(TriggerWhere::Eq(want), Some(JsonView::String(s))) <==> s == want@,
        where_holds(TriggerWhere::Eq(want), Some(JsonView::Bool(true))) <==> want@ == "true"@,
        !where_holds(TriggerWhere::Eq(want), Some(JsonView::Object(members))),
        !where_holds(TriggerWhere::Eq(want), Some(JsonView::Null)),
        !where_holds(TriggerWhere::Contains { contains: want }, Some(JsonView::Null)),
        !where_holds(TriggerWhere::Contains { contains: want }, Some(JsonView::Object(members))),
        where_holds(
            TriggerWhere::Contains { contains: want },
            Some(JsonView::Array(items.map_values(|x: Seq<char>| JsonView::String(x)))),
        ) <==> items.contains(want@),
        where_holds(TriggerWhere::Contains { contains: want }, Some(JsonView::String(s))) <==> exists|i: int|
            0 <= i <= s.len() - want@.len() && #[trigger] s.subrange(i, i + want@.len()) == want@,
{
    let all = items.map_values(|x: Seq<char>| JsonView::String(x));
    if items.contains(want@) {
        let i = items.index_of(want@);
        assert(scalar_text(all[i]) == Some(want@));
    }
    if exists|i: int| 0 <= i < all.len() && scalar_text(#[trigger] all[i]) == Some(want@) {
        let i = choose|i: int| 0 <= i < all.len() && scalar_text(#[trigger] all[i]) == Some(want@);
        assert(items[i] == want@);
    }
    if holds_text(s, want@) {
        let k = choose|k: int| occurs_at(s, want@, k);
        assert(s.subrange(k, k + want@.len()) == want@);
    }
    if exists|i: int| 0 <= i <= s.len() - want@.len() && #[trigger] s.subrange(i, i + want@.len()) == want@ {
        let i = choose|i: int| 0 <= i <= s.len() - want@.len() && #[trigger] s.subrange(i, i + want@.len()) == want@;
        assert(occurs_at(s, want@, i));
    }
}

/// The variables of a trigger are made exactly where every template resolves, each from its
/// own; else the error names what one of them misses.
pub proof fn trigger_vars_are_all_built(
    templates: Map<Seq<char>, Seq<char>>,
    e: EnvelopeView,
    r: Result<StringMap<String>, TriggerError>,
    name: Seq<char>,
)
    requires
        vars_built(templates, e, r),
    ensures
        templates.dom().contains(name) && event_template(templates[name], e) is Err ==> r is Err,
        r is Ok ==> r->Ok_0.texts().dom().contains(name) == templates.dom().contains(name),
        r is Ok && templates.dom().contains(name) ==> event_template(templates[name], e) == Ok::<_, Seq<char>>(
            r->Ok_0.texts()[name],
        ),
        r is Err ==> exists|k: Seq<char>| #[trigger]
            templates.dom().contains(k) && event_template(templates[k], e) == Err::<Seq<char>, _>(r->Err_0->path@),
{
}

/// A reference to a field of the event stands for the text of the field, and is the error
/// where there is none.
pub proof fn event_references_stand_for_fields(name: Seq<char>, e: EnvelopeView)
    requires
        !name.contains('}'),
    ensures
        event_template("{"@ + ("event."@ + name) + "}"@, e) == (match e.resolve("event."@ + name) {
            Some(s) => Ok::<_, Seq<char>>(s),
            None => Err("event."@ + name),
        }),
{
    reveal_strlit("{");
    reveal_strlit("}");
    reveal_strlit("event.");
    let path = "event."@ + name;
    let t = "{"@ + path + "}"@;
    let n = path.len() as int;
    assert forall|i: int| 1 <= i < 1 + n implies t[i] != '}' by {
        assert(t[i] == path[i - 1]);
        if i - 1 >= 6 {
            assert(name.contains(name[i - 7]));
        }
    }
    lemma_find_is(t, '}', 1, 1 + n);
    assert(t.subrange(1, 1 + n) =~= path);
    assert(t.skip(2 + n) =~= seq![]);
    assert(pieces(t.skip(2 + n)) =~= seq![]);
    assert(pieces(t) =~= seq![PieceView::Ref(path)]);
    assert(path.subrange(0, 6) =~= "event."@);
    assert(pieces(t).drop_last() =~= seq![]);
    assert(event_pieces(pieces(t).drop_last(), e) == Ok::<Seq<char>, Seq<char>>(seq![]));
    if let Some(s) = e.resolve(path) {
        assert(Seq::<char>::empty() + s =~= s);
    }
}

/// Two results of event templates put together; the error of the first that has one.
pub open spec fn event_joined(
    a: Result<Seq<char>, Seq<char>>,
    b: Result<Seq<char>, Seq<char>>,
) -> Result<Seq<char>, Seq<char>> {
    match a {
        Err(p) => Err(p),
        Ok(x) => match b {
            Err(p) => Err(p),
            Ok(y) => Ok(x + y),
        },
    }
}

/// An event template goes part by part: where the first part closes its references, the
/// whole gives the error of the first part, or that of the second, or both results one
/// behind the other.
pub proof fn event_templates_go_part_by_part(a: Seq<char>, b: Seq<char>, e: EnvelopeView)
    requires
        ends_outside(a),
    ensures
        event_template(a + b, e) == event_joined(event_template(a, e), event_template(b, e)),
    decreases a.len(),
{
    let t = a + b;
    let of_b = event_template(b, e);
    if a.len() == 0 {
        assert(t =~= b);
        assert(pieces(a) =~= seq![]);
        lemma_event_joined(Ok(Seq::empty()), of_b, of_b);
    } else {
        assert(t[0] == a[0]);
        let end = find_from(a, '}', 1);
        lemma_find_from(a, '}', 1);
        let k = if a[0] == '{' { end + 1 } else { 1 };
        let rest = a.skip(k);
        assert(t.skip(k) =~= rest + b);
        event_templates_go_part_by_part(rest, b, e);
        let of_rest = event_template(rest, e);
        if a[0] == '{' {
            assert forall|i: int| 1 <= i < end implies t[i] != '}' by {
                assert(t[i] == a[i]);
            }
            assert(t[end] == a[end]);
            lemma_find_is(t, '}', 1, end);
            assert(t.subrange(1, end) =~= a.subrange(1, end));
            let p = PieceView::Ref(a.subrange(1, end));
            lemma_event_front(p, pieces(rest), e);
            lemma_event_front(p, pieces(rest + b), e);
            lemma_event_joined(event_piece(p, e), of_rest, of_b);
        } else {
            lemma_event_text_front(a, e);
            lemma_event_text_front(t, e);
            lemma_event_joined(Ok(seq![a[0]]), of_rest, of_b);
        }
    }
}

proof fn lemma_event_joined(
    a: Result<Seq<char>, Seq<char>>,
    b: Result<Seq<char>, Seq<char>>,
    c: Result<Seq<char>, Seq<char>>,
)
    ensures
        event_joined(event_joined(a, b), c) == event_joined(a, event_joined(b, c)),
        event_joined(Ok(Seq::empty()), c) == c,
        event_joined(c, Ok(Seq::empty())) == c,
{
    if let Ok(z) = c {
        assert(Seq::empty() + z =~= z);
        assert(z + Seq::empty() =~= z);
        if let (Ok(x), Ok(y)) = (a, b) {
            assert((x + y) + z =~= x + (y + z));
        }
    }
}

proof fn lemma_event_front(p: PieceView, ps: Seq<PieceView>, e: EnvelopeView)
    ensures
        event_pieces(seq![p] + ps, e) == event_joined(event_piece(p, e), event_pieces(ps, e)),
    decreases ps.len(),
{
    let all = seq![p] + ps;
    let first = event_piece(p, e);
    if ps.len() == 0 {
        assert(all.drop_last() =~= seq![]);
        assert(all.last() == p);
        assert(event_pieces(all.drop_last(), e) == Ok::<_, Seq<char>>(Seq::<char>::empty()));
        lemma_event_joined(first, first, first);
    } else {
        assert(all.drop_last() =~= seq![p] + ps.drop_last());
        assert(all.last() == ps.last());
        lemma_event_front(p, ps.drop_last(), e);
        lemma_event_joined(first, event_pieces(ps.drop_last(), e), event_piece(ps.last(), e));
    }
}

proof fn lemma_event_text_front(t: Seq<char>, e: EnvelopeView)
    requires
        t.len() > 0,
        t[0] != '{',
    ensures
        event_template(t, e) == event_joined(Ok(seq![t[0]]), event_template(t.skip(1), e)),
{
    let end = find_from(t, '{', 1);
    lemma_find_from(t, '{', 1);
    let run = PieceView::Text(t.take(end));
    let behind = pieces(t.skip(end));
    lemma_event_front(run, behind, e);
    let rest = t.skip(1);
    if end == 1 {
        assert(t.take(1) =~= seq![t[0]]);
    } else {
        assert forall|i: int| 1 <= i < end - 1 implies rest[i] != '{' by {
            assert(rest[i] == t[i + 1]);
        }
        assert(rest[0] == t[1]);
        lemma_find_is(rest, '{', 1, end - 1);
        assert(rest.take(end - 1) =~= t.subrange(1, end));
        assert(rest.skip(end - 1) =~= t.skip(end));
        lemma_event_front(PieceView::Text(t.subrange(1, end)), behind, e);
        assert(t.take(end) =~= seq![t[0]] + t.subrange(1, end));
        lemma_event_joined(Ok(seq![t[0]]), Ok(t.subrange(1, end)), event_pieces(behind, e));
    }
}

/// Layout of a standalone triggers file: `[[trigger]]` arrays.
#[derive(Debug)]
pub struct TriggersFile {
    pub trigger: Vec<TriggerDef>,
}

// ── Workflow Engine ─────────────────────────────────────────────────

/// `indexmap::IndexMap`, a hash map that keeps insertion order.
#[verifier::external_type_specification]
#[verifier::external_body]
#[verifier::reject_recursive_types(K)]
#[verifier::reject_recursive_types(V)]
#[verifier::reject_recursive_types(S)]
pub struct ExIndexMap<K, V, S>(indexmap::IndexMap<K, V, S>);

/// The steps that an `IndexMap` holds, in order, each with its key.
pub uninterp spec fn step_entries(m: IndexMap<String, StepDef>) -> Seq<(Seq<char>, StepDef)>;

/// The position of the first entry with a key; the number of entries where there
/// is none.
pub open spec fn position_of<V>(entries: Seq<(Seq<char>, V)>, key: Seq<char>) -> int
    decreases entries.len(),
{
    if entries.len() == 0 {
        0
    } else if entries[0].0 == key {
        0
    } else {
        1 + position_of(entries.skip(1), key)
    }
}

/// The entries with the value of a key set: in place where the key is known, behind
/// the others where it is new.
pub open spec fn upsert<V>(entries: Seq<(Seq<char>, V)>, key: Seq<char>, value: V) -> Seq<(Seq<char>, V)> {
    let i = position_of(entries, key);
    if i < entries.len() {
        entries.update(i, (key, value))
    } else {
        entries.push((key, value))
    }
}

/// The position of a key lies within the entries exactly where one has it.
pub proof fn lemma_position<V>(entries: Seq<(Seq<char>, V)>, key: Seq<char>)
    ensures
        0 <= position_of(entries, key) <= entries.len(),
        position_of(entries, key) < entries.len() ==> entries[position_of(entries, key)].0 == key,
        forall|i: int| 0 <= i < position_of(entries, key) ==> (#[trigger] entries[i]).0 != key,
    decreases entries.len(),
{
    if entries.len() > 0 && entries[0].0 != key {
        lemma_position(entries.skip(1), key);
        assert forall|i: int| 0 <= i < position_of(entries, key) implies (#[trigger] entries[i]).0 != key by {
            if i > 0 {
                assert(entries[i] == entries.skip(1)[i - 1]);
            }
        }
    }
}

/// Calls `IndexMap::new`: a map without entries.
#[verifier::external_body]
fn steps_new() -> (m: IndexMap<String, StepDef>)
    ensures
        step_entries(m) == Seq::<(Seq<char>, StepDef)>::empty(),
{
    IndexMap::new()
}

/// Calls `IndexMap::insert`: a known key keeps its place and gets the new value, a
/// new key goes last.
#[verifier::external_body]
fn steps_insert(m: &mut IndexMap<String, StepDef>, key: String, step: StepDef)
    ensures
        step_entries(*final(m)) == upsert(step_entries(*old(m)), key@, step),
{
    m.insert(key, step);
}

/// Calls `IndexMap::get`: the value of a key.
#[verifier::external_body]
fn steps_get<'a>(m: &'a IndexMap<String, StepDef>, key: &str) -> (r: Option<&'a StepDef>)
    ensures
        match r {
            Some(step) => position_of(step_entries(*m), key@) < step_entries(*m).len() && *step == step_entries(
                *m,
            )[position_of(step_entries(*m), key@)].1,
            None => position_of(step_entries(*m), key@) == step_entries(*m).len(),
        },
{
    m.get(key)
}

/// Calls `IndexMap::get_index_of`: the position of a key. There are no more entries
/// than a `usize` can count.
#[verifier::external_body]
fn steps_index_of(m: &IndexMap<String, StepDef>, key: &str) -> (r: Option<usize>)
    ensures
        match r {
            Some(i) => i < step_entries(*m).len() <= usize::MAX && i == position_of(step_entries(*m), key@),
            None => position_of(step_entries(*m), key@) == step_entries(*m).len(),
        },
{
    m.get_index_of(key)
}

/// Calls `IndexMap::get_index`: the entry at a position.
#[verifier::external_body]
fn steps_at(m: &IndexMap<String, StepDef>, i: usize) -> (r: Option<(&String, &StepDef)>)
    ensures
        match r {
            Some((key, step)) => i < step_entries(*m).len() && step_entries(*m)[i as int] == (key@, *step),
            None => i >= step_entries(*m).len(),
        },
{
    m.get_index(i)
}

/// Step graph indexed by name for O(1) lookup with preserved declaration order.
#[derive(Debug)]
pub struct WorkflowEngine {
    pub name: String,
    /// Default persona for steps that don't specify their own.
    pub persona: Option<String>,
    /// Workflow-level skills.
    pub skills: Vec<String>,
    pub vars: StringMap<VarDef>,
    pub steps: IndexMap<String, StepDef>,
}

/// Result of advancing to the next step.
#[derive(Debug, PartialEq, Eq)]
pub enum StepAdvance {
    Goto(String),
    Escalate,
    Complete,
}

/// What an advance is.
pub enum AdvanceView {
    Goto(Seq<char>),
    Escalate,
    Complete,
}

impl View for StepAdvance {
    type V = AdvanceView;

    open spec fn view(&self) -> AdvanceView {
        match self {
            StepAdvance::Goto(s) => AdvanceView::Goto(s@),
            StepAdvance::Escalate => AdvanceView::Escalate,
            StepAdvance::Complete => AdvanceView::Complete,
        }
    }
}

/// The entries of a list of step definitions: by name, where a name comes twice
/// the later definition in the place of the first.
pub open spec fn steps_by_name(steps: Seq<StepDef>) -> Seq<(Seq<char>, StepDef)>
    decreases steps.len(),
{
    if steps.len() == 0 {
        seq![]
    } else {
        upsert(steps_by_name(steps.drop_last()), steps.last().name@, steps.last())
    }
}

/// The advance that a reserved target stands for.
pub open spec fn reserved_advance(target: Seq<char>) -> Option<AdvanceView> {
    if target == "complete"@ {
        Some(AdvanceView::Complete)
    } else if target == "escalate"@ {
        Some(AdvanceView::Escalate)
    } else {
        None
    }
}

/// A pattern matches an output: the catch-all every one, any other pattern itself and
/// itself with a detail behind a colon. The colon may stand in the pattern.
pub open spec fn pattern_matches(pattern: Seq<char>, output: Seq<char>) -> bool {
    ||| pattern == "*"@
    ||| output == pattern
    ||| has_prefix(output, pattern + ":"@)
    ||| has_suffix(pattern, ":"@) && has_prefix(output, pattern)
}

/// The target of the first transition whose pattern matches an output.
pub open spec fn matching_goto(transitions: Seq<TransitionDef>, output: Seq<char>) -> Option<Seq<char>>
    decreases transitions.len(),
{
    if transitions.len() == 0 {
        None
    } else if pattern_matches(transitions[0].match_pattern@, output) {
        Some(transitions[0].goto@)
    } else {
        matching_goto(transitions.skip(1), output)
    }
}

/// Where an output leads before visits are counted: out of the graph, or to a step.
#[derive(Debug)]
pub enum Target {
    Leave(StepAdvance),
    Visit(String),
}

impl View for Target {
    type V = Route;

    open spec fn view(&self) -> Route {
        match self {
            Target::Leave(advance) => Route::Leave(advance@),
            Target::Visit(step) => Route::Visit(step@),
        }
    }
}

/// What a target is.
pub enum Route {
    Leave(AdvanceView),
    Visit(Seq<char>),
}

/// Where the output of a step leads.
pub open spec fn route(steps: Seq<(Seq<char>, StepDef)>, current: Seq<char>, output: Seq<char>) -> Route {
    let i = position_of(steps, current);
    if i >= steps.len() {
        Route::Leave(AdvanceView::Escalate)
    } else {
        match matching_goto(steps[i].1.transitions@, output) {
            Some(goto) => match reserved_advance(goto) {
                Some(advance) => Route::Leave(advance),
                None => Route::Visit(goto),
            },
            None => if i + 1 < steps.len() {
                Route::Visit(steps[i + 1].0)
            } else {
                Route::Leave(AdvanceView::Complete)
            },
        }
    }
}

/// The number of visits of a step.
pub open spec fn visits(counts: Map<Seq<char>, u32>, step: Seq<char>) -> nat {
    if counts.dom().contains(step) {
        counts[step] as nat
    } else {
        0
    }
}

/// What comes of the `count`-th visit to a step: the step itself, or, where the
/// visits are used up, what the step names for that case.
pub open spec fn arrival(steps: Seq<(Seq<char>, StepDef)>, target: Seq<char>, count: nat) -> AdvanceView {
    let i = position_of(steps, target);
    if i < steps.len() && steps[i].1.max_visits is Some && count > steps[i].1.max_visits->0 {
        let goto = match steps[i].1.max_visits_goto {
            Some(goto) => goto@,
            None => "escalate"@,
        };
        match reserved_advance(goto) {
            Some(advance) => advance,
            None => AdvanceView::Goto(goto),
        }
    } else {
        AdvanceView::Goto(target)
    }
}

/// The next step, given where the output leads and the visits so far.
pub open spec fn advance_along(
    steps: Seq<(Seq<char>, StepDef)>,
    r: Route,
    counts: Map<Seq<char>, u32>,
) -> AdvanceView {
    match r {
        Route::Leave(advance) => advance,
        Route::Visit(target) => arrival(steps, target, visits(counts, target) + 1),
    }
}

/// The visits behind a step: one more for the step that the output leads to.
pub open spec fn counts_along(r: Route, counts: Map<Seq<char>, u32>) -> Map<Seq<char>, u32> {
    match r {
        Route::Leave(_) => counts,
        Route::Visit(target) => counts.insert(target, (visits(counts, target) + 1) as u32),
    }
}

/// The visit that a route counts still fits in the counter.
pub open spec fn visit_fits(r: Route, counts: Map<Seq<char>, u32>) -> bool {
    match r {
        Route::Leave(_) => true,
        Route::Visit(target) => visits(counts, target) < u32::MAX,
    }
}

impl WorkflowEngine {
    /// The steps in declaration order.
    pub open spec fn step_list(&self) -> Seq<(Seq<char>, StepDef)> {
        step_entries(self.steps)
    }

    /// The step graph of a definition.
    pub fn from_def(def: WorkflowDef) -> (r: Self)
        ensures
            r.name == def.name,
            r.persona == def.persona,
            r.skills == def.skills,
            r.vars == def.vars,
            r.step_list() == steps_by_name(def.steps@),
    {
        let mut rest = def.steps;
        let mut steps = steps_new();
        let ghost all = rest@;
        let ghost mut done: int = 0;
        assert(all.take(0) =~= seq![]);
        assert(all.skip(0) =~= all);
        while rest.len() > 0
            invariant
                0 <= done <= all.len(),
                rest@ == all.skip(done),
                step_entries(steps) == steps_by_name(all.take(done)),
            decreases rest@.len(),
        {
            let step = rest.remove(0);
            let ghost next = all.take(done + 1);
            assert(next.drop_last() =~= all.take(done));
            assert(next.last() == step);
            assert(rest@ =~= all.skip(done + 1));
            steps_insert(&mut steps, step.name.clone(), step);
            proof {
                done = done + 1;
            }
        }
        assert(all.take(done) =~= all);
        WorkflowEngine { name: def.name, persona: def.persona, skills: def.skills, vars: def.vars, steps }
    }

    /// Validate caller-provided vars against declarations.
    /// See [`WorkflowDef::validate_vars`] for details.
    pub fn validate_vars(&self, input: &StringMap<String>) -> (r: Result<StringMap<String>, String>)
        ensures
            vars_validated(self.vars@, input.texts(), r),
    {
        merge_vars(&self.vars, input)
    }

    /// The definition of a step.
    pub fn step(&self, name: &str) -> (r: Option<&StepDef>)
        ensures
            match r {
                Some(step) => position_of(self.step_list(), name@) < self.step_list().len() && *step
                    == self.step_list()[position_of(self.step_list(), name@)].1,
                None => position_of(self.step_list(), name@) == self.step_list().len(),
            },
    {
        steps_get(&self.steps, name)
    }

    /// Determine where the output of a step leads, before visits are counted.
    pub fn target_of(&self, current_step: &str, output: &str) -> (r: Target)
        ensures
            r@ == route(self.step_list(), current_step@, output@),
    {
        let step_def = match steps_get(&self.steps, current_step) {
            Some(s) => s,
            None => { return Target::Leave(StepAdvance::Escalate); },
        };

        // Check transitions on the current step
        let mut i: usize = 0;
        let ghost ts = step_def.transitions@;
        assert(ts.skip(0) =~= ts);
        while i < step_def.transitions.len()
            invariant
                0 <= i <= ts.len(),
                ts == step_def.transitions@,
                position_of(self.step_list(), current_step@) < self.step_list().len(),
                *step_def == self.step_list()[position_of(self.step_list(), current_step@)].1,
                matching_goto(ts, output@) == matching_goto(ts.skip(i as int), output@),
            decreases ts.len() - i,
        {
            let transition = &step_def.transitions[i];
            assert(ts.skip(i as int)[0] == *transition);
            assert(ts.skip(i as int).skip(1) =~= ts.skip(i + 1));
            if transition_matches(transition.match_pattern.as_str(), output) {
                return match reserved_step_advance(transition.goto.as_str()) {
                    Some(advance) => Target::Leave(advance),
                    None => Target::Visit(transition.goto.clone()),
                };
            }
            i += 1;
        }

        // No transition matched — advance to next in declaration order
        match steps_index_of(&self.steps, current_step) {
            Some(at) => match steps_at(&self.steps, at + 1) {
                Some((name, _)) => Target::Visit(name.clone()),
                None => Target::Leave(StepAdvance::Complete),
            },
            None => Target::Leave(StepAdvance::Escalate),
        }
    }

    /// Determine the next step after the current step completes with the given output.
    pub fn next_step(&self, current_step: &str, output: &str, visit_counts: &mut StringMap<u32>) -> (r: StepAdvance)
        requires
            visit_fits(route(self.step_list(), current_step@, output@), old(visit_counts)@),
        ensures
            r@ == advance_along(
                self.step_list(),
                route(self.step_list(), current_step@, output@),
                old(visit_counts)@,
            ),
            final(visit_counts)@ == counts_along(
                route(self.step_list(), current_step@, output@),
                old(visit_counts)@,
            ),
    {
        match self.target_of(current_step, output) {
            Target::Leave(advance) => advance,
            Target::Visit(target) => self.check_visits(target.as_str(), visit_counts),
        }
    }

    /// Counts a visit of a step, and tells where it leads: to the step itself, or, where the
    /// step has had its visits, to what it names for that case.
    pub fn check_visits(&self, target: &str, visit_counts: &mut StringMap<u32>) -> (r: StepAdvance)
        requires
            visits(old(visit_counts)@, target@) < u32::MAX,
        ensures
            r@ == arrival(self.step_list(), target@, visits(old(visit_counts)@, target@) + 1),
            final(visit_counts)@ == counts_along(Route::Visit(target@), old(visit_counts)@),
    {
        let before: u32 = match visit_counts.get(target) {
            Some(n) => *n,
            None => 0,
        };
        let count: u32 = before + 1;
        visit_counts.insert(target.to_owned(), count);
        if let Some(step_def) = steps_get(&self.steps, target) {
            if let Some(max) = step_def.max_visits {
                if count > max {
                    let goto: &str = match &step_def.max_visits_goto {
                        Some(goto) => goto.as_str(),
                        None => "escalate",
                    };
                    return match reserved_step_advance(goto) {
                        Some(advance) => advance,
                        None => StepAdvance::Goto(goto.to_owned()),
                    };
                }
            }
        }
        StepAdvance::Goto(target.to_owned())
    }

    /// Get the first step name.
    pub fn first_step(&self) -> (r: Option<&str>)
        ensures
            match r {
                Some(name) => self.step_list().len() > 0 && name@ == self.step_list()[0].0,
                None => self.step_list().len() == 0,
            },
    {
        match steps_at(&self.steps, 0) {
            Some((name, _)) => Some(name.as_str()),
            None => None,
        }
    }
}

/// The advance that a reserved target stands for.
pub fn reserved_step_advance(target: &str) -> (r: Option<StepAdvance>)
    ensures
        match r {
            Some(advance) => reserved_advance(target@) == Some(advance@),
            None => reserved_advance(target@) is None,
        },
{
    if same(target, "complete") {
        Some(StepAdvance::Complete)
    } else if same(target, "escalate") {
        Some(StepAdvance::Escalate)
    } else {
        None
    }
}

/// Prefix match with `:` delimiter. `"pass:7"` matches pattern `"pass"`, and
/// pattern `"pass:"` too. `"*"` is a catch-all.
pub fn transition_matches(pattern: &str, output: &str) -> (r: bool)
    ensures
        r == pattern_matches(pattern@, output@),
{
    if same(pattern, "*") {
        return true;
    }
    same(output, pattern) || starts_with(output, cat(pattern, ":").as_str()) || (ends_with(pattern, ":") && starts_with(
        output,
        pattern,
    ))
}

/// The first transition that matches decides, whatever stands behind it.
pub proof fn first_matching_transition_wins(transitions: Seq<TransitionDef>, output: Seq<char>, i: int)
    requires
        0 <= i < transitions.len(),
        pattern_matches(transitions[i].match_pattern@, output),
        forall|j: int| 0 <= j < i ==> !pattern_matches((#[trigger] transitions[j]).match_pattern@, output),
    ensures
        matching_goto(transitions, output) == Some(transitions[i].goto@),
    decreases transitions.len(),
{
    if i > 0 {
        assert(!pattern_matches(transitions[0].match_pattern@, output));
        assert forall|j: int| 0 <= j < i - 1 implies !pattern_matches(
            (#[trigger] transitions.skip(1)[j]).match_pattern@,
            output,
        ) by {
            assert(transitions.skip(1)[j] == transitions[j + 1]);
        }
        first_matching_transition_wins(transitions.skip(1), output, i - 1);
    }
}

/// `*` matches every output; every pattern matches itself and itself with a detail
/// behind a colon.
pub proof fn patterns_match_with_details(pattern: Seq<char>, output: Seq<char>, detail: Seq<char>)
    ensures
        pattern_matches("*"@, output),
        pattern_matches(pattern, pattern),
        pattern_matches(pattern, pattern + ":"@ + detail),
        pattern_matches(pattern + ":"@, pattern + ":"@ + detail),
{
    let p = pattern + ":"@;
    assert((p + detail).subrange(0, p.len() as int) =~= p);
    assert(p.subrange(p.len() - ":"@.len(), p.len() as int) =~= ":"@);
}

/// An output that no transition of a step matches leads to the step declared next, and
/// out of the graph as complete only behind the last one. It makes no difference whether
/// the step has transitions.
pub proof fn unmatched_outputs_go_to_the_next_step(steps: Seq<(Seq<char>, StepDef)>, i: int, output: Seq<char>)
    requires
        0 <= i < steps.len(),
        forall|j: int| 0 <= j < i ==> (#[trigger] steps[j]).0 != steps[i].0,
        forall|j: int|
            0 <= j < steps[i].1.transitions@.len() ==> !pattern_matches(
                (#[trigger] steps[i].1.transitions@[j]).match_pattern@,
                output,
            ),
    ensures
        i + 1 < steps.len() ==> route(steps, steps[i].0, output) == Route::Visit(steps[i + 1].0),
        i + 1 == steps.len() ==> route(steps, steps[i].0, output) == Route::Leave(AdvanceView::Complete),
{
    lemma_position_is(steps, i);
    lemma_no_match(steps[i].1.transitions@, output);
}

/// An output that a transition matches, and none before it, leads where that transition
/// says: out of the graph for the two reserved names, else to the step of that name.
pub proof fn matched_outputs_go_where_the_transition_says(
    steps: Seq<(Seq<char>, StepDef)>,
    i: int,
    output: Seq<char>,
    k: int,
)
    requires
        0 <= i < steps.len(),
        forall|j: int| 0 <= j < i ==> (#[trigger] steps[j]).0 != steps[i].0,
        0 <= k < steps[i].1.transitions@.len(),
        pattern_matches(steps[i].1.transitions@[k].match_pattern@, output),
        forall|j: int|
            0 <= j < k ==> !pattern_matches((#[trigger] steps[i].1.transitions@[j]).match_pattern@, output),
    ensures
        ({
            let goto = steps[i].1.transitions@[k].goto@;
            let r = route(steps, steps[i].0, output);
            &&& goto == "complete"@ ==> r == Route::Leave(AdvanceView::Complete)
            &&& goto == "escalate"@ ==> r == Route::Leave(AdvanceView::Escalate)
            &&& goto != "complete"@ && goto != "escalate"@ ==> r == Route::Visit(goto)
        }),
{
    lemma_position_is(steps, i);
    first_matching_transition_wins(steps[i].1.transitions@, output, k);
    lemma_reserved_names_differ();
}

/// A step that the graph does not have leads to a human, whatever its output.
pub proof fn unknown_steps_escalate(steps: Seq<(Seq<char>, StepDef)>, current: Seq<char>, output: Seq<char>)
    requires
        forall|j: int| 0 <= j < steps.len() ==> (#[trigger] steps[j]).0 != current,
    ensures
        route(steps, current, output) == Route::Leave(AdvanceView::Escalate),
{
    lemma_position(steps, current);
}

/// Leaving the graph is final, and a step without a visit limit, or one that the graph
/// does not have, is entered at every visit.
pub proof fn unlimited_steps_are_always_entered(
    steps: Seq<(Seq<char>, StepDef)>,
    target: Seq<char>,
    counts: Map<Seq<char>, u32>,
    advance: AdvanceView,
)
    requires
        forall|j: int|
            0 <= j < steps.len() && (#[trigger] steps[j]).0 == target ==> steps[j].1.max_visits is None,
    ensures
        advance_along(steps, Route::Leave(advance), counts) == advance,
        advance_along(steps, Route::Visit(target), counts) == AdvanceView::Goto(target),
{
    lemma_position(steps, target);
}

/// A pattern other than the catch-all matches nothing but itself and what stands behind
/// it after a colon: `pass` matches neither `passed` nor `pas`.
pub proof fn patterns_match_nothing_else(pattern: Seq<char>, output: Seq<char>)
    requires
        pattern != "*"@,
        pattern_matches(pattern, output),
    ensures
        output.len() >= pattern.len(),
        output.take(pattern.len() as int) == pattern,
        output.len() > pattern.len() ==> output[pattern.len() as int] == ':' || (pattern.len() > 0 && pattern.last()
            == ':'),
{
    reveal_strlit(":");
    let n = pattern.len() as int;
    if output == pattern {
        assert(output.take(n) =~= pattern);
    } else if has_prefix(output, pattern + ":"@) {
        let p = pattern + ":"@;
        let front = output.subrange(0, p.len() as int);
        assert(front == p);
        assert(output.take(n) =~= p.take(n));
        assert(p.take(n) =~= pattern);
        assert(output[n] == front[n]);
    } else {
        assert(output.subrange(0, n) =~= output.take(n));
        assert(pattern.subrange(n - 1, n)[0] == pattern.last());
    }
}

proof fn lemma_reserved_names_differ()
    ensures
        "complete"@ != "escalate"@,
{
    reveal_strlit("escalate");
    reveal_strlit("complete");
    assert("escalate"@[0] != "complete"@[0]);
}

/// The first entry with a key is where the key is found.
proof fn lemma_position_is<V>(entries: Seq<(Seq<char>, V)>, i: int)
    requires
        0 <= i < entries.len(),
        forall|j: int| 0 <= j < i ==> (#[trigger] entries[j]).0 != entries[i].0,
    ensures
        position_of(entries, entries[i].0) == i,
{
    lemma_position(entries, entries[i].0);
    let p = position_of(entries, entries[i].0);
    if p < i {
        assert(entries[p].0 != entries[i].0);
    }
}

proof fn lemma_no_match(transitions: Seq<TransitionDef>, output: Seq<char>)
    requires
        forall|j: int|
            0 <= j < transitions.len() ==> !pattern_matches((#[trigger] transitions[j]).match_pattern@, output),
    ensures
        matching_goto(transitions, output) is None,
    decreases transitions.len(),
{
    if transitions.len() > 0 {
        let rest = transitions.skip(1);
        assert forall|j: int| 0 <= j < rest.len() implies !pattern_matches(
            (#[trigger] rest[j]).match_pattern@,
            output,
        ) by {
            assert(rest[j] == transitions[j + 1]);
        }
        assert(!pattern_matches(transitions[0].match_pattern@, output));
        lemma_no_match(rest, output);
    }
}

/// Steps with distinct names make a graph of these steps in the order of their
/// declaration.
pub proof fn steps_keep_their_order(steps: Seq<StepDef>)
    requires
        forall|i: int, j: int|
            0 <= i < j < steps.len() ==> (#[trigger] steps[i]).name@ != (#[trigger] steps[j]).name@,
    ensures
        steps_by_name(steps).len() == steps.len(),
        forall|i: int|
            0 <= i < steps.len() ==> (#[trigger] steps_by_name(steps)[i]) == (steps[i].name@, steps[i]),
    decreases steps.len(),
{
    if steps.len() > 0 {
        let head = steps.drop_last();
        assert forall|i: int, j: int| 0 <= i < j < head.len() implies (#[trigger] head[i]).name@ != (
        #[trigger] head[j]).name@ by {
            assert(head[i] == steps[i] && head[j] == steps[j]);
        }
        steps_keep_their_order(head);
        let name = steps.last().name@;
        let entries = steps_by_name(head);
        lemma_position(entries, name);
        let p = position_of(entries, name);
        if p < entries.len() {
            assert(entries[p] == (head[p].name@, head[p]));
            assert(head[p] == steps[p]);
            assert(steps[p].name@ != steps[steps.len() - 1].name@);
        }
        assert(steps_by_name(steps) =~= entries.push((name, steps.last())));
        assert forall|i: int| 0 <= i < steps.len() implies (#[trigger] steps_by_name(steps)[i]) == (
            steps[i].name@,
            steps[i],
        ) by {
            if i < head.len() {
                assert(entries[i] == (head[i].name@, head[i]));
            }
        }
    }
}

/// Leaving the graph counts no visit, and a visit counts for the step that the
/// output leads to and for no other.
pub proof fn only_the_visited_step_is_counted(r: Route, counts: Map<Seq<char>, u32>, step: Seq<char>)
    requires
        visit_fits(r, counts),
    ensures
        visits(counts_along(r, counts), step) == visits(counts, step) + (if r == Route::Visit(step) {
            1nat
        } else {
            0nat
        }),
{
}

/// A step with a visit limit is entered at most that often: from the next visit on,
/// the graph leads to what the step names for that case.
pub proof fn visit_limit_holds(
    steps: Seq<(Seq<char>, StepDef)>,
    target: Seq<char>,
    counts: Map<Seq<char>, u32>,
)
    requires
        position_of(steps, target) < steps.len(),
        steps[position_of(steps, target)].1.max_visits is Some,
    ensures
        ({
            let step = steps[position_of(steps, target)].1;
            let after = advance_along(steps, Route::Visit(target), counts);
            if visits(counts, target) < step.max_visits->0 {
                after == AdvanceView::Goto(target)
            } else {
                match step.max_visits_goto {
                    None => after == AdvanceView::Escalate,
                    Some(goto) => after == (match reserved_advance(goto@) {
                        Some(advance) => advance,
                        None => AdvanceView::Goto(goto@),
                    }),
                }
            }
        }),
{
    lemma_position(steps, target);
    reveal_strlit("escalate");
    reveal_strlit("complete");
    assert("escalate"@[0] != "complete"@[0]);
}

/// The visits behind a number of visits to one step.
pub open spec fn counts_after(counts: Map<Seq<char>, u32>, target: Seq<char>, n: nat) -> Map<Seq<char>, u32>
    decreases n,
{
    if n == 0 {
        counts
    } else {
        counts_along(Route::Visit(target), counts_after(counts, target, (n - 1) as nat))
    }
}

/// A run of visits to one step with a limit, from the first visit on: the graph leads to
/// the step as often as the limit says, and from then on to what the step names for that
/// case. Only the step itself is counted, not what it redirects to.
pub proof fn visit_limit_holds_over_a_run(steps: Seq<(Seq<char>, StepDef)>, target: Seq<char>, n: nat)
    requires
        position_of(steps, target) < steps.len(),
        steps[position_of(steps, target)].1.max_visits is Some,
        1 <= n <= u32::MAX,
    ensures
        ({
            let step = steps[position_of(steps, target)].1;
            let nth = advance_along(
                steps,
                Route::Visit(target),
                counts_after(Map::empty(), target, (n - 1) as nat),
            );
            if n <= step.max_visits->0 {
                nth == AdvanceView::Goto(target)
            } else {
                match step.max_visits_goto {
                    None => nth == AdvanceView::Escalate,
                    Some(goto) => nth == (match reserved_advance(goto@) {
                        Some(advance) => advance,
                        None => AdvanceView::Goto(goto@),
                    }),
                }
            }
        }),
        visit_fits(Route::Visit(target), counts_after(Map::empty(), target, (n - 1) as nat)),
        counts_after(Map::empty(), target, n) == Map::<Seq<char>, u32>::empty().insert(target, n as u32),
{
    lemma_counts_after(target, n);
    lemma_counts_after(target, (n - 1) as nat);
    visit_limit_holds(steps, target, counts_after(Map::empty(), target, (n - 1) as nat));
}

proof fn lemma_counts_after(target: Seq<char>, n: nat)
    requires
        n <= u32::MAX,
    ensures
        counts_after(Map::empty(), target, n) == (if n == 0 {
            Map::<Seq<char>, u32>::empty()
        } else {
            Map::<Seq<char>, u32>::empty().insert(target, n as u32)
        }),
        visits(counts_after(Map::empty(), target, n), target) == n,
    decreases n,
{
    if n > 0 {
        lemma_counts_after(target, (n - 1) as nat);
        assert(counts_after(Map::empty(), target, n) =~= Map::<Seq<char>, u32>::empty().insert(target, n as u32));
    }
}

/// A declared step is found under its name, and the last declaration of a name is
/// the one that counts.
pub proof fn declared_steps_are_found(steps: Seq<StepDef>, i: int)
    requires
        0 <= i < steps.len(),
        forall|j: int| i < j < steps.len() ==> (#[trigger] steps[j]).name@ != steps[i].name@,
    ensures
        position_of(steps_by_name(steps), steps[i].name@) < steps_by_name(steps).len(),
        steps_by_name(steps)[position_of(steps_by_name(steps), steps[i].name@)].1 == steps[i],
    decreases steps.len(),
{
    let name = steps[i].name@;
    let head = steps_by_name(steps.drop_last());
    let last = steps.last();
    lemma_position(head, last.name@);
    lemma_position(head, name);
    let all = steps_by_name(steps);
    lemma_position(all, name);
    if i == steps.len() - 1 {
        lemma_upsert(head, name, last, name);
    } else {
        assert(last.name@ != name);
        assert forall|j: int| i < j < steps.drop_last().len() implies (#[trigger] steps.drop_last()[j]).name@
            != name by {
            assert(steps.drop_last()[j] == steps[j]);
        }
        declared_steps_are_found(steps.drop_last(), i);
        lemma_upsert(head, last.name@, last, name);
    }
}

/// Setting one key leaves the others as they were.
pub proof fn lemma_upsert<V>(entries: Seq<(Seq<char>, V)>, key: Seq<char>, value: V, other: Seq<char>)
    ensures
        ({
            let after = upsert(entries, key, value);
            &&& position_of(after, key) < after.len()
            &&& after[position_of(after, key)] == (key, value)
            &&& other != key ==> (position_of(after, other) < after.len() <==> position_of(entries, other)
                < entries.len())
            &&& other != key && position_of(entries, other) < entries.len() ==> after[position_of(after, other)]
                == entries[position_of(entries, other)]
        }),
{
    let after = upsert(entries, key, value);
    lemma_position(entries, key);
    lemma_position(entries, other);
    lemma_position(after, key);
    lemma_position(after, other);
    let i = position_of(entries, key);
    assert(after[i] == (key, value));
    let k = position_of(after, key);
    if k < i {
        assert(after[k] == entries[k]);
    }
    if other != key {
        let a = position_of(entries, other);
        let b = position_of(after, other);
        if a < entries.len() {
            assert(after[a] == entries[a]);
            if b < a {
                assert(after[b].0 == other);
                if b != i {
                    assert(after[b] == entries[b]);
                }
            }
        } else if b < after.len() {
            assert(after[b].0 == other);
            if b != i {
                assert(after[b] == entries[b]);
            }
        }
    }
}

// ── Retry Tracker ───────────────────────────────────────────────────

/// Tracks retry budgets per step. Resets when a different step is dispatched.
#[derive(Debug)]
pub struct RetryTracker {
    counts: StringMap<u32>,
    last_step: Option<String>,
}

/// What a retry tracker knows: the failures of each step, and the step that failed
/// last.
pub struct RetryView {
    pub counts: Map<Seq<char>, u32>,
    pub last_step: Option<Seq<char>>,
}

impl View for RetryTracker {
    type V = RetryView;

    closed spec fn view(&self) -> RetryView {
        RetryView {
            counts: self.counts@,
            last_step: match self.last_step {
                Some(s) => Some(s@),
                None => None,
            },
        }
    }
}

#[derive(Debug, Clone, Copy, PartialEq, Eq, Structural)]
pub enum RetryDecision {
    /// Retry the step with the given attempt number.
    Retry { attempt: u32 },
    /// Retries exhausted.
    Exhausted,
}

pub const DEFAULT_MAX_RETRIES: u32 = 3;

impl RetryView {
    /// A tracker without failures.
    pub open spec fn fresh() -> RetryView {
        RetryView { counts: Map::empty(), last_step: None }
    }

    /// The failures that count against the next failure of a step.
    pub open spec fn failures(self, step: Seq<char>) -> nat {
        if self.last_step == Some(step) {
            visits(self.counts, step)
        } else {
            0
        }
    }

    /// The tracker behind a failure of a step.
    pub open spec fn after_failure(self, step: Seq<char>, force_escalate: bool) -> RetryView {
        let kept = if force_escalate || self.last_step == Some(step) {
            self.counts
        } else {
            Map::empty()
        };
        RetryView {
            counts: if force_escalate {
                kept.remove(step)
            } else {
                kept.insert(step, (self.failures(step) + 1) as u32)
            },
            last_step: Some(step),
        }
    }

    /// What a failure of a step leads to.
    pub open spec fn decision(self, step: Seq<char>, max_retries: Option<u32>, force_escalate: bool) -> RetryDecision {
        if !force_escalate && self.failures(step) < retry_limit(max_retries) {
            RetryDecision::Retry { attempt: (self.failures(step) + 2) as u32 }
        } else {
            RetryDecision::Exhausted
        }
    }

    /// The tracker behind a number of failures of one step.
    pub open spec fn after_failures(self, step: Seq<char>, n: nat) -> RetryView
        decreases n,
    {
        if n == 0 {
            self
        } else {
            self.after_failures(step, (n - 1) as nat).after_failure(step, false)
        }
    }
}

/// The retries that a step may use.
pub open spec fn retry_limit(max_retries: Option<u32>) -> u32 {
    match max_retries {
        Some(max) => max,
        None => DEFAULT_MAX_RETRIES,
    }
}

impl Default for RetryTracker {
    fn default() -> (t: Self)
        ensures
            t@ == RetryView::fresh(),
    {
        RetryTracker::new()
    }
}

impl RetryTracker {
    /// A tracker without failures.
    pub fn new() -> (t: Self)
        ensures
            t@ == RetryView::fresh(),
    {
        RetryTracker { counts: StringMap::new(), last_step: None }
    }

    fn last_is(&self, step: &str) -> (r: bool)
        ensures
            r == (self@.last_step == Some(step@)),
    {
        match &self.last_step {
            Some(s) => same(s.as_str(), step),
            None => false,
        }
    }

    /// The failures that count against the next failure of a step.
    pub fn failures(&self, step: &str) -> (n: u32)
        ensures
            n == self@.failures(step@),
    {
        if !self.last_is(step) {
            return 0;
        }
        match self.counts.get(step) {
            Some(n) => *n,
            None => 0,
        }
    }

    /// Record a step failure and decide whether to retry.
    ///
    /// `force_escalate = true` makes the tracker return `Exhausted`
    /// regardless of the remaining retry budget — the runner has
    /// reported a non-retriable failure signal and burning more
    /// attempts wouldn't change the outcome. The attempt counter is
    /// also cleared so a manual rerun starts fresh.
    pub fn record_failure(&mut self, step: &str, max_retries: Option<u32>, force_escalate: bool) -> (r: RetryDecision)
        requires
            !force_escalate ==> old(self)@.failures(step@) < u32::MAX,
            !force_escalate && old(self)@.failures(step@) < retry_limit(max_retries) ==> old(self)@.failures(step@) + 2
                <= u32::MAX,
        ensures
            r == old(self)@.decision(step@, max_retries, force_escalate),
            final(self)@ == old(self)@.after_failure(step@, force_escalate),
    {
        if force_escalate {
            // Clear the counter so a manual rerun starts at attempt 1
            // again — the prior attempts shouldn't count against a
            // human re-trying after fixing the underlying cause
            // (e.g. rotating credentials).
            self.counts.remove(step);
            self.last_step = Some(step.to_owned());
            return RetryDecision::Exhausted;
        }
        let max: u32 = match max_retries {
            Some(max) => max,
            None => DEFAULT_MAX_RETRIES,
        };
        let count: u32 = self.failures(step) + 1;
        // Reset if we moved to a different step
        if !self.last_is(step) {
            self.counts = StringMap::new();
            self.last_step = Some(step.to_owned());
        }
        self.counts.insert(step.to_owned(), count);
        if count <= max {
            RetryDecision::Retry { attempt: count + 1 }
        } else {
            RetryDecision::Exhausted
        }
    }

    /// Reset tracker state (e.g. when a step succeeds and we advance).
    pub fn reset(&mut self)
        ensures
            final(self)@ == RetryView::fresh(),
    {
        self.counts = StringMap::new();
        self.last_step = None;
    }
}

/// A step that keeps failing is retried exactly as often as its budget says: the
/// failure behind `n` others leads to attempt `n + 2` while `n` is below the limit,
/// and to no retry from the limit on.
pub proof fn retry_budget_is_exact(t: RetryView, step: Seq<char>, max_retries: Option<u32>, n: nat)
    requires
        t.failures(step) == 0,
        n + 2 <= u32::MAX,
    ensures
        t.after_failures(step, n).failures(step) == n,
        t.after_failures(step, n).decision(step, max_retries, false) == (if n < retry_limit(max_retries) {
            RetryDecision::Retry { attempt: (n + 2) as u32 }
        } else {
            RetryDecision::Exhausted
        }),
    decreases n,
{
    if n > 0 {
        retry_budget_is_exact(t, step, max_retries, (n - 1) as nat);
    }
}

/// A failure of another step starts that step's budget afresh, and the first step's
/// budget too when it fails again.
pub proof fn moving_on_resets_the_budget(t: RetryView, step: Seq<char>, other: Seq<char>)
    requires
        step != other,
    ensures
        t.after_failure(step, false).failures(other) == 0,
        t.after_failure(step, false).after_failure(other, false).failures(step) == 0,
{
}

/// A forced escalation grants no retry whatever the budget, and leaves the step a
/// full budget for a rerun.
pub proof fn forced_escalation_grants_no_retry(t: RetryView, step: Seq<char>, max_retries: Option<u32>)
    ensures
        t.decision(step, max_retries, true) == RetryDecision::Exhausted,
        t.after_failure(step, true).failures(step) == 0,
{
}

/// A failure of a step within its budget grants a retry, whose attempt is the number of
/// failures that came before plus two, and adds one to the failures of the step; a step
/// without a limit of its own has three retries.
pub proof fn failures_are_counted_step_by_step(
    t: RetryView,
    step: Seq<char>,
    other: Seq<char>,
    max_retries: Option<u32>,
)
    requires
        t.failures(step) + 2 <= u32::MAX,
    ensures
        t.after_failure(step, false).failures(step) == t.failures(step) + 1,
        other != step ==> t.after_failure(step, false).failures(other) == 0,
        max_retries is Some ==> (t.decision(step, max_retries, false) is Retry <==> t.failures(step) < max_retries->0),
        max_retries is None ==> (t.decision(step, max_retries, false) is Retry <==> t.failures(step) < 3),
        t.decision(step, max_retries, false) is Retry ==> t.decision(step, max_retries, false)->attempt == t.failures(
            step,
        ) + 2,
        RetryView::fresh().failures(step) == 0,
{
}

} // verus!
