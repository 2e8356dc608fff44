//! The server's API: what requests and responses carry, and where they go.

use vstd::prelude::*;

use crate::events::ExecutionOrigin;
use crate::strmap::StringMap;
use crate::text::{cat, dec, dec_u64, join, join_spec, trim_end_char, trim_end_char_spec, views};
use crate::types::{ExecutionId, RunnerId};
use crate::workflow::{RuntimeSpec, WorkspaceDef};

verus! {

/// Snapshot of a single cx node returned by `/api/state/cx`.
#[derive(Debug, Clone)]
pub struct CxNodeSnapshot {
    pub node_id: String,
    pub state: String,
    pub tags: Vec<String>,
    pub shadowed: bool,
    pub shadow_reason: Option<String>,
    pub comment_count: usize,
}

/// Snapshot of the cx projection returned by `/api/state/cx`.
#[derive(Debug, Clone)]
pub struct CxStateSnapshot {
    pub nodes: StringMap<CxNodeSnapshot>,
}

impl Default for CxStateSnapshot {
    fn default() -> (s: Self)
        ensures
            s.nodes@ == Map::<Seq<char>, CxNodeSnapshot>::empty(),
    {
        CxStateSnapshot { nodes: StringMap::new() }
    }
}

/// Filter parameters for `list_executions`. `None` means unfiltered.
#[derive(Debug, Clone)]
pub struct ListExecutionsFilter {
    pub status: Option<String>,
    pub workflow: Option<String>,
    pub limit: Option<usize>,
    pub offset: Option<usize>,
}

impl Default for ListExecutionsFilter {
    fn default() -> (f: Self)
        ensures
            f.status is None,
            f.workflow is None,
            f.limit is None,
            f.offset is None,
    {
        ListExecutionsFilter { status: None, workflow: None, limit: None, offset: None }
    }
}

/// The query parameters of a filter: status, workflow, limit and offset, those that
/// are set.
pub open spec fn filter_params(f: ListExecutionsFilter) -> Seq<Seq<char>> {
    (match f.status {
        Some(s) => seq!["status="@ + s@],
        None => seq![],
    }) + (match f.workflow {
        Some(w) => seq!["workflow="@ + w@],
        None => seq![],
    }) + (match f.limit {
        Some(n) => seq!["limit="@ + dec(n as nat)],
        None => seq![],
    }) + (match f.offset {
        Some(n) => seq!["offset="@ + dec(n as nat)],
        None => seq![],
    })
}

/// The URL that lists executions.
pub open spec fn list_executions_url(base: Seq<char>, f: ListExecutionsFilter) -> Seq<char> {
    let url = trim_end_char_spec(base, '/') + "/api/executions"@;
    if filter_params(f).len() == 0 {
        url
    } else {
        url + "?"@ + join_spec(filter_params(f), "&"@)
    }
}

/// Build the query URL for `GET /api/executions` with the given filter.
pub fn build_list_executions_url(base_url: &str, filter: &ListExecutionsFilter) -> (r: String)
    ensures
        r@ == list_executions_url(base_url@, *filter),
{
    let mut params: Vec<String> = Vec::new();
    let ghost p0: Seq<Seq<char>> = seq![];
    if let Some(s) = &filter.status {
        params.push(cat("status=", s.as_str()));
    }
    let ghost p1 = views(params@);
    assert(p1 =~= (match filter.status {
        Some(s) => seq!["status="@ + s@],
        None => seq![],
    }));
    if let Some(w) = &filter.workflow {
        params.push(cat("workflow=", w.as_str()));
    }
    let ghost p2 = views(params@);
    assert(p2 =~= p1 + (match filter.workflow {
        Some(w) => seq!["workflow="@ + w@],
        None => seq![],
    }));
    if let Some(l) = filter.limit {
        params.push(cat("limit=", dec_u64(l as u64).as_str()));
    }
    let ghost p3 = views(params@);
    assert(p3 =~= p2 + (match filter.limit {
        Some(n) => seq!["limit="@ + dec(n as nat)],
        None => seq![],
    }));
    if let Some(o) = filter.offset {
        params.push(cat("offset=", dec_u64(o as u64).as_str()));
    }
    assert(views(params@) =~= filter_params(*filter));
    let mut url = trim_end_char(base_url, '/');
    url.append("/api/executions");
    if params.len() > 0 {
        url.append("?");
        url.append(join(&params, "&").as_str());
    }
    url
}

/// The URL of an endpoint below a base that is given with or without a `/` at its end.
pub fn endpoint_url(base_url: &str, path: &str) -> (r: String)
    ensures
        r@ == trim_end_char_spec(base_url@, '/') + path@,
{
    let mut url = trim_end_char(base_url, '/');
    url.append(path);
    url
}

/// The endpoint of an action on a step of an execution.
pub fn step_endpoint(execution_id: &str, step: &str, action: &str) -> (r: String)
    ensures
        r@ == "/api/executions/"@ + execution_id@ + "/steps/"@ + step@ + "/"@ + action@,
{
    let mut s = "/api/executions/".to_owned();
    s.append(execution_id);
    s.append("/steps/");
    s.append(step);
    s.append("/");
    s.append(action);
    s
}

/// The endpoint of an action on an execution.
pub fn execution_endpoint(execution_id: &str, action: &str) -> (r: String)
    ensures
        r@ == "/api/executions/"@ + execution_id@ + "/"@ + action@,
{
    let mut s = "/api/executions/".to_owned();
    s.append(execution_id);
    s.append("/");
    s.append(action);
    s
}

/// The endpoint of an action on a runner.
pub fn runner_endpoint(runner_id: &str, action: &str) -> (r: String)
    ensures
        r@ == "/api/runners/"@ + runner_id@ + "/"@ + action@,
{
    let mut s = "/api/runners/".to_owned();
    s.append(runner_id);
    s.append("/");
    s.append(action);
    s
}

// ── Response types ──────────────────────────────────────────────────

#[derive(Debug, Clone)]
pub struct StatusResponse {
    pub status: String,
    pub pool_size: usize,
    pub pool_executing: usize,
    pub pool_idle: usize,
    pub executions_running: usize,
    pub workflows_loaded: usize,
    pub event_seq: u64,
}

#[derive(Debug, Clone)]
pub struct RegisterResponse {
    pub runner_id: RunnerId,
}

#[derive(Debug, Clone)]
pub struct CreateExecutionResponse {
    pub execution_id: ExecutionId,
}

#[derive(Debug, Clone)]
pub struct ExecutionDetail {
    pub id: String,
    pub vars: StringMap<String>,
    /// Origin of this execution.
    pub origin: ExecutionOrigin,
    pub workflow: String,
    pub status: String,
    pub current_step: Option<String>,
    pub current_attempt: u32,
    pub created_at: String,
    pub attempts: Vec<StepAttemptDetail>,
}

/// The origin of an execution whose description names none.
pub fn default_manual_origin() -> (r: ExecutionOrigin)
    ensures
        r == (ExecutionOrigin::Manual { user: None }),
{
    ExecutionOrigin::Manual { user: None }
}

#[derive(Debug, Clone)]
pub struct StepAttemptDetail {
    pub step: String,
    pub attempt: u32,
    pub runner_id: Option<String>,
    pub status: String,
    pub output: Option<String>,
    pub signals: Vec<String>,
    pub error: Option<String>,
    pub transition: Option<String>,
    pub started_at: String,
    pub completed_at: Option<String>,
}

#[derive(Debug, Clone)]
pub struct SecretEntry {
    pub name: String,
}

#[derive(Debug, Clone)]
pub struct WorkflowEntry {
    pub name: String,
    pub steps: Vec<String>,
}

// ── Request types ───────────────────────────────────────────────────

/// A part of a request that a step may leave open.
#[derive(Debug)]
pub enum Payload<T> {
    /// An empty object: the step is not known.
    Empty,
    /// Null: the step says nothing of it.
    Null,
    /// What the step says.
    Spec(T),
}

/// Parameters for dispatching a step to a runner.
#[derive(Debug)]
pub struct DispatchStepParams {
    pub execution_id: String,
    pub step: String,
    pub runner_id: RunnerId,
    pub attempt: u32,
    pub vars: StringMap<String>,
    /// Persona name for this step (persona-primary path).
    pub persona: Option<String>,
    /// Step-level prompt.
    pub prompt: Option<String>,
    pub runtime: Payload<RuntimeSpec>,
    pub workspace: Payload<WorkspaceDef>,
}

/// Every part of a filter that is set is asked for by its name, status before workflow before
/// limit before offset, and nothing else is.
pub proof fn every_set_filter_is_asked_for(f: ListExecutionsFilter)
    ensures
        f.status is Some ==> filter_params(f).contains("status="@ + f.status->0@) && filter_params(f)[0] == "status="@
            + f.status->0@,
        f.workflow is Some ==> filter_params(f).contains("workflow="@ + f.workflow->0@),
        f.limit is Some ==> filter_params(f).contains("limit="@ + dec(f.limit->0 as nat)),
        f.offset is Some ==> filter_params(f).contains("offset="@ + dec(f.offset->0 as nat)) && filter_params(f).last()
            == "offset="@ + dec(f.offset->0 as nat),
        filter_params(f).len() == (if f.status is Some {
            1int
        } else {
            0
        }) + (if f.workflow is Some {
            1int
        } else {
            0
        }) + (if f.limit is Some {
            1int
        } else {
            0
        }) + (if f.offset is Some {
            1int
        } else {
            0
        }),
{
    let a = match f.status {
        Some(s) => seq!["status="@ + s@],
        None => seq![],
    };
    let b = match f.workflow {
        Some(w) => seq!["workflow="@ + w@],
        None => seq![],
    };
    let c = match f.limit {
        Some(n) => seq!["limit="@ + dec(n as nat)],
        None => seq![],
    };
    let d = match f.offset {
        Some(n) => seq!["offset="@ + dec(n as nat)],
        None => seq![],
    };
    let all = a + b + c + d;
    assert(all == filter_params(f));
    if a.len() > 0 {
        assert(all[0] == a[0]);
    }
    if b.len() > 0 {
        assert(all[a.len() as int] == b[0]);
    }
    if c.len() > 0 {
        assert(all[(a + b).len() as int] == c[0]);
    }
    if d.len() > 0 {
        assert(all[(a + b + c).len() as int] == d[0]);
    }
}

/// Executions are listed at one endpoint below the base, with what the filter asks for
/// behind a question mark where it asks for anything.
pub proof fn filters_go_behind_the_endpoint(base: Seq<char>, f: ListExecutionsFilter)
    ensures
        ({
            let url = trim_end_char_spec(base, '/') + "/api/executions"@;
            &&& filter_params(f).len() == 0 ==> list_executions_url(base, f) == url
            &&& filter_params(f).len() > 0 ==> list_executions_url(base, f) == url + "?"@ + join_spec(
                filter_params(f),
                "&"@,
            )
        }),
{
}

} // verus!
