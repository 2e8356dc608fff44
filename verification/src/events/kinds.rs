//! Event kinds. Plain string constants so every emit site is grep-able
//! and a new kind costs one `pub const`.

use vstd::prelude::*;

verus! {

pub const SERVER_READY: &'static str = "server.ready";

pub const RUNNER_REGISTERED: &'static str = "runner.registered";
pub const RUNNER_DRAINED: &'static str = "runner.drained";
pub const RUNNER_HEARTBEAT_MISSED: &'static str = "runner.heartbeat_missed";
pub const RUNNER_RECOVERED: &'static str = "runner.recovered";

pub const TRIGGER_FAILED: &'static str = "trigger.failed";

pub const EXECUTION_CREATED: &'static str = "execution.created";
pub const EXECUTION_COMPLETED: &'static str = "execution.completed";
pub const EXECUTION_ESCALATED: &'static str = "execution.escalated";
pub const EXECUTION_CANCELLED: &'static str = "execution.cancelled";

pub const STEP_DISPATCHED: &'static str = "step.dispatched";
pub const STEP_RUNNING: &'static str = "step.running";
pub const STEP_DONE: &'static str = "step.done";
pub const STEP_SIGNALS: &'static str = "step.signals";
pub const STEP_CONFIRMED: &'static str = "step.confirmed";
pub const STEP_FAILED: &'static str = "step.failed";
pub const STEP_ADVANCED: &'static str = "step.advanced";
pub const STEP_TIMEOUT: &'static str = "step.timeout";
pub const STEP_RETRYING: &'static str = "step.retrying";

pub const ARTIFACT_DECLARED: &'static str = "artifact.declared";
pub const ARTIFACT_CLOSED: &'static str = "artifact.closed";

pub const SECRET_SET: &'static str = "secret.set";
pub const SECRET_DELETED: &'static str = "secret.deleted";

pub const GIT_BRANCH_PUSHED: &'static str = "git.branch_pushed";
pub const GIT_MERGED: &'static str = "git.merged";
pub const GIT_MERGE_FAILED: &'static str = "git.merge_failed";

} // verus!
