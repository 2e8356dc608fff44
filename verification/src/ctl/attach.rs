//! Attaching a terminal to a running step.

use vstd::prelude::*;

use crate::client::ExecutionDetail;
use crate::runner::pty::websocket_base;
use crate::text::{cat, replace, same, text_option};

verus! {

/// The step of an execution is under way.
pub open spec fn is_live(e: ExecutionDetail, step: Seq<char>) -> bool {
    e.status@ == "running"@ && text_option(e.current_step) == Some(step)
}

/// Whether the step of an execution is (still) under way.
pub fn step_alive(e: &ExecutionDetail, step: &str) -> (r: bool)
    ensures
        r == is_live(*e, step@),
{
    if !same(e.status.as_str(), "running") {
        return false;
    }
    match &e.current_step {
        Some(s) => same(s.as_str(), step),
        None => false,
    }
}

/// Why a terminal cannot be attached to a step: the execution does not run, or is at
/// another step. Nothing where it can.
pub fn attach_refusal(e: &ExecutionDetail, execution_id: &str, step: &str) -> (r: Option<String>)
    ensures
        match r {
            Some(m) => {
                &&& !is_live(*e, step@)
                &&& m@ == (if e.status@ != "running"@ {
                    "execution "@ + execution_id@ + " is "@ + e.status@ + ", not running"@
                } else {
                    "current step is '"@ + (match e.current_step {
                        Some(s) => s@,
                        None => "none"@,
                    }) + "', not '"@ + step@ + "'"@
                })
            },
            None => is_live(*e, step@),
        },
{
    if !same(e.status.as_str(), "running") {
        let mut m = cat("execution ", execution_id);
        m.append(" is ");
        m.append(e.status.as_str());
        m.append(", not running");
        return Some(m);
    }
    if step_alive(e, step) {
        return None;
    }
    let mut m = "current step is '".to_owned();
    match &e.current_step {
        Some(s) => m.append(s.as_str()),
        None => m.append("none"),
    }
    m.append("', not '");
    m.append(step);
    m.append("'");
    Some(m)
}

/// The websocket URL that a step's terminal is attached over.
pub fn attach_url(server_url: &str, execution_id: &str, step: &str) -> (r: String)
    ensures
        r@ == websocket_base(server_url@) + "/api/executions/"@ + execution_id@ + "/steps/"@ + step@ + "/pty"@,
{
    proof {
        reveal_strlit("http://");
        reveal_strlit("https://");
    }
    let mut url = replace(replace(server_url, "http://", "ws://").as_str(), "https://", "wss://");
    url.append("/api/executions/");
    url.append(execution_id);
    url.append("/steps/");
    url.append(step);
    url.append("/pty");
    url
}

/// The number of times that a connection is tried: the runner may not have established
/// its relay yet.
pub const ATTACH_ATTEMPTS: u32 = 10;

/// Whether a connection is tried again behind an attempt that failed. Attempts count
/// from zero.
pub fn tries_again(attempt: u32) -> (r: bool)
    ensures
        r == (attempt + 1 < ATTACH_ATTEMPTS),
{
    attempt < ATTACH_ATTEMPTS - 1
}

/// Whether a text from the relay says that the terminal is closed.
pub fn is_end_of_session(text: &str) -> (r: bool)
    ensures
        r == (text@ == "__ox_pty_eof__"@),
{
    same(text, "__ox_pty_eof__")
}

/// A step is under way exactly where its execution runs and is at that step.
pub proof fn only_the_current_step_is_under_way(e: ExecutionDetail, step: Seq<char>)
    ensures
        e.status@ != "running"@ ==> !is_live(e, step),
        e.current_step is None ==> !is_live(e, step),
        e.current_step is Some && e.current_step->0@ != step ==> !is_live(e, step),
        e.status@ == "running"@ && e.current_step is Some && e.current_step->0@ == step ==> is_live(e, step),
{
}

} // verus!
