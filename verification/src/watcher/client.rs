//! What the watcher and the server say to each other.
//!
//! The watcher reads the last committed cursor on startup, and submits batches that the
//! server accepts only where the cursor they start from is the one it has. On a conflict
//! the cursor is read again and the batch built anew. The last committed cursor moves
//! only after a batch went in.

use vstd::prelude::*;

use crate::events::SourceEventData;
use crate::json::Json;
use crate::text::text_option;

verus! {

/// Request body for `POST /api/events/ingest`.
#[derive(Debug, Clone)]
pub struct IngestBody {
    pub source: String,
    pub cursor_before: Option<String>,
    pub cursor_after: String,
    pub events: Vec<SourceEventData>,
}

/// Response body for a successful ingest.
#[derive(Debug, Clone, Copy, PartialEq, Eq, Structural)]
pub struct IngestResponseBody {
    pub appended: u32,
    pub deduped: u32,
}

/// Outcome of one ingest attempt. Conflict is non-retryable at the
/// batch level — the caller must re-GET the cursor and rebuild.
#[derive(Debug)]
pub enum IngestOutcome {
    Committed(IngestResponseBody),
    Conflict { expected: Option<String>, actual: Option<String> },
}

/// Cursor row returned by `GET /api/watchers/{source}/cursor`.
#[derive(Debug, Clone)]
pub struct CursorResponse {
    pub cursor: Option<String>,
    pub updated_at: Option<String>,
}

/// What the status of an answer to an ingest request says.
#[derive(Debug, Clone, Copy, PartialEq, Eq, Structural)]
pub enum IngestStatus {
    Committed,
    Conflict,
    Failed,
}

/// Reads the status of an answer: success, a cursor conflict, or a failure after which
/// the same batch is to be tried again.
pub fn ingest_status(status: u16) -> (r: IngestStatus)
    ensures
        r == (if 200 <= status < 300 {
            IngestStatus::Committed
        } else if status == 409 {
            IngestStatus::Conflict
        } else {
            IngestStatus::Failed
        }),
{
    if status >= 200 && status < 300 {
        IngestStatus::Committed
    } else if status == 409 {
        IngestStatus::Conflict
    } else {
        IngestStatus::Failed
    }
}

/// Whether a batch is posted once more: on a conflict, after the first attempt.
pub fn posts_again(attempt: u32, status: IngestStatus) -> (r: bool)
    ensures
        r == (attempt == 1 && status == IngestStatus::Conflict),
{
    attempt == 1 && status == IngestStatus::Conflict
}

/// The conflict that an answer describes: the cursor that the batch started from, and
/// the one that the server has.
pub fn conflict_of(body: &Json) -> (r: IngestOutcome)
    ensures
        r is Conflict,
        text_option(r->expected) == body@.at("expected"@).as_str(),
        text_option(r->actual) == body@.at("actual"@).as_str(),
{
    let expected = match body.get_str("expected") {
        Some(s) => Some(s.to_owned()),
        None => None,
    };
    let actual = match body.get_str("actual") {
        Some(s) => Some(s.to_owned()),
        None => None,
    };
    IngestOutcome::Conflict { expected, actual }
}

/// The endpoint of a watcher's cursor.
pub fn cursor_endpoint(source: &str) -> (r: String)
    ensures
        r@ == "/api/watchers/"@ + source@ + "/cursor"@,
{
    let mut s = "/api/watchers/".to_owned();
    s.append(source);
    s.append("/cursor");
    s
}

} // verus!
