//! Kinds the watcher emits. Strings are stable — triggers match on
//! them verbatim.

use vstd::prelude::*;

verus! {

pub const NODE_READY: &'static str = "node.ready";
pub const NODE_CLAIMED: &'static str = "node.claimed";
pub const NODE_DONE: &'static str = "node.done";
pub const COMMENT_ADDED: &'static str = "comment.added";

} // verus!
