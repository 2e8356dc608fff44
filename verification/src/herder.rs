//! The herder: a view of runners and executions rebuilt from the event stream, and
//! the scheduling decisions made on it. The decisions are functions on the view;
//! the requests that they call for are handed out as values.

pub mod events;
pub mod schedule;
pub mod state;
pub mod triggers;
