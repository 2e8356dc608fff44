//! The command line tool: what it shows, and what it starts.

pub mod attach;
pub mod executions;
pub mod logs;
pub mod render;
pub mod reports;
pub mod status;
pub mod up;
