//! The cx watcher: what it reads of cx, which events it makes of it, and how its cursor
//! moves.

pub mod batch;
pub mod client;
pub mod cx;
pub mod mapping;
