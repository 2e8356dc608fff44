//! ox: an event-sourced workflow engine that runs multi-agent teams. This library holds
//! its rules — workflows and their engine, triggers, templates, the herder's scheduling,
//! the course of a step on a runner, the cx watcher, and what the command line tool shows
//! — as functions from values to values, with contracts. The programs around it read,
//! send and wait.

pub mod client;
pub mod config;
pub mod ctl;
pub mod events;
pub mod herder;
pub mod interpolation;
pub mod json;
pub mod paths;
pub mod persona;
pub mod rt;
pub mod runner;
pub mod runtime;
pub mod strmap;
pub mod text;
pub mod types;
pub mod watcher;
pub mod workflow;
