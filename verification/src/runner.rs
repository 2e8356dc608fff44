//! The runner: what it does with a step, what it reads from the step's socket, log
//! and API traffic, and what it reports.

pub mod proxy;
pub mod pty;
pub mod scan;
pub mod socket;
pub mod step;
