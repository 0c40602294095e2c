//! A command-line task runner core: data model, process registry bookkeeping,
//! per-command execution accounting, and the sequential / parallel
//! orchestration disciplines, all with verified contracts.
//!
//! Process spawning, output streaming and terminal rendering live outside this
//! library; they drive the state machines defined here and hand them plain
//! values (timestamps in milliseconds, exit codes, captured lines).

pub mod cli;
pub mod executor;
pub mod registry;
pub mod runner;
pub mod types;
