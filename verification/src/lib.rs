//! Agent execution kernel for a single-user personal assistant daemon.
//!
//! The crate verifies the kernel's logic: message and session bookkeeping,
//! the tool-using agent loop as a state machine, the cron engine with its
//! schedule grammar and next-fire search, the subagent task ledger, the
//! heartbeat task parser, and the prompt builder.  I/O shells (HTTP, the
//! chat transport, timers) live outside the library and call into it with
//! plain values.

pub mod agent_loop;
pub mod braindb;
pub mod calendar;
pub mod channel;
pub mod config;
pub mod cron_codec;
pub mod cron_command;
pub mod cron_expr;
pub mod cron_runner;
pub mod cron_sched;
pub mod cron_store;
pub mod dispatch;
pub mod heartbeat;
pub mod messages;
pub mod prompt;
pub mod registry;
pub mod render;
pub mod session;
pub mod skills;
pub mod stored;
pub mod subagents;
pub mod summarize;
pub mod text;
pub mod tool_result;
pub mod workspace;
