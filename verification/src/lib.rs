//! Smelt: a local task-graph execution engine.
//!
//! Commands are scripted shell fragments with declared dependencies, outputs
//! and resource needs.  The library validates a command set, schedules each
//! requested command at most once, propagates failures as skips, enforces the
//! job-slot budget and describes everything that happens as a stream of events.

pub mod client_commands;
pub mod commands;
pub mod dag;
pub mod digest;
pub mod error;
pub mod events;
pub mod executed_tests;
pub mod executor;
pub mod graph;
pub mod paths;
pub mod runtime_support;
pub mod scheduler;
pub mod service;
pub mod text;
pub mod tracker;
pub mod utils;
