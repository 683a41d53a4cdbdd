//! Batch execution engine for parametric experiments.
//!
//! A project enumerates a matrix of parameterized runs. Each run is a job:
//! a command template plus parameter bindings and a stable identity. The
//! engine substitutes aliases into the template, executes the command under
//! a bounded worker pool with per-run timeouts, records a durable status per
//! job so interrupted campaigns can resume, and appends one summary row per
//! completed job.
//!
//! This crate holds the verified core: alias substitution, command
//! generation, outcome classification, the run-status state machine, the
//! scheduler's claim/complete discipline, and summary rendering. Process
//! spawning, threads, signal handling and file I/O live outside it.

pub mod aliases;
pub mod commands;
pub mod engine;
pub mod marker;
pub mod runner;
pub mod status;
pub mod subst;
pub mod summary;
