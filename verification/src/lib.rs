//! Periodic sensor-polling and metrics-emission engine for a small host
//! telemetry agent.
//!
//! The library holds the agent's logic: a template-substitution engine that
//! binds runtime-derived values into configuration text, a closed set of
//! sensors (disk space, physical memory, CPU busy time) that turn raw
//! operating-system readings into named metric observations, and the
//! drift-correcting arithmetic of the poll scheduler.  All operating-system
//! queries, the UDP emission path, logging and the worker pool live in the
//! surrounding binary, which feeds plain values into these functions and
//! carries their results out.

pub mod config;
pub mod scan;
pub mod scheduler;
pub mod sensors;
pub mod substitution;
