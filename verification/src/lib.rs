//! Background usage-tracking engine.
//!
//! The engine samples the set of currently running process names, crosses it
//! against a registry of tracked application names, and accumulates one time
//! unit per tick for every tracked, unpaused, running application. Any
//! tracked application can be paused individually without losing its total.
//!
//! The heart of the crate is [`store::Store`], an in-memory picture of the
//! two durable tables (the tracking registry and the usage counters), whose
//! operations are specified against the mathematical model in [`model`].
//! [`sched`] holds the decision logic of the background timer loop, [`procs`]
//! the handling of process snapshots, and [`icon`] the icon-resolution logic.

pub mod icon;
pub mod laws;
pub mod model;
pub mod procs;
pub mod sched;
pub mod store;
