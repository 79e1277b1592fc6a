//! A verified action-execution engine for filesystem jobs.
//!
//! A request names an action (copy, list or remove) and a set of source
//! paths; the engine performs the corresponding operation and reports
//! either a list of resulting paths or a structured failure.  The
//! filesystem itself is modelled as an explicit value ([`fs_model::FileSystem`]),
//! so every action and the dispatcher are verified against that model;
//! a thin unverified driver may replay the verified decisions on a real
//! filesystem.

pub mod action;
pub mod copy;
pub mod errors;
pub mod fs_model;
pub mod job;
pub mod list;
pub mod message;
pub mod paths;
pub mod remove;
