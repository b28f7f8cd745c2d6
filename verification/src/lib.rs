//! Session broadcast and lifecycle core for a real-time collaborative
//! session server.
//!
//! Participants join a named session over a persistent connection, see each
//! other's presence, and exchange lightweight events that are fanned out to
//! every other participant of the same session. This crate holds the verified
//! core: the session registry, the per-session presence set, the per-session
//! broadcast bus, the per-connection join/relay/leave state machine, and the
//! deferred-deletion reaper. Transport, HTTP routing and rendering live
//! outside the crate.

pub mod bus;
pub mod events;
pub mod handler;
pub mod lifecycle;
pub mod presence;
pub mod registry;
pub mod seqs;
