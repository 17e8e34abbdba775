//! The in-process state of a small chat service: who has joined, which token
//! each member holds, and the ordered log of what was posted.
//!
//! Every operation is stated against a mathematical model of the state
//! ([`model::ChatState`]) and proved to follow it.
//!
//! - [`service::ChatService`] is what a transport calls: `join`, `post` and
//!   `read_log`.
//! - [`registry::MembershipRegistry`] and [`message_log::MessageLog`] are its
//!   two parts.
//! - [`model`] says what each operation does to the state, and [`laws`] what
//!   follows for every sequence of requests: one join per username, tokens
//!   that are never shared, sequence numbers without gaps, attribution that
//!   stays, and reads that are complete.

pub mod laws;
pub mod member;
pub mod message;
pub mod message_log;
pub mod model;
pub mod outcome;
pub mod registry;
pub mod service;
