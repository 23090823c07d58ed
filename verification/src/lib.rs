//! Verified core of a mailbox metadata synchroniser.
//!
//! A remote mailbox session answers a metadata request with a stream of
//! attribute fragments, each tagged with a transient per-session sequence
//! number; fragments for different messages interleave freely.  This crate
//! holds the logic that turns that stream into durable records:
//!
//! - [`correlator`] reassembles complete per-message records out of the
//!   interleaved fragment stream and evicts finished state exactly once;
//! - [`datetime`] normalises the date strings found in real-world message
//!   headers, which stray from the nominal format in many ways;
//! - [`flags`] maps protocol flag tokens onto the closed set of flags the
//!   store keeps;
//! - [`matcher`] decides which persisted row, if any, a freshly completed
//!   record corresponds to when the store lacks a shared stable key;
//! - [`store`] models the idempotent insert-or-update step that writes
//!   completed records by their stable identifier.
//!
//! Transport, authentication and the durable-store client live outside this
//! crate; they hand plain values in and take plain values back.

pub mod config;
pub mod correlator;
pub mod datetime;
pub mod flags;
pub mod fragment;
pub mod matcher;
pub mod meta;
pub mod store;
pub mod text;
pub mod timestamp;
