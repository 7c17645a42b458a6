//! Bridge from structured, leveled events with named fields to a plain
//! text-based logging sink.
//!
//! The library renders an event's typed fields to a single message string,
//! deduplicates repeated field names under a configurable policy, maps the
//! event's severity level onto the sink's level enumeration, optionally
//! filters verbose events, and composes the record that a caller hands to
//! its logging sink.

pub mod bridge;
pub mod level;
pub mod render;
pub mod visitor;
