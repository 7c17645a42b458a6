//! The two parallel severity enumerations and the fixed bijection
//! between them.

use vstd::prelude::*;

verus! {

/// Severity level on the structured-event side, ordered from most to
/// least severe.
#[derive(Clone, Copy, PartialEq, Eq, Structural, Debug)]
pub enum Level {
    Error,
    Warn,
    Info,
    Debug,
    Trace,
}

/// Severity level on the sink side, ordered from most to least severe.
#[derive(Clone, Copy, PartialEq, Eq, Structural, Debug)]
pub enum LogLevel {
    Error,
    Warn,
    Info,
    Debug,
    Trace,
}

/// The fixed bijection between the event-side and the sink-side level
/// enumerations: each level maps to its namesake and to nothing else.
pub open spec fn spec_map_level(l: Level) -> LogLevel {
    match l {
        Level::Error => LogLevel::Error,
        Level::Warn => LogLevel::Warn,
        Level::Info => LogLevel::Info,
        Level::Debug => LogLevel::Debug,
        Level::Trace => LogLevel::Trace,
    }
}

/// Translates an event's severity to the sink's enumeration. Total: every
/// event-side level has exactly one sink-side counterpart.
pub fn map_level(l: Level) -> (r: LogLevel)
    ensures
        r == spec_map_level(l),
{
    match l {
        Level::Error => LogLevel::Error,
        Level::Warn => LogLevel::Warn,
        Level::Info => LogLevel::Info,
        Level::Debug => LogLevel::Debug,
        Level::Trace => LogLevel::Trace,
    }
}

/// The inverse direction of the level bijection, from the sink-side
/// enumeration back to the event side.
pub open spec fn spec_unmap_level(r: LogLevel) -> Level {
    match r {
        LogLevel::Error => Level::Error,
        LogLevel::Warn => Level::Warn,
        LogLevel::Info => Level::Info,
        LogLevel::Debug => Level::Debug,
        LogLevel::Trace => Level::Trace,
    }
}

/// Law: the level mapping is a bijection. `spec_unmap_level` is a
/// two-sided inverse of `spec_map_level`, so distinct event-side levels
/// map to distinct sink-side levels and every sink-side level is the
/// image of exactly one event-side level; in particular distinct levels
/// map to distinct images.
pub proof fn lemma_level_map_bijective()
    ensures
        forall|l: Level| spec_unmap_level(#[trigger] spec_map_level(l)) == l,
        forall|r: LogLevel| spec_map_level(#[trigger] spec_unmap_level(r)) == r,
        forall|a: Level, b: Level|
            #[trigger] spec_map_level(a) == #[trigger] spec_map_level(b) ==> a == b,
{
}

} // verus!
