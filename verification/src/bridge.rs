//! The event bridge: maps an event's severity, optionally filters
//! verbose events, renders the fields to one message, and composes the
//! record that the caller hands to its logging sink.

use vstd::prelude::*;
use crate::level::{map_level, spec_map_level, Level, LogLevel};
use crate::visitor::{
    spec_dedup, spec_message_of, spec_render_value, DedupPolicy, FieldPairs, FieldValue,
    ToStringVisitor,
};

verus! {

/// One structured event, as the bridge reads it: a severity level, a
/// target, optional source location metadata, and the named field
/// values in emission order.
pub struct Event {
    /// The event's severity on the event-side enumeration.
    pub level: Level,
    /// The event's target.
    pub target: String,
    /// The source file of the emission, if known.
    pub file: Option<String>,
    /// The source line of the emission, if known.
    pub line: Option<u32>,
    /// The module path of the emission, if known.
    pub module: Option<String>,
    /// The (name, value) pairs, in emission order.
    pub fields: Vec<(String, FieldValue)>,
}

/// The composed output: one message with the metadata the sink takes.
pub struct RenderedRecord {
    /// The rendered message: one segment per retained field.
    pub message: String,
    /// The severity on the sink-side enumeration.
    pub level: LogLevel,
    /// The event's target, passed through unchanged.
    pub target: String,
    /// The event's source file, passed through unchanged.
    pub file: Option<String>,
    /// The event's source line, passed through unchanged.
    pub line: Option<u32>,
    /// The event's module path, passed through unchanged.
    pub module: Option<String>,
}

/// The rendered (name, text) pairs of an event's field list, in emission
/// order, before deduplication.
pub open spec fn spec_event_pairs(fs: Seq<(String, FieldValue)>) -> FieldPairs {
    fs.map_values(|p: (String, FieldValue)| (p.0@, spec_render_value(p.1)))
}

/// Whether a sink-side level counts as verbose.
pub open spec fn spec_is_verbose(l: LogLevel) -> bool {
    l == LogLevel::Debug || l == LogLevel::Trace
}

/// Whether the bridge drops an event of the given level: only when
/// verbosity filtering is on and the mapped level is verbose.
pub open spec fn spec_filtered(filter_verbose: bool, l: Level) -> bool {
    filter_verbose && spec_is_verbose(spec_map_level(l))
}

/// The contents of an optional string.
pub open spec fn spec_opt_text(o: Option<String>) -> Option<Seq<char>> {
    match o {
        Option::Some(s) => Option::Some(s@),
        Option::None => Option::None,
    }
}

/// The message the bridge composes for an event: its fields rendered in
/// emission order, deduplicated under the policy, one segment each.
pub open spec fn spec_bridge_message(policy: DedupPolicy, fs: Seq<(String, FieldValue)>) -> Seq<
    char,
> {
    spec_message_of(spec_dedup(policy, spec_event_pairs(fs)))
}

/// The event bridge. It holds the two behavioral policies: whether
/// verbose events are dropped before any field work, and which value
/// survives a repeated field name.
pub struct TuiTracingSubscriberLayer {
    /// When on, events whose mapped level is `Debug` or `Trace` produce
    /// no record at all.
    pub filter_verbose: bool,
    /// Which occurrence of a repeated field name survives.
    pub dedup: DedupPolicy,
}

/// Clones an optional string.
fn clone_opt_string(o: &Option<String>) -> (r: Option<String>)
    ensures
        spec_opt_text(r) == spec_opt_text(*o),
{
    match o {
        Option::Some(s) => Option::Some(s.clone()),
        Option::None => Option::None,
    }
}

impl TuiTracingSubscriberLayer {
    /// A bridge with the documented default policies: verbose events
    /// are dropped, and the last-recorded value survives a repeated
    /// field name.
    pub fn new() -> (l: TuiTracingSubscriberLayer)
        ensures
            l.filter_verbose == true,
            l.dedup == DedupPolicy::LastWins,
    {
        TuiTracingSubscriberLayer { filter_verbose: true, dedup: DedupPolicy::LastWins }
    }

    /// A bridge with explicit policies.
    pub fn with_policies(filter_verbose: bool, dedup: DedupPolicy) -> (l: TuiTracingSubscriberLayer)
        ensures
            l.filter_verbose == filter_verbose,
            l.dedup == dedup,
    {
        TuiTracingSubscriberLayer { filter_verbose, dedup }
    }

    /// Whether an event at this level is dropped. A caller may check
    /// this before gathering any field, to spare the work for an event
    /// that produces no record anyway; `on_event` applies the same
    /// test.
    pub fn filters(&self, level: Level) -> (r: bool)
        ensures
            r == spec_filtered(self.filter_verbose, level),
    {
        let mapped = map_level(level);
        self.filter_verbose && (mapped == LogLevel::Debug || mapped == LogLevel::Trace)
    }

    /// Translates one event into at most one record for the sink.
    ///
    /// Exactly one record comes back for every event the filter does not
    /// drop, and none for a dropped event: the caller makes one sink
    /// call per `Some`. The record carries the bijectively mapped
    /// level, the message rendered from the fields in emission order
    /// (deduplicated under the configured policy), and the event's
    /// target, file, line and module path unchanged.
    pub fn on_event(&self, event: &Event) -> (r: Option<RenderedRecord>)
        ensures
            r is None <==> spec_filtered(self.filter_verbose, event.level),
            match r {
                Option::Some(rec) => {
                    &&& rec.level == spec_map_level(event.level)
                    &&& rec.message@ == spec_bridge_message(self.dedup, event.fields@)
                    &&& rec.target@ == event.target@
                    &&& spec_opt_text(rec.file) == spec_opt_text(event.file)
                    &&& rec.line == event.line
                    &&& spec_opt_text(rec.module) == spec_opt_text(event.module)
                },
                Option::None => true,
            },
    {
        let level = map_level(event.level);
        if self.filter_verbose && (level == LogLevel::Debug || level == LogLevel::Trace) {
            return Option::None;
        }
        let mut visitor = ToStringVisitor::new();
        let mut k: usize = 0;
        proof {
            assert(visitor@ =~= spec_event_pairs(event.fields@.take(0)));
        }
        while k < event.fields.len()
            invariant
                k <= event.fields@.len(),
                visitor@ =~= spec_event_pairs(event.fields@.take(k as int)),
            decreases event.fields@.len() - k,
        {
            visitor.record_value(event.fields[k].0.as_str(), &event.fields[k].1);
            proof {
                assert(spec_event_pairs(event.fields@.take(k + 1)) =~= spec_event_pairs(
                    event.fields@.take(k as int),
                ).push((event.fields@[k as int].0@, spec_render_value(event.fields@[k as int].1))));
            }
            k = k + 1;
        }
        proof {
            assert(event.fields@.take(event.fields@.len() as int) =~= event.fields@);
        }
        let message = visitor.render(self.dedup);
        Option::Some(
            RenderedRecord {
                message,
                level,
                target: event.target.clone(),
                file: clone_opt_string(&event.file),
                line: event.line,
                module: clone_opt_string(&event.module),
            },
        )
    }
}

} // verus!
