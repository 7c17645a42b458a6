use tracing_bridge::bridge::{Event, TuiTracingSubscriberLayer};
use tracing_bridge::level::{Level, LogLevel};
use tracing_bridge::visitor::{DedupPolicy, FieldValue};

fn event_at(level: Level, fields: Vec<(String, FieldValue)>) -> Event {
    Event {
        level,
        target: "app.core".to_string(),
        file: Some("core.rs".to_string()),
        line: Some(7),
        module: Some("app::core".to_string()),
        fields,
    }
}

#[test]
fn round_trip_literal_info_event() {
    let layer = TuiTracingSubscriberLayer::new();
    let event = Event {
        level: Level::Info,
        target: "svc.auth".to_string(),
        file: Some("auth.rs".to_string()),
        line: Some(88),
        module: None,
        fields: vec![
            ("user_id".to_string(), FieldValue::U64(42)),
            ("retries".to_string(), FieldValue::I64(3)),
        ],
    };
    let rec = layer.on_event(&event).expect("an info event must produce a record");
    assert_eq!(rec.message, " user_id: 42 retries: 3");
    assert!(rec.level == LogLevel::Info);
    assert_eq!(rec.target, "svc.auth");
    assert_eq!(rec.file.as_deref(), Some("auth.rs"));
    assert_eq!(rec.line, Some(88));
    assert_eq!(rec.module, None);
}

#[test]
fn dedup_literal_last_wins() {
    let layer = TuiTracingSubscriberLayer::with_policies(false, DedupPolicy::LastWins);
    let event = event_at(
        Level::Info,
        vec![
            ("code".to_string(), FieldValue::I64(1)),
            ("code".to_string(), FieldValue::I64(2)),
        ],
    );
    let rec = layer.on_event(&event).unwrap();
    assert_eq!(rec.message, " code: 2");
}

#[test]
fn dedup_first_wins_keeps_first_value_and_position() {
    let layer = TuiTracingSubscriberLayer::with_policies(false, DedupPolicy::FirstWins);
    let event = event_at(
        Level::Info,
        vec![
            ("a".to_string(), FieldValue::I64(1)),
            ("b".to_string(), FieldValue::I64(2)),
            ("a".to_string(), FieldValue::I64(3)),
        ],
    );
    let rec = layer.on_event(&event).unwrap();
    assert_eq!(rec.message, " a: 1 b: 2");
}

#[test]
fn dedup_last_wins_keeps_last_value_and_position() {
    let layer = TuiTracingSubscriberLayer::with_policies(false, DedupPolicy::LastWins);
    let event = event_at(
        Level::Info,
        vec![
            ("a".to_string(), FieldValue::I64(1)),
            ("b".to_string(), FieldValue::I64(2)),
            ("a".to_string(), FieldValue::I64(3)),
        ],
    );
    let rec = layer.on_event(&event).unwrap();
    assert_eq!(rec.message, " b: 2 a: 3");
}

#[test]
fn distinct_names_keep_every_field_in_order_for_every_kind() {
    for policy in [DedupPolicy::FirstWins, DedupPolicy::LastWins] {
        let layer = TuiTracingSubscriberLayer::with_policies(false, policy);
        let event = event_at(
            Level::Warn,
            vec![
                ("ratio".to_string(), FieldValue::F64Text("0.5".to_string())),
                ("delta".to_string(), FieldValue::I64(-4)),
                ("count".to_string(), FieldValue::U64(9)),
                ("ok".to_string(), FieldValue::Bool(true)),
                ("who".to_string(), FieldValue::Str("ada".to_string())),
                ("err".to_string(), FieldValue::Error("broken pipe".to_string())),
                ("raw".to_string(), FieldValue::Debug("Pair(1, 2)".to_string())),
            ],
        );
        let rec = layer.on_event(&event).unwrap();
        assert_eq!(
            rec.message,
            " ratio: 0.5 delta: -4 count: 9 ok: true who: ada err: broken pipe raw: Pair(1, 2)"
        );
    }
}

#[test]
fn level_mapping_is_the_identity_on_names() {
    let layer = TuiTracingSubscriberLayer::with_policies(false, DedupPolicy::LastWins);
    let pairs = [
        (Level::Error, LogLevel::Error),
        (Level::Warn, LogLevel::Warn),
        (Level::Info, LogLevel::Info),
        (Level::Debug, LogLevel::Debug),
        (Level::Trace, LogLevel::Trace),
    ];
    for (event_level, sink_level) in pairs {
        let rec = layer.on_event(&event_at(event_level, vec![])).unwrap();
        assert!(rec.level == sink_level);
    }
}

#[test]
fn filtering_on_drops_exactly_the_verbose_levels() {
    let layer = TuiTracingSubscriberLayer::with_policies(true, DedupPolicy::LastWins);
    assert!(layer.on_event(&event_at(Level::Debug, vec![])).is_none());
    assert!(layer.on_event(&event_at(Level::Trace, vec![])).is_none());
    assert!(layer.on_event(&event_at(Level::Error, vec![])).is_some());
    assert!(layer.on_event(&event_at(Level::Warn, vec![])).is_some());
    assert!(layer.on_event(&event_at(Level::Info, vec![])).is_some());
}

#[test]
fn filtering_off_keeps_every_level() {
    let layer = TuiTracingSubscriberLayer::with_policies(false, DedupPolicy::LastWins);
    for level in [Level::Error, Level::Warn, Level::Info, Level::Debug, Level::Trace] {
        assert!(layer.on_event(&event_at(level, vec![])).is_some());
    }
}

#[test]
fn filters_matches_on_event() {
    let filtering = TuiTracingSubscriberLayer::with_policies(true, DedupPolicy::LastWins);
    let open = TuiTracingSubscriberLayer::with_policies(false, DedupPolicy::LastWins);
    for level in [Level::Error, Level::Warn, Level::Info, Level::Debug, Level::Trace] {
        assert_eq!(filtering.filters(level), filtering.on_event(&event_at(level, vec![])).is_none());
        assert!(!open.filters(level));
    }
}

#[test]
fn default_layer_filters_and_keeps_last() {
    let layer = TuiTracingSubscriberLayer::new();
    assert!(layer.on_event(&event_at(Level::Trace, vec![])).is_none());
    let rec = layer
        .on_event(&event_at(
            Level::Error,
            vec![
                ("k".to_string(), FieldValue::Str("old".to_string())),
                ("k".to_string(), FieldValue::Str("new".to_string())),
            ],
        ))
        .unwrap();
    assert_eq!(rec.message, " k: new");
}

#[test]
fn metadata_passes_through_unchanged() {
    let layer = TuiTracingSubscriberLayer::with_policies(false, DedupPolicy::LastWins);
    let event = Event {
        level: Level::Trace,
        target: "deep.module".to_string(),
        file: None,
        line: None,
        module: Some("a::b::c".to_string()),
        fields: vec![],
    };
    let rec = layer.on_event(&event).unwrap();
    assert_eq!(rec.message, "");
    assert!(rec.level == LogLevel::Trace);
    assert_eq!(rec.target, "deep.module");
    assert_eq!(rec.file, None);
    assert_eq!(rec.line, None);
    assert_eq!(rec.module.as_deref(), Some("a::b::c"));
}
