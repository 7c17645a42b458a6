use tracing_bridge::render::{render_bool, render_i64, render_u64};
use tracing_bridge::visitor::{DedupPolicy, FieldValue, ToStringVisitor};

#[test]
fn unsigned_decimal_rendering() {
    assert_eq!(render_u64(0), "0");
    assert_eq!(render_u64(7), "7");
    assert_eq!(render_u64(10), "10");
    assert_eq!(render_u64(42), "42");
    assert_eq!(render_u64(1000), "1000");
    assert_eq!(render_u64(u64::MAX), "18446744073709551615");
}

#[test]
fn signed_decimal_rendering() {
    assert_eq!(render_i64(0), "0");
    assert_eq!(render_i64(3), "3");
    assert_eq!(render_i64(-1), "-1");
    assert_eq!(render_i64(-305), "-305");
    assert_eq!(render_i64(i64::MAX), "9223372036854775807");
    assert_eq!(render_i64(i64::MIN), "-9223372036854775808");
}

#[test]
fn boolean_rendering() {
    assert_eq!(render_bool(true), "true");
    assert_eq!(render_bool(false), "false");
}

#[test]
fn visitor_accumulates_one_segment_per_kind_in_order() {
    let mut v = ToStringVisitor::new();
    v.record_f64("ratio", "2.25");
    v.record_i64("delta", -11);
    v.record_u64("count", 3);
    v.record_bool("ok", false);
    v.record_str("who", "grace");
    v.record_error("err", "timed out");
    v.record_debug("raw", "[1, 2]");
    let expected = " ratio: 2.25 delta: -11 count: 3 ok: false who: grace err: timed out raw: [1, 2]";
    assert_eq!(v.render(DedupPolicy::FirstWins), expected);
    assert_eq!(v.render(DedupPolicy::LastWins), expected);
}

#[test]
fn visitor_record_value_matches_per_kind_operations() {
    let mut by_kind = ToStringVisitor::new();
    by_kind.record_u64("n", 5);
    by_kind.record_str("s", "x");
    let mut by_value = ToStringVisitor::new();
    by_value.record_value("n", &FieldValue::U64(5));
    by_value.record_value("s", &FieldValue::Str("x".to_string()));
    assert_eq!(
        by_kind.render(DedupPolicy::LastWins),
        by_value.render(DedupPolicy::LastWins)
    );
}

#[test]
fn empty_visitor_renders_empty_message() {
    let v = ToStringVisitor::new();
    assert_eq!(v.render(DedupPolicy::FirstWins), "");
    assert_eq!(v.render(DedupPolicy::LastWins), "");
}

#[test]
fn repeated_name_survives_once_per_policy() {
    let mut v = ToStringVisitor::new();
    v.record_u64("seen", 1);
    v.record_u64("other", 5);
    v.record_u64("seen", 2);
    v.record_u64("seen", 3);
    assert_eq!(v.render(DedupPolicy::FirstWins), " seen: 1 other: 5");
    assert_eq!(v.render(DedupPolicy::LastWins), " other: 5 seen: 3");
}
