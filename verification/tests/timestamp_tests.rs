use tomesync::timestamp::{parse_cursor, Instant};

#[test]
fn cursor_absent_defaults_to_epoch() {
    let t = parse_cursor(&None);
    assert_eq!(t.secs, 0);
    assert_eq!(t.nanos, 0);
}

#[test]
fn cursor_unreadable_defaults_to_epoch() {
    let t = parse_cursor(&Some(String::from("not-a-timestamp")));
    assert_eq!(t.secs, 0);
    assert_eq!(t.nanos, 0);
}

#[test]
fn cursor_epoch_string_is_epoch() {
    let t = parse_cursor(&Some(String::from("1970-01-01T00:00:00Z")));
    assert_eq!(t.secs, 0);
    assert_eq!(t.nanos, 0);
}

#[test]
fn cursor_parses_utc_instant() {
    let t = parse_cursor(&Some(String::from("2024-01-01T00:00:00Z")));
    assert_eq!(t.secs, 1704067200);
    assert_eq!(t.nanos, 0);
}

#[test]
fn cursor_parses_fractional_seconds() {
    let t = parse_cursor(&Some(String::from("2024-01-01T00:00:00.123456789Z")));
    assert_eq!(t.secs, 1704067200);
    assert_eq!(t.nanos, 123456789);
}

#[test]
fn cursor_normalizes_offset() {
    let t = parse_cursor(&Some(String::from("2024-01-01T02:00:00+02:00")));
    assert_eq!(t.secs, 1704067200);
    assert_eq!(t.nanos, 0);
}

#[test]
fn before_orders_by_seconds_then_nanos() {
    let a = Instant { secs: 5, nanos: 10 };
    let b = Instant { secs: 5, nanos: 11 };
    let c = Instant { secs: 6, nanos: 0 };
    assert!(a.before(&b));
    assert!(b.before(&c));
    assert!(a.before(&c));
    assert!(!b.before(&a));
    assert!(!a.before(&a));
}

#[test]
fn epoch_is_origin() {
    let e = Instant::epoch();
    assert_eq!(e.secs, 0);
    assert_eq!(e.nanos, 0);
}
