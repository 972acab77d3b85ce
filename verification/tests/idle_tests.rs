use trance::idle::{
    logind_idle_status, extract_bool, extract_u64, idle_status_from, notification_timeout_ms, parse_busctl_property, poll_step,
    BoolOrU64, GlobalBinding, IdleEvent, IdleStatus, NotificationRequest, PollStep, WaylandIdleMonitor,
};

#[test]
fn parses_boolean_property() {
    assert_eq!(parse_busctl_property("b true\n"), Some(BoolOrU64::Bool(true)));
    assert_eq!(parse_busctl_property("b false\n"), Some(BoolOrU64::Bool(false)));
    assert_eq!(parse_busctl_property("  b   yes  "), Some(BoolOrU64::Bool(false)));
}

#[test]
fn parses_integer_property() {
    assert_eq!(parse_busctl_property("t 1712345678901234\n"), Some(BoolOrU64::U64(1712345678901234)));
    assert_eq!(parse_busctl_property("t +7"), Some(BoolOrU64::U64(7)));
    assert_eq!(parse_busctl_property("t 18446744073709551615"), Some(BoolOrU64::U64(u64::MAX)));
}

#[test]
fn rejects_malformed_output() {
    assert_eq!(parse_busctl_property(""), None);
    assert_eq!(parse_busctl_property("b"), None);
    assert_eq!(parse_busctl_property("s \"hello\""), None);
    assert_eq!(parse_busctl_property("t abc"), None);
    assert_eq!(parse_busctl_property("t 18446744073709551616"), None);
    assert_eq!(parse_busctl_property("t -1"), None);
    assert_eq!(parse_busctl_property("t +"), None);
    assert_eq!(parse_busctl_property("bb true"), None);
}

#[test]
fn unicode_white_space_separates_words() {
    assert_eq!(parse_busctl_property("t\u{a0}42"), Some(BoolOrU64::U64(42)));
    assert_eq!(parse_busctl_property("b\u{3000}true"), Some(BoolOrU64::Bool(true)));
}

#[test]
fn extract_matches_type() {
    assert_eq!(extract_bool(Some(BoolOrU64::Bool(true))), Some(true));
    assert_eq!(extract_bool(Some(BoolOrU64::U64(1))), None);
    assert_eq!(extract_u64(Some(BoolOrU64::U64(5))), Some(5));
    assert_eq!(extract_u64(None), None);
    assert_eq!(BoolOrU64::U64(3).bool(), None);
    assert_eq!(BoolOrU64::Bool(false).bool(), Some(false));
}

#[test]
fn idle_status_needs_both_properties() {
    assert_eq!(
        idle_status_from(Some(true), Some(99)),
        Some(IdleStatus { is_idle: true, idle_since_micros: 99 })
    );
    assert_eq!(idle_status_from(Some(true), None), None);
    assert_eq!(idle_status_from(None, Some(1)), None);
}

#[test]
fn timeout_in_milliseconds() {
    assert_eq!(notification_timeout_ms(10), 600_000);
    assert_eq!(notification_timeout_ms(71582), 4_294_920_000);
}

#[test]
fn poll_decisions() {
    assert_eq!(poll_step(1, true, true, false), PollStep::Stop);
    assert_eq!(poll_step(1, false, true, false), PollStep::Read);
    assert_eq!(poll_step(1, false, false, false), PollStep::Continue);
    assert_eq!(poll_step(0, false, false, false), PollStep::Continue);
    assert_eq!(poll_step(-1, false, false, true), PollStep::Continue);
    assert_eq!(poll_step(-1, false, false, false), PollStep::Stop);
}

#[test]
fn monitor_tracks_globals_and_idle_events() {
    let mut m = WaylandIdleMonitor::new(10);
    assert!(!m.is_idle());
    assert!(m.is_running());
    assert_eq!(m.on_global("wl_compositor"), GlobalBinding::Ignored);
    assert_eq!(m.update_notification(), NotificationRequest::MissingGlobals);
    assert_eq!(m.on_global("wl_seat"), GlobalBinding::Seat);
    assert_eq!(m.on_global("ext_idle_notifier_v1"), GlobalBinding::Notifier);
    assert_eq!(m.update_notification(), NotificationRequest::Register { timeout_ms: 600_000 });
    m.on_notification(IdleEvent::Idled);
    assert!(m.is_idle());
    m.on_notification(IdleEvent::Resumed);
    assert!(!m.is_idle());
    m.on_notification(IdleEvent::Idled);
    assert_eq!(m.set_timeout(5), NotificationRequest::Register { timeout_ms: 300_000 });
    assert!(!m.is_idle());
    m.stop();
    assert!(!m.is_running());
}

#[test]
fn session_status_first_then_manager() {
    let b = |v| Some(BoolOrU64::Bool(v));
    let t = |v| Some(BoolOrU64::U64(v));
    assert_eq!(
        logind_idle_status(b(true), t(5), b(false), t(7)),
        Some(IdleStatus { is_idle: true, idle_since_micros: 5 })
    );
    assert_eq!(
        logind_idle_status(b(true), None, b(false), t(7)),
        Some(IdleStatus { is_idle: false, idle_since_micros: 7 })
    );
    assert_eq!(
        logind_idle_status(t(1), t(5), b(true), t(8)),
        Some(IdleStatus { is_idle: true, idle_since_micros: 8 })
    );
    assert_eq!(logind_idle_status(None, None, b(true), None), None);
}
