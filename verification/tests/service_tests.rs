use trance::screensaver::{DaemonCommand, ScreenSaverError, ScreenSaverService};
use trance::inhibit::InhibitError;

fn is_stop(c: &Option<DaemonCommand>) -> bool {
    matches!(c, Some(DaemonCommand::StopPresentation))
}

#[test]
fn inhibit_then_uninhibit_by_same_sender() {
    let mut s = ScreenSaverService::new(None);
    let (cookie, e) = s.inhibit("player", "video", Some(":1.5".to_string())).unwrap();
    assert_eq!(cookie, 1);
    assert!(is_stop(&e.command));
    assert!(e.mark_dirty);
    assert!(s.inhibitors.is_inhibited());
    let e = s.un_inhibit(cookie, Some(":1.5".to_string())).unwrap();
    assert!(e.command.is_none() && e.mark_dirty);
    assert!(!s.inhibitors.is_inhibited());
}

#[test]
fn requests_without_sender_fail() {
    let mut s = ScreenSaverService::new(None);
    assert_eq!(s.inhibit("a", "b", None).err(), Some(ScreenSaverError::MissingSender));
    assert!(!s.inhibitors.is_inhibited());
    assert_eq!(s.un_inhibit(1, None).err(), Some(ScreenSaverError::MissingSender));
}

#[test]
fn uninhibit_of_unknown_cookie_is_refused() {
    let mut s = ScreenSaverService::new(None);
    let (cookie, _) = s.inhibit("a", "b", Some(":1.1".to_string())).unwrap();
    assert_eq!(s.un_inhibit(cookie + 1, Some(":1.1".to_string())).err(), Some(ScreenSaverError::UnknownCookie(cookie + 1)));
    assert_eq!(s.un_inhibit(cookie, Some(":1.2".to_string())).err(), Some(ScreenSaverError::UnknownCookie(cookie)));
    assert!(s.inhibitors.is_inhibited());
}

#[test]
fn inhibit_beyond_capacity_is_refused() {
    let mut s = ScreenSaverService::new(None);
    for _ in 0..32 {
        assert!(s.inhibit("a", "b", Some(":1.9".to_string())).is_ok());
    }
    assert_eq!(
        s.inhibit("a", "b", Some(":1.9".to_string())).err(),
        Some(ScreenSaverError::Refused(InhibitError::TooManyForClient))
    );
}

#[test]
fn set_active_previews_configured_or_default_saver() {
    let s = ScreenSaverService::new(None);
    let e = s.set_active(true);
    assert!(e.mark_dirty);
    match e.command {
        Some(DaemonCommand::Preview(name)) => assert_eq!(name, "beams"),
        _ => panic!("expected a preview"),
    }
    let s = ScreenSaverService::new(Some("storm".to_string()));
    match s.set_active(true).command {
        Some(DaemonCommand::Preview(name)) => assert_eq!(name, "storm"),
        _ => panic!("expected a preview"),
    }
    let e = s.set_active(false);
    assert!(is_stop(&e.command) && e.mark_dirty);
}

#[test]
fn activity_and_lock_stop_presentation() {
    let mut s = ScreenSaverService::new(None);
    assert!(!s.get_active());
    s.presentation_active = true;
    assert!(s.get_active());
    let e = s.simulate_user_activity();
    assert!(is_stop(&e.command) && !e.mark_dirty);
    let e = s.lock();
    assert!(is_stop(&e.command) && !e.mark_dirty);
}

#[test]
fn service_cookies_are_positive_and_increasing() {
    let mut s = ScreenSaverService::new(Some("matrix".to_string()));
    let (a, _) = s.inhibit("player", "video", Some(":1.5".to_string())).unwrap();
    let (b, _) = s.inhibit("call", "meeting", Some(":1.6".to_string())).unwrap();
    let (c, _) = s.inhibit("player", "video", Some(":1.5".to_string())).unwrap();
    assert!(a > 0 && a < b && b < c);
}
