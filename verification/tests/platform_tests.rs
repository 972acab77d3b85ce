use trance::platform::{
    check_mouse_activity, get_monitor_refresh_rate, terminal_size_or_default, DiskDriveInfo,
    NetworkAdapterInfo, PowerStatus, SystemBiosInfo,
};

#[test]
fn refresh_rate_is_120() {
    assert_eq!(get_monitor_refresh_rate(), 120);
}

#[test]
fn power_status_default_and_unknown_battery() {
    let p = PowerStatus::default();
    assert!(p.ac_online);
    assert_eq!(p.battery_percent, 100);
    assert!(!p.is_battery_percent_unknown());
    let q = PowerStatus { ac_online: false, battery_percent: PowerStatus::BATTERY_PERCENT_UNKNOWN };
    assert!(q.is_battery_percent_unknown());
    assert_eq!(PowerStatus::BATTERY_PERCENT_UNKNOWN, 255);
}

#[test]
fn info_structs_default_to_empty() {
    assert_eq!(SystemBiosInfo::default().manufacturer, "");
    let d = DiskDriveInfo::default();
    assert_eq!((d.total_bytes, d.free_bytes), (0, 0));
    let n = NetworkAdapterInfo::default();
    assert!(n.ip_addresses.is_empty() && !n.is_up);
}

#[test]
fn terminal_size_falls_back_to_80_by_24() {
    assert_eq!(terminal_size_or_default(None), (80, 24));
    assert_eq!(terminal_size_or_default(Some((132, 43))), (132, 43));
}

#[test]
fn mouse_activity_never_reported() {
    let mut pos = Some((3, 4));
    assert!(!check_mouse_activity(&mut pos));
    assert_eq!(pos, Some((3, 4)));
    let mut none = None;
    assert!(!check_mouse_activity(&mut none));
    assert_eq!(none, None);
}
