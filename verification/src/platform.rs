//! Platform facts used by the terminal screensaver runner: power and hardware
//! descriptions, the refresh rate assumed for terminals, the terminal size
//! fallback and the (disabled) mouse-activity check.
use vstd::prelude::*;

verus! {

/// Power supply state.
#[derive(Debug, Clone, PartialEq, Eq, Structural)]
pub struct PowerStatus {
    pub ac_online: bool,
    pub battery_percent: u8,
}

impl PowerStatus {
    /// The battery percentage reported when the charge is not known.
    pub const BATTERY_PERCENT_UNKNOWN: u8 = 255;

    /// The battery charge is not known.
    pub fn is_battery_percent_unknown(&self) -> (r: bool)
        ensures
            r == (self.battery_percent == 255),
    {
        self.battery_percent == Self::BATTERY_PERCENT_UNKNOWN
    }
}

impl Default for PowerStatus {
    /// On mains power with a full battery.
    fn default() -> (s: Self)
        ensures
            s.ac_online,
            s.battery_percent == 100,
    {
        PowerStatus { ac_online: true, battery_percent: 100 }
    }
}

/// Firmware identification of the machine.
#[derive(Debug, Clone, Default, PartialEq, Eq)]
pub struct SystemBiosInfo {
    pub manufacturer: String,
    pub product: String,
    pub model: String,
}

/// Size and free space of a disk drive.
#[derive(Debug, Clone, Default, PartialEq, Eq)]
pub struct DiskDriveInfo {
    pub path: String,
    pub total_bytes: u64,
    pub free_bytes: u64,
}

/// A network adapter and its addresses.
#[derive(Debug, Clone, Default, PartialEq, Eq)]
pub struct NetworkAdapterInfo {
    pub name: String,
    pub description: String,
    pub ip_addresses: Vec<String>,
    pub adapter_type: String,
    pub is_up: bool,
}

/// Refresh rate assumed for terminal savers, in Hz.
pub fn get_monitor_refresh_rate() -> (r: u32)
    ensures
        r == 120,
{
    120
}

/// Terminal size as `(columns, rows)`: the size the terminal reported, or
/// 80 by 24 when it could not be queried.
pub fn terminal_size_or_default(reported: Option<(u16, u16)>) -> (r: (usize, usize))
    ensures
        match reported {
            Some((cols, rows)) => r == (cols as usize, rows as usize),
            None => r == (80usize, 24usize),
        },
{
    match reported {
        Some((cols, rows)) => (cols as usize, rows as usize),
        None => (80, 24),
    }
}

/// Mouse activity is not watched by terminal savers: never reports activity
/// and leaves the remembered position as it is.
pub fn check_mouse_activity(_initial_pos: &mut Option<(i32, i32)>) -> (moved: bool)
    ensures
        !moved,
        *final(_initial_pos) == *old(_initial_pos),
{
    false
}

} // verus!
