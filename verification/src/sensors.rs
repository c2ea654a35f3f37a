//! The state of the battery and of the backlight.
use vstd::prelude::*;
use crate::text::{chars_of, parse_number, parseNumber, sameText, trim, trimText};

verus! {

/// Represents the current status of battery
#[derive(Debug, Copy, Clone, PartialEq, Eq, Structural)]
pub enum BatteryStatus {
    Charging,
    Discharging,
    Full,
}

/// Contains capacity and current status of battery
#[derive(Debug, Copy, Clone, PartialEq, Eq, Structural)]
pub struct Battery {
    pub capacity: u8,
    pub status: BatteryStatus,
}

impl Battery {
    pub fn new(capacity: u8, status: BatteryStatus) -> (battery: Battery)
        ensures
            battery == (Battery { capacity, status }),
    {
        Battery { capacity, status }
    }
}

/// Holds information about backlight
#[derive(Debug, Clone, Copy, PartialEq, Eq, Structural)]
pub struct Backlight {
    pub brightness: u32,
    pub maxBrightness: u32,
}

/// The status that the kernel names by `text`, if it names one.
pub open spec fn status_of(text: Seq<char>) -> Option<BatteryStatus> {
    if text == "Charging"@ {
        Some(BatteryStatus::Charging)
    } else if text == "Discharging"@ {
        Some(BatteryStatus::Discharging)
    } else if text == "Full"@ {
        Some(BatteryStatus::Full)
    } else {
        None
    }
}

/// The charge that `text` writes, in percent; 0 where it writes none.
pub open spec fn capacity_of(text: Seq<char>) -> u8 {
    match parse_number(text, 255) {
        Some(n) => n as u8,
        None => 0,
    }
}

/// The battery that the content of its two files describes, or `None`
/// where one of them is empty or the status is not a known one.
pub open spec fn battery_of(capacity: Seq<char>, status: Seq<char>) -> Option<Battery> {
    if capacity.len() == 0 || status.len() == 0 {
        None
    } else {
        match status_of(status) {
            None => None,
            Some(known) => Some(Battery { capacity: capacity_of(capacity), status: known }),
        }
    }
}

/// The state of the battery, from the content of the files `capacity` and
/// `status` that the kernel keeps on it.
pub fn batteryInfo(capacity: &str, status: &str) -> (battery: Option<Battery>)
    ensures
        battery == battery_of(capacity@, status@),
{
    let level = chars_of(capacity);
    let state = chars_of(status);
    if level.len() == 0 || state.len() == 0 {
        return None;
    }
    let charging = chars_of("Charging");
    let discharging = chars_of("Discharging");
    let full = chars_of("Full");
    let known = if sameText(&state, &charging) {
        BatteryStatus::Charging
    } else if sameText(&state, &discharging) {
        BatteryStatus::Discharging
    } else if sameText(&state, &full) {
        BatteryStatus::Full
    } else {
        return None;
    };
    let percent: u8 = match parseNumber(&level, 255) {
        Some(n) => n as u8,
        None => 0,
    };
    Some(Battery::new(percent, known))
}

/// The backlight that the content of its two files describes, or `None`
/// where one of them does not write a number of 32 bits.
pub open spec fn backlight_of(brightness: Seq<char>, maxBrightness: Seq<char>) -> Option<
    Backlight,
> {
    match (
        parse_number(trim(brightness), u32::MAX as nat),
        parse_number(trim(maxBrightness), u32::MAX as nat),
    ) {
        (Some(current), Some(most)) => Some(
            Backlight { brightness: current as u32, maxBrightness: most as u32 },
        ),
        _ => None,
    }
}

/// The state of the backlight, from the content of the files
/// `brightness` and `max_brightness` that the kernel keeps on it.
pub fn getBacklight(brightness: &str, maxBrightness: &str) -> (backlight: Option<Backlight>)
    ensures
        backlight == backlight_of(brightness@, maxBrightness@),
{
    let current = trimText(&chars_of(brightness));
    let most = trimText(&chars_of(maxBrightness));
    match (parseNumber(&current, 0xFFFF_FFFF), parseNumber(&most, 0xFFFF_FFFF)) {
        (Some(b), Some(m)) => Some(Backlight { brightness: b as u32, maxBrightness: m as u32 }),
        _ => None,
    }
}

} // verus!
