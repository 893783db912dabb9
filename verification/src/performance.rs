use vstd::prelude::*;

use crate::text::{decimal, decimal_string};

verus! {

// ---------------------------------------------------------------------------
// Batteries (codes as UPower reports them)
// ---------------------------------------------------------------------------

/// The name of a battery state, as a message id to localize; empty for
/// unknown codes.
pub open spec fn battery_state_spec(state: i32) -> Seq<char> {
    if state == 1 {
        "Charging"@
    } else if state == 2 {
        "Discharging"@
    } else if state == 3 {
        "Empty"@
    } else if state == 4 || state == 5 || state == 6 {
        "Full"@
    } else {
        Seq::empty()
    }
}

/// The name of a battery state: charging, discharging, empty, or full (which
/// also stands for pending charge and discharge).
pub fn batterystate_to_str(state: i32) -> (r: &'static str)
    ensures
        r@ == battery_state_spec(state),
{
    match state {
        1 => "Charging",
        2 => "Discharging",
        3 => "Empty",
        4 | 5 | 6 => "Full",
        _ => {
            let r = "";
            assert(r@ =~= Seq::<char>::empty()) by {
                reveal_strlit("");
            }
            r
        },
    }
}

/// The name of a kind of power device (UPower's device types 1 to 28), as a
/// message id to localize; empty for unknown codes.
pub open spec fn battery_kind_spec(kind: i32) -> Seq<char> {
    if kind == 1 { "LinePower"@ }
    else if kind == 2 { "Battery"@ }
    else if kind == 3 { "UPS"@ }
    else if kind == 4 { "Monitor"@ }
    else if kind == 5 { "Mouse"@ }
    else if kind == 6 { "Keyboard"@ }
    else if kind == 7 { "PDA"@ }
    else if kind == 8 { "Phone"@ }
    else if kind == 9 { "Media player"@ }
    else if kind == 10 { "Tablet"@ }
    else if kind == 11 { "Computer"@ }
    else if kind == 12 { "Gaming Input"@ }
    else if kind == 13 { "Pen"@ }
    else if kind == 14 { "Touchpad"@ }
    else if kind == 15 { "Modem"@ }
    else if kind == 16 { "Network"@ }
    else if kind == 17 { "Headset"@ }
    else if kind == 18 { "Speakers"@ }
    else if kind == 19 { "Headphones"@ }
    else if kind == 20 { "Video"@ }
    else if kind == 21 { "Other Audio"@ }
    else if kind == 22 { "Remote Control"@ }
    else if kind == 23 { "Printer"@ }
    else if kind == 24 { "Scanner"@ }
    else if kind == 25 { "Camera"@ }
    else if kind == 26 { "Wearable"@ }
    else if kind == 27 { "Toy"@ }
    else if kind == 28 { "Generic bluetooth"@ }
    else { Seq::empty() }
}

/// The name of a kind of power device.
pub fn batterykind_to_str(kind: i32) -> (r: &'static str)
    ensures
        r@ == battery_kind_spec(kind),
{
    match kind {
        1 => "LinePower",
        2 => "Battery",
        3 => "UPS",
        4 => "Monitor",
        5 => "Mouse",
        6 => "Keyboard",
        7 => "PDA",
        8 => "Phone",
        9 => "Media player",
        10 => "Tablet",
        11 => "Computer",
        12 => "Gaming Input",
        13 => "Pen",
        14 => "Touchpad",
        15 => "Modem",
        16 => "Network",
        17 => "Headset",
        18 => "Speakers",
        19 => "Headphones",
        20 => "Video",
        21 => "Other Audio",
        22 => "Remote Control",
        23 => "Printer",
        24 => "Scanner",
        25 => "Camera",
        26 => "Wearable",
        27 => "Toy",
        28 => "Generic bluetooth",
        _ => {
            let r = "";
            assert(r@ =~= Seq::<char>::empty()) by {
                reveal_strlit("");
            }
            r
        },
    }
}

/// The name of a battery technology, as a message id to localize; empty
/// for unknown codes.
pub open spec fn battery_technology_spec(technology: i32) -> Seq<char> {
    if technology == 1 { "Lithium Ion"@ }
    else if technology == 2 { "Lithium Polymer"@ }
    else if technology == 3 { "Lithium Iron Phosphate"@ }
    else if technology == 4 { "Lead Acid"@ }
    else if technology == 5 { "Nickel Cadmium"@ }
    else if technology == 6 { "Nickel Metal Hydride"@ }
    else { Seq::empty() }
}

/// The name of a battery technology.
pub fn batterytechnology_to_str(technology: i32) -> (r: &'static str)
    ensures
        r@ == battery_technology_spec(technology),
{
    match technology {
        1 => "Lithium Ion",
        2 => "Lithium Polymer",
        3 => "Lithium Iron Phosphate",
        4 => "Lead Acid",
        5 => "Nickel Cadmium",
        6 => "Nickel Metal Hydride",
        _ => {
            let r = "";
            assert(r@ =~= Seq::<char>::empty()) by {
                reveal_strlit("");
            }
            r
        },
    }
}

/// The vendor and the model of a battery, separated by a space, whichever of
/// them is known; `None` when neither is.
pub fn battery_vendor_model(vendor: &Option<String>, model: &Option<String>) -> (r: Option<String>)
    ensures
        match (vendor, model) {
            (Some(v), Some(m)) => r matches Some(s) && s@ == v@.push(' ') + m@,
            (Some(v), None) => r matches Some(s) && s@ == v@,
            (None, Some(m)) => r matches Some(s) && s@ == m@,
            (None, None) => r is None,
        },
{
    match (vendor, model) {
        (Some(v), Some(m)) => {
            let mut s = v.clone();
            vstd::string::StringExecFns::append(&mut s, " ");
            vstd::string::StringExecFns::append(&mut s, m.as_str());
            proof {
                reveal_strlit(" ");
                assert(v@ + " "@ =~= v@.push(' '));
            }
            Some(s)
        },
        (Some(v), None) => Some(v.clone()),
        (None, Some(m)) => Some(m.clone()),
        (None, None) => None,
    }
}

/// The title of a battery page.
#[derive(Clone, PartialEq, Eq, Debug)]
pub enum BatteryTitle {
    /// The (localized) name of the battery's kind, followed by a space and
    /// the battery's number when there are several.
    Named(String),
    /// "Battery" followed by the battery's number (kind unknown).
    Numbered(usize),
    /// "Battery" (kind unknown, a single battery).
    Generic,
}

/// The title of a battery page from the (localized) name of the battery's
/// kind, when known, and the battery's number, when there are several.
pub fn battery_title(kind_name: Option<&str>, index: Option<usize>) -> (r: BatteryTitle)
    ensures
        match kind_name {
            Some(k) => r matches BatteryTitle::Named(s) && s@ == match index {
                Some(i) => k@.push(' ') + decimal(i as nat),
                None => k@,
            },
            None => r == match index {
                Some(i) => BatteryTitle::Numbered(i),
                None => BatteryTitle::Generic,
            },
        },
{
    match kind_name {
        None => match index {
            Some(i) => BatteryTitle::Numbered(i),
            None => BatteryTitle::Generic,
        },
        Some(k) => {
            let mut s = String::new();
            vstd::string::StringExecFns::append(&mut s, k);
            match index {
                Some(i) => {
                    vstd::string::StringExecFns::append(&mut s, " ");
                    let n = decimal_string(i as u64);
                    vstd::string::StringExecFns::append(&mut s, n.as_str());
                    proof {
                        reveal_strlit(" ");
                        assert(Seq::<char>::empty() + k@ + " "@ + n@ =~= k@.push(' ') + decimal(
                            i as nat,
                        ));
                    }
                },
                None => {
                    assert(Seq::<char>::empty() + k@ =~= k@);
                },
            }
            BatteryTitle::Named(s)
        },
    }
}

/// The text shown for whether charge thresholds are on, as a message id to
/// localize, when the battery supports them (`supported != 0`): "Firmware"
/// when they are on and bit 2 says the firmware controls them, else "Yes".
pub fn charge_threshold_label(supported: u32, enabled: bool) -> (r: Option<&'static str>)
    ensures
        supported == 0 ==> r is None,
        supported != 0 ==> (r matches Some(s) && s@ == if enabled && (supported & 4) != 0 {
            "Firmware"@
        } else {
            "Yes"@
        }),
{
    if supported == 0 {
        return None;
    }
    if enabled {
        if (supported & 4) != 0 {
            Some("Firmware")
        } else {
            Some("Yes")
        }
    } else {
        Some("Yes")
    }
}

/// A charge threshold, in percent, to show: only when it is known and the
/// thresholds are on.
pub fn charge_threshold_shown(threshold: Option<u32>, enabled: bool) -> (r: Option<u32>)
    ensures
        r == if enabled {
            threshold
        } else {
            None::<u32>
        },
{
    match threshold {
        Some(v) => if enabled {
            Some(v)
        } else {
            None
        },
        None => None,
    }
}

/// Which way the remaining time of a battery counts.
#[derive(Clone, Copy, PartialEq, Eq, Structural, Debug)]
pub enum TimeTo {
    Full,
    Empty,
}

/// The remaining time shown, in seconds, and what it counts towards: the
/// time until full when known, else the time until empty; `None` hides it.
pub fn battery_time_to(time_to_full: Option<u64>, time_to_empty: Option<u64>) -> (r: Option<(u64, TimeTo)>)
    ensures
        r == match time_to_full {
            Some(t) => Some((t, TimeTo::Full)),
            None => match time_to_empty {
                Some(t) => Some((t, TimeTo::Empty)),
                None => None,
            },
        },
{
    if let Some(v) = time_to_full {
        Some((v, TimeTo::Full))
    } else if let Some(v) = time_to_empty {
        Some((v, TimeTo::Empty))
    } else {
        None
    }
}

/// Whether the battery is discharging (state 2): its power is then shown,
/// and plotted, as negative.
pub fn battery_discharging(state: Option<i32>) -> (r: bool)
    ensures
        r == (state == Some(2i32)),
{
    match state {
        Some(s) => s == 2,
        None => false,
    }
}

/// Whether the energy-rate graph plots power (the device powers the system
/// and reports a state) rather than the charge percentage.
pub fn plots_energy_rate(power_supply: Option<bool>, state: Option<i32>) -> (r: bool)
    ensures
        r == (power_supply == Some(true) && state is Some),
{
    let powers = match power_supply {
        Some(p) => p,
        None => false,
    };
    powers && state.is_some()
}

/// Whether the charge history is drawn: the device powers the system and at
/// least two history points are known.
pub fn shows_history(power_supply: Option<bool>, history_len: usize) -> (r: bool)
    ensures
        r == (power_supply == Some(true) && history_len >= 2),
{
    let powers = match power_supply {
        Some(p) => p,
        None => false,
    };
    powers && history_len >= 2
}

// ---------------------------------------------------------------------------
// Network
// ---------------------------------------------------------------------------

/// The icon for a Wi-Fi signal strength in percent.
pub open spec fn signal_icon_spec(percent: Option<u32>) -> Seq<char> {
    match percent {
        Some(p) => if p <= 25 {
            "nm-signal-25-symbolic"@
        } else if p <= 50 {
            "nm-signal-50-symbolic"@
        } else if p <= 75 {
            "nm-signal-75-symbolic"@
        } else {
            "nm-signal-100-symbolic"@
        },
        None => "nm-signal-00-symbolic"@,
    }
}

/// The icon for a Wi-Fi signal strength: one of four steps of a quarter
/// each, or none when unknown.
pub fn signal_strength_icon(percent: Option<u32>) -> (r: &'static str)
    ensures
        r@ == signal_icon_spec(percent),
{
    match percent {
        Some(p) => if p <= 25 {
            "nm-signal-25-symbolic"
        } else if p <= 50 {
            "nm-signal-50-symbolic"
        } else if p <= 75 {
            "nm-signal-75-symbolic"
        } else {
            "nm-signal-100-symbolic"
        },
        None => "nm-signal-00-symbolic",
    }
}

/// The signal strength kept for the summary, capped at 100 percent.
pub fn signal_strength_percent(percent: Option<u32>) -> (r: Option<u8>)
    ensures
        r == match percent {
            Some(p) => Some((if p <= 100 { p } else { 100 }) as u8),
            None => None::<u8>,
        },
{
    match percent {
        Some(p) => Some(if p <= 100 {
            p as u8
        } else {
            100u8
        }),
        None => None,
    }
}

/// Whether the maximum bit rate of a connection is shown: for Wi-Fi, or when
/// a maximum speed is known.
pub fn max_bitrate_visible(wireless: bool, max_speed_known: bool) -> (r: bool)
    ensures
        r == (wireless || max_speed_known),
{
    wireless || max_speed_known
}

/// The parameters of the GNOME Settings call that opens the Wi-Fi or the
/// network panel.
pub fn network_settings_panel(wireless: bool) -> (r: &'static str)
    ensures
        wireless ==> r@ == "('launch-panel', [<('wifi', [<''>])>], {})"@,
        !wireless ==> r@ == "('launch-panel', [<('network', [<''>])>], {})"@,
{
    if wireless {
        "('launch-panel', [<('wifi', [<''>])>], {})"
    } else {
        "('launch-panel', [<('network', [<''>])>], {})"
    }
}

/// How a network graph's vertical range is set.
#[derive(Clone, Copy, Debug, PartialEq, Eq, Structural)]
pub enum NetworkScaling {
    /// Grow the range to the next power of two above the highest sample.
    AutoPow2,
    /// Keep the range at the connection's maximum speed, in bytes per second.
    Fixed(u64),
}

/// The range set when a connection's static information arrives: its
/// maximum speed when known, else automatic.
pub fn static_network_scaling(max_speed: Option<u64>) -> (r: NetworkScaling)
    ensures
        r == match max_speed {
            Some(m) => NetworkScaling::Fixed(m),
            None => NetworkScaling::AutoPow2,
        },
{
    match max_speed {
        Some(m) => NetworkScaling::Fixed(m),
        None => NetworkScaling::AutoPow2,
    }
}

/// The range set when the dynamic-scaling preference is read or changes:
/// only for a connection whose maximum speed is known (`None` leaves the
/// graph as it is), automatic when dynamic scaling is on, else that speed.
pub fn network_scaling_for_preference(max_speed: Option<u64>, dynamic_scaling: bool) -> (r:
    Option<NetworkScaling>)
    ensures
        r == match max_speed {
            Some(m) => Some(
                if dynamic_scaling {
                    NetworkScaling::AutoPow2
                } else {
                    NetworkScaling::Fixed(m)
                },
            ),
            None => None::<NetworkScaling>,
        },
{
    match max_speed {
        Some(m) => Some(
            if dynamic_scaling {
                NetworkScaling::AutoPow2
            } else {
                NetworkScaling::Fixed(m)
            },
        ),
        None => None,
    }
}

// ---------------------------------------------------------------------------
// Disk partitions
// ---------------------------------------------------------------------------

/// What the system monitor reports of a disk partition.
pub struct PartitionInfo {
    pub devname: String,
    pub mountpoint: Option<String>,
    pub filesystem: Option<String>,
    pub size: Option<u64>,
    pub used: Option<u64>,
}

/// The path of a partition's device node.
pub fn partition_device_path(devname: &str) -> (r: String)
    ensures
        r@ == "/dev/"@ + devname@,
{
    let mut s = String::from_str("/dev/");
    s.append(devname);
    s
}

/// What a partition row shows: the mount point (hidden when unmounted), the
/// file system (empty when unknown), the used and the total amounts (each
/// hidden when unknown), and, when both are known, the pair from which the
/// usage bar is filled.
pub struct PartitionRow {
    pub mountpoint: Option<String>,
    pub filesystem: String,
    pub used: Option<u64>,
    pub total: Option<u64>,
    pub usage: Option<(u64, u64)>,
}

/// The row shown for a partition.
pub fn partition_row(info: &PartitionInfo) -> (r: PartitionRow)
    ensures
        match info.mountpoint {
            Some(m) => r.mountpoint matches Some(s) && s@ == m@,
            None => r.mountpoint is None,
        },
        match info.filesystem {
            Some(f) => r.filesystem@ == f@,
            None => r.filesystem@ == Seq::<char>::empty(),
        },
        r.used == info.used,
        r.total == info.size,
        r.usage == match (info.used, info.size) {
            (Some(u), Some(t)) => Some((u, t)),
            _ => None::<(u64, u64)>,
        },
{
    let mountpoint = match &info.mountpoint {
        Some(m) => Some(m.clone()),
        None => None,
    };
    let filesystem = match &info.filesystem {
        Some(f) => f.clone(),
        None => String::new(),
    };
    let usage = match (info.used, info.size) {
        (Some(u), Some(t)) => Some((u, t)),
        _ => None,
    };
    PartitionRow { mountpoint, filesystem, used: info.used, total: info.size, usage }
}

// ---------------------------------------------------------------------------
// Fans
// ---------------------------------------------------------------------------

/// The title of a fan page.
#[derive(Clone, PartialEq, Eq, Debug)]
pub enum FanTitle {
    /// The fan's own label.
    Label(String),
    /// "Fan" followed by the fan's number.
    Numbered(usize),
    /// "Fan".
    Generic,
}

/// The title of a fan page: its label when it has one, else "Fan" with its
/// number when there are several, else "Fan".
pub fn fan_title(label: &Option<String>, index: Option<usize>) -> (r: FanTitle)
    ensures
        match label {
            Some(l) => r matches FanTitle::Label(s) && s@ == l@,
            None => r == match index {
                Some(i) => FanTitle::Numbered(i),
                None => FanTitle::Generic,
            },
        },
{
    if let Some(l) = label {
        FanTitle::Label(l.clone())
    } else if let Some(i) = index {
        FanTitle::Numbered(i)
    } else {
        FanTitle::Generic
    }
}

/// What is added to a temperature in millikelvin to get millidegrees
/// Celsius.
pub const MK_TO_0_C: i32 = -273150;

/// A fan's temperature in millidegrees Celsius, from millikelvin: the
/// reading taken as an `i32` (readings above `i32::MAX` wrap to negative
/// values) plus `MK_TO_0_C`, wrapping around on overflow.
pub fn fan_temperature_milli_celsius(temp_mk: u32) -> (r: i32)
    ensures
        ({
            let v: int = if temp_mk <= i32::MAX {
                temp_mk as int
            } else {
                temp_mk - 0x1_0000_0000
            };
            let t = v + MK_TO_0_C;
            r == if t < i32::MIN {
                t + 0x1_0000_0000
            } else {
                t
            }
        }),
{
    let v: i64 = if temp_mk <= 0x7fff_ffff {
        temp_mk as i64
    } else {
        temp_mk as i64 - 0x1_0000_0000i64
    };
    let t: i64 = v + MK_TO_0_C as i64;
    let w: i64 = if t < -0x8000_0000i64 {
        t + 0x1_0000_0000i64
    } else {
        t
    };
    w as i32
}

} // verus!
