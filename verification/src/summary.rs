use vstd::prelude::*;

use crate::text::{decimal, decimal_string};

verus! {

// The texts that the performance pages put on the clipboard. Each field is
// the text of a label of the page, `None` when the page has no such label
// (or, where noted, the label is hidden); the fallback text (localized by
// the caller) stands in for a missing field.

/// A field, or the fallback when it is missing.
pub open spec fn field_or(t: Option<String>, fallback: Seq<char>) -> Seq<char> {
    match t {
        Some(s) => s@,
        None => fallback,
    }
}

/// A field, or the fallback when it is missing or empty.
pub open spec fn field_or_unsupported(t: Option<String>, fallback: Seq<char>) -> Seq<char> {
    match t {
        Some(s) => if s@.len() == 0 {
            fallback
        } else {
            s@
        },
        None => fallback,
    }
}

fn append_or(out: &mut String, t: &Option<String>, fallback: &str)
    ensures
        final(out)@ == old(out)@ + field_or(*t, fallback@),
{
    match t {
        Some(s) => out.append(s.as_str()),
        None => out.append(fallback),
    }
}

fn append_or_unsupported(out: &mut String, t: &Option<String>, fallback: &str)
    ensures
        final(out)@ == old(out)@ + field_or_unsupported(*t, fallback@),
{
    match t {
        Some(s) => {
            if s.as_str().is_empty() {
                out.append(fallback);
            } else {
                out.append(s.as_str());
            }
        },
        None => out.append(fallback),
    }
}

/// `s` padded on the right with spaces to `width` characters.
pub open spec fn pad_right(s: Seq<char>, width: nat) -> Seq<char> {
    if s.len() >= width {
        s
    } else {
        s + Seq::new((width - s.len()) as nat, |i: int| ' ')
    }
}

fn append_padded(out: &mut String, s: &str, width: usize)
    ensures
        final(out)@ == old(out)@ + pad_right(s@, width as nat),
{
    let ghost o = out@;
    out.append(s);
    let n = s.unicode_len();
    let mut k: usize = n;
    assert(out@ =~= o + s@ + Seq::new((k - n) as nat, |i: int| ' '));
    while k < width
        invariant
            n == s@.len(),
            n <= k,
            n < width ==> k <= width,
            n >= width ==> k == n,
            out@ == o + s@ + Seq::new((k - n) as nat, |i: int| ' '),
        decreases width - k,
    {
        out.append(" ");
        proof {
            reveal_strlit(" ");
        }
        k = k + 1;
        assert(out@ =~= o + s@ + Seq::new((k - n) as nat, |i: int| ' '));
    }
    if n >= width {
        assert(out@ =~= o + s@);
    } else {
        assert(out@ =~= o + (s@ + Seq::new((width - n) as nat, |i: int| ' ')));
    }
}

// ---------------------------------------------------------------------------
// Battery
// ---------------------------------------------------------------------------

/// The labels of a battery page that its summary shows.
pub struct BatterySummary {
    pub model: String,
    pub serial: Option<String>,
    pub kind: Option<String>,
    pub energy_full: Option<String>,
    pub technology: Option<String>,
    pub capacity: Option<String>,
    pub energy_full_design: Option<String>,
    pub energy_empty: Option<String>,
    pub voltage_max_design: Option<String>,
    pub voltage_min_design: Option<String>,
    pub power_supply: Option<String>,
    pub percentage: Option<String>,
    pub state: Option<String>,
    /// The direction ("Full" or "Empty") and the time left, when the page
    /// shows them.
    pub time_to: Option<(Option<String>, Option<String>)>,
    pub charge_cycles: Option<String>,
    pub power: Option<String>,
    pub voltage: Option<String>,
    pub charge_threshold_enabled: Option<String>,
    pub charge_start_threshold: Option<String>,
    pub charge_end_threshold: Option<String>,
}

/// The line of the time left to full or empty, the direction padded to five
/// characters; nothing when the page does not show it.
pub open spec fn time_to_spec(t: Option<(Option<String>, Option<String>)>, unsupported: Seq<char>) -> Seq<char> {
    match t {
        Some((direction, time)) => "\n    Time to "@ + pad_right(
            field_or_unsupported(direction, unsupported),
            5,
        ) + ":          "@ + field_or_unsupported(time, unsupported),
        None => Seq::empty(),
    }
}

fn append_time_to(out: &mut String, t: &Option<(Option<String>, Option<String>)>, unsupported: &str)
    ensures
        final(out)@ == old(out)@ + time_to_spec(*t, unsupported@),
{
    match t {
        Some((direction, time)) => {
            let mut d = String::new();
            append_or_unsupported(&mut d, direction, unsupported);
            assert(d@ =~= field_or_unsupported(*direction, unsupported@));
            let ghost o = out@;
            out.append("\n    Time to ");
            append_padded(out, d.as_str(), 5);
            out.append(":          ");
            append_or_unsupported(out, time, unsupported);
            assert(out@ =~= o + time_to_spec(*t, unsupported@));
        },
        None => {
            assert(out@ =~= out@ + Seq::<char>::empty());
        },
    }
}

pub open spec fn battery_summary_spec(f: BatterySummary, unsupported: Seq<char>) -> Seq<char> {
    Seq::<char>::empty()
        + "Battery\n\n    "@
        + f.model@
        + " "@
        + field_or_unsupported(f.serial, unsupported)
        + "\n\n    Type:                   "@
        + field_or_unsupported(f.kind, unsupported)
        + "\n    Energy Full:            "@
        + field_or_unsupported(f.energy_full, unsupported)
        + "\n    Technology:             "@
        + field_or_unsupported(f.technology, unsupported)
        + "\n    capacity:               "@
        + field_or_unsupported(f.capacity, unsupported)
        + "\n    Energy Full (design):   "@
        + field_or_unsupported(f.energy_full_design, unsupported)
        + "\n    Energy Empty            "@
        + field_or_unsupported(f.energy_empty, unsupported)
        + "\n    Voltage Max (design):   "@
        + field_or_unsupported(f.voltage_max_design, unsupported)
        + "\n    Voltage Min (design):   "@
        + field_or_unsupported(f.voltage_min_design, unsupported)
        + "\n    Powering System:        "@
        + field_or_unsupported(f.power_supply, unsupported)
        + "\n\n    Percentage:             "@
        + field_or_unsupported(f.percentage, unsupported)
        + "\n    State:                  "@
        + field_or_unsupported(f.state, unsupported)
        + time_to_spec(f.time_to, unsupported)
        + "\n    Charge Cycles:          "@
        + field_or_unsupported(f.charge_cycles, unsupported)
        + "\n    Power Output:           "@
        + field_or_unsupported(f.power, unsupported)
        + "\n    Voltage:                "@
        + field_or_unsupported(f.voltage, unsupported)
        + "\n\n    Charge Threshold:       "@
        + field_or_unsupported(f.charge_threshold_enabled, unsupported)
        + "\n    Charge Start Threshold: "@
        + field_or_unsupported(f.charge_start_threshold, unsupported)
        + "\n    Charge End Threshold:   "@
        + field_or_unsupported(f.charge_end_threshold, unsupported)
}

/// The summary of a battery page.
pub fn battery_summary(f: &BatterySummary, unsupported: &str) -> (r: String)
    ensures
        r@ == battery_summary_spec(*f, unsupported@),
{
    let mut out = String::new();
    out.append("Battery\n\n    ");
    out.append(f.model.as_str());
    out.append(" ");
    append_or_unsupported(&mut out, &f.serial, unsupported);
    out.append("\n\n    Type:                   ");
    append_or_unsupported(&mut out, &f.kind, unsupported);
    out.append("\n    Energy Full:            ");
    append_or_unsupported(&mut out, &f.energy_full, unsupported);
    out.append("\n    Technology:             ");
    append_or_unsupported(&mut out, &f.technology, unsupported);
    out.append("\n    capacity:               ");
    append_or_unsupported(&mut out, &f.capacity, unsupported);
    out.append("\n    Energy Full (design):   ");
    append_or_unsupported(&mut out, &f.energy_full_design, unsupported);
    out.append("\n    Energy Empty            ");
    append_or_unsupported(&mut out, &f.energy_empty, unsupported);
    out.append("\n    Voltage Max (design):   ");
    append_or_unsupported(&mut out, &f.voltage_max_design, unsupported);
    out.append("\n    Voltage Min (design):   ");
    append_or_unsupported(&mut out, &f.voltage_min_design, unsupported);
    out.append("\n    Powering System:        ");
    append_or_unsupported(&mut out, &f.power_supply, unsupported);
    out.append("\n\n    Percentage:             ");
    append_or_unsupported(&mut out, &f.percentage, unsupported);
    out.append("\n    State:                  ");
    append_or_unsupported(&mut out, &f.state, unsupported);
    append_time_to(&mut out, &f.time_to, unsupported);
    out.append("\n    Charge Cycles:          ");
    append_or_unsupported(&mut out, &f.charge_cycles, unsupported);
    out.append("\n    Power Output:           ");
    append_or_unsupported(&mut out, &f.power, unsupported);
    out.append("\n    Voltage:                ");
    append_or_unsupported(&mut out, &f.voltage, unsupported);
    out.append("\n\n    Charge Threshold:       ");
    append_or_unsupported(&mut out, &f.charge_threshold_enabled, unsupported);
    out.append("\n    Charge Start Threshold: ");
    append_or_unsupported(&mut out, &f.charge_start_threshold, unsupported);
    out.append("\n    Charge End Threshold:   ");
    append_or_unsupported(&mut out, &f.charge_end_threshold, unsupported);
    out
}

// ---------------------------------------------------------------------------
// Fan
// ---------------------------------------------------------------------------

/// The labels of a fan page that its summary shows; the percentage and the
/// temperature are `None` too when their labels are hidden.
pub struct FanSummary {
    pub fan_name: String,
    pub temp_name: String,
    pub speed: Option<String>,
    pub pwm: Option<String>,
    pub temperature: Option<String>,
}

pub open spec fn fan_summary_spec(f: FanSummary, unsupported: Seq<char>) -> Seq<char> {
    Seq::<char>::empty()
        + "Fan\n\n    "@
        + f.fan_name@
        + "\n    "@
        + f.temp_name@
        + "\n\n    Speed:               "@
        + field_or(f.speed, unsupported)
        + "\n    PWM Percentage:      "@
        + field_or(f.pwm, unsupported)
        + "\n    Current Temperature: "@
        + field_or(f.temperature, unsupported)
}

/// The summary of a fan page.
pub fn fan_summary(f: &FanSummary, unsupported: &str) -> (r: String)
    ensures
        r@ == fan_summary_spec(*f, unsupported@),
{
    let mut out = String::new();
    out.append("Fan\n\n    ");
    out.append(f.fan_name.as_str());
    out.append("\n    ");
    out.append(f.temp_name.as_str());
    out.append("\n\n    Speed:               ");
    append_or(&mut out, &f.speed, unsupported);
    out.append("\n    PWM Percentage:      ");
    append_or(&mut out, &f.pwm, unsupported);
    out.append("\n    Current Temperature: ");
    append_or(&mut out, &f.temperature, unsupported);
    out
}

// ---------------------------------------------------------------------------
// Network
// ---------------------------------------------------------------------------

/// The wireless labels of a network page.
pub struct WirelessSummary {
    pub ssid: Option<String>,
    pub signal_strength_percent: Option<u8>,
    pub max_bitrate: Option<String>,
    pub frequency: Option<String>,
}

/// The labels of a network page that its summary shows; `wireless` only for
/// a wireless connection.
pub struct NetworkSummary {
    pub connection_type_title: String,
    pub device_name: String,
    pub interface_name: Option<String>,
    pub connection_type: Option<String>,
    pub wireless: Option<WirelessSummary>,
    pub hw_address: Option<String>,
    pub ipv4_address: Option<String>,
    pub ipv6_address: Option<String>,
    pub speed_send: Option<String>,
    pub speed_recv: Option<String>,
}

/// A percentage followed by "%", or the fallback.
pub open spec fn percent_or(p: Option<u8>, fallback: Seq<char>) -> Seq<char> {
    match p {
        Some(v) => decimal(v as nat) + "%"@,
        None => fallback,
    }
}

fn append_percent(out: &mut String, p: Option<u8>, fallback: &str)
    ensures
        final(out)@ == old(out)@ + percent_or(p, fallback@),
{
    match p {
        Some(v) => {
            let d = decimal_string(v as u64);
            let ghost o = out@;
            out.append(d.as_str());
            out.append("%");
            assert(out@ =~= o + percent_or(p, fallback@));
        },
        None => out.append(fallback),
    }
}

pub open spec fn wireless_lines(w: WirelessSummary, unknown: Seq<char>) -> Seq<char> {
    Seq::<char>::empty()
        + "\n    SSID:             "@
        + field_or(w.ssid, unknown)
        + "\n    Signal strength:  "@
        + percent_or(w.signal_strength_percent, unknown)
        + "\n    Max bitrate:      "@
        + field_or(w.max_bitrate, unknown)
        + "\n    Frequency:        "@
        + field_or(w.frequency, unknown)
}

pub open spec fn wireless_spec(w: Option<WirelessSummary>, unknown: Seq<char>) -> Seq<char> {
    match w {
        Some(w) => wireless_lines(w, unknown),
        None => Seq::empty(),
    }
}

fn append_wireless(out: &mut String, w: &Option<WirelessSummary>, unknown: &str)
    ensures
        final(out)@ == old(out)@ + wireless_spec(*w, unknown@),
{
    match w {
        Some(w) => {
            let mut out2 = String::new();
            
            out2.append("\n    SSID:             ");
            append_or(&mut out2, &w.ssid, unknown);
            out2.append("\n    Signal strength:  ");
            append_percent(&mut out2, w.signal_strength_percent, unknown);
            out2.append("\n    Max bitrate:      ");
            append_or(&mut out2, &w.max_bitrate, unknown);
            out2.append("\n    Frequency:        ");
            append_or(&mut out2, &w.frequency, unknown);
            let ghost o = out@;
            out.append(out2.as_str());
            assert(out@ =~= o + wireless_spec(Some(*w), unknown@));
        },
        None => {
            assert(out@ =~= out@ + Seq::<char>::empty());
        },
    }
}

pub open spec fn network_summary_spec(f: NetworkSummary, unknown: Seq<char>) -> Seq<char> {
    Seq::<char>::empty()
        + f.connection_type_title@
        + "\n\n    "@
        + f.device_name@
        + "\n\n    Interface name:   "@
        + field_or(f.interface_name, unknown)
        + "\n    Connection type:  "@
        + field_or(f.connection_type, unknown)
        + wireless_spec(f.wireless, unknown)
        + "\n    Hardware address: "@
        + field_or(f.hw_address, unknown)
        + "\n    IPv4 address:     "@
        + field_or(f.ipv4_address, unknown)
        + "\n    IPv6 address:     "@
        + field_or(f.ipv6_address, unknown)
        + "\n\n    Send:            "@
        + field_or(f.speed_send, unknown)
        + "\n    Receive:         "@
        + field_or(f.speed_recv, unknown)
}

/// The summary of a network page.
pub fn network_summary(f: &NetworkSummary, unknown: &str) -> (r: String)
    ensures
        r@ == network_summary_spec(*f, unknown@),
{
    let mut out = String::new();
    out.append(f.connection_type_title.as_str());
    out.append("\n\n    ");
    out.append(f.device_name.as_str());
    out.append("\n\n    Interface name:   ");
    append_or(&mut out, &f.interface_name, unknown);
    out.append("\n    Connection type:  ");
    append_or(&mut out, &f.connection_type, unknown);
    append_wireless(&mut out, &f.wireless, unknown);
    out.append("\n    Hardware address: ");
    append_or(&mut out, &f.hw_address, unknown);
    out.append("\n    IPv4 address:     ");
    append_or(&mut out, &f.ipv4_address, unknown);
    out.append("\n    IPv6 address:     ");
    append_or(&mut out, &f.ipv6_address, unknown);
    out.append("\n\n    Send:            ");
    append_or(&mut out, &f.speed_send, unknown);
    out.append("\n    Receive:         ");
    append_or(&mut out, &f.speed_recv, unknown);
    out
}

} // verus!
