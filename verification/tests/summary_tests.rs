use missioncenter::summary::{
    battery_summary, fan_summary, network_summary, BatterySummary, FanSummary, NetworkSummary,
    WirelessSummary,
};

fn s(v: &str) -> Option<String> {
    Some(v.to_string())
}

fn battery() -> BatterySummary {
    BatterySummary {
        model: "ACME X1".to_string(),
        serial: s("SN42"),
        kind: s("Battery"),
        energy_full: s("50 Wh"),
        technology: s(""),
        capacity: None,
        energy_full_design: s("57 Wh"),
        energy_empty: s("0 Wh"),
        voltage_max_design: s("12.6 V"),
        voltage_min_design: s("11.1 V"),
        power_supply: s("Yes"),
        percentage: s("80%"),
        state: s("Charging"),
        time_to: Some((s("Full"), s("1 hour"))),
        charge_cycles: s("311"),
        power: s("15 W"),
        voltage: s("12.2 V"),
        charge_threshold_enabled: s("Yes"),
        charge_start_threshold: None,
        charge_end_threshold: s("80%"),
    }
}

#[test]
fn battery_summary_layout() {
    let u = "Unsupported";
    let text = battery_summary(&battery(), u);
    let expected = format!(
        r#"Battery

    {} {}

    Type:                   {}
    Energy Full:            {}
    Technology:             {}
    capacity:               {}
    Energy Full (design):   {}
    Energy Empty            {}
    Voltage Max (design):   {}
    Voltage Min (design):   {}
    Powering System:        {}

    Percentage:             {}
    State:                  {}{}
    Charge Cycles:          {}
    Power Output:           {}
    Voltage:                {}

    Charge Threshold:       {}
    Charge Start Threshold: {}
    Charge End Threshold:   {}"#,
        "ACME X1", "SN42", "Battery", "50 Wh", u, u, "57 Wh", "0 Wh", "12.6 V", "11.1 V", "Yes",
        "80%", "Charging",
        format!("\n    Time to {:<5}:          {}", "Full", "1 hour"),
        "311", "15 W", "12.2 V", "Yes", u, "80%"
    );
    assert_eq!(text, expected);
}

#[test]
fn battery_summary_without_time_and_long_direction() {
    let mut b = battery();
    b.time_to = None;
    let text = battery_summary(&b, "n/a");
    assert!(text.contains("    State:                  Charging\n    Charge Cycles:"));
    b.time_to = Some((s("Discharged"), None));
    let text = battery_summary(&b, "n/a");
    assert!(text.contains("Charging\n    Time to Discharged:          n/a\n"));
    b.time_to = Some((None, s("5 min")));
    let text = battery_summary(&b, "n/a");
    assert!(text.contains("Charging\n    Time to n/a  :          5 min\n"));
}

#[test]
fn fan_summary_layout() {
    let f = FanSummary {
        fan_name: "CPU fan".to_string(),
        temp_name: "Package".to_string(),
        speed: s("1200 RPM"),
        pwm: None,
        temperature: s("45.0 °C"),
    };
    assert_eq!(
        fan_summary(&f, "Unsupported"),
        "Fan\n\n    CPU fan\n    Package\n\n    Speed:               1200 RPM\n    PWM Percentage:      Unsupported\n    Current Temperature: 45.0 °C"
    );
}

#[test]
fn network_summary_layout() {
    let mut n = NetworkSummary {
        connection_type_title: "Ethernet".to_string(),
        device_name: "Intel I219".to_string(),
        interface_name: s("enp0s31f6"),
        connection_type: s("Ethernet"),
        wireless: None,
        hw_address: s("aa:bb:cc:dd:ee:ff"),
        ipv4_address: s("192.168.1.2"),
        ipv6_address: None,
        speed_send: s("1 KiB/s"),
        speed_recv: s("2 KiB/s"),
    };
    assert_eq!(
        network_summary(&n, "Unknown"),
        "Ethernet\n\n    Intel I219\n\n    Interface name:   enp0s31f6\n    Connection type:  Ethernet\n    Hardware address: aa:bb:cc:dd:ee:ff\n    IPv4 address:     192.168.1.2\n    IPv6 address:     Unknown\n\n    Send:            1 KiB/s\n    Receive:         2 KiB/s"
    );
    n.wireless = Some(WirelessSummary {
        ssid: s("home"),
        signal_strength_percent: Some(73),
        max_bitrate: None,
        frequency: s("5.2 GHz"),
    });
    let text = network_summary(&n, "Unknown");
    assert!(text.contains(
        "Connection type:  Ethernet\n    SSID:             home\n    Signal strength:  73%\n    Max bitrate:      Unknown\n    Frequency:        5.2 GHz\n    Hardware address:"
    ));
    n.wireless = Some(WirelessSummary { ssid: None, signal_strength_percent: None, max_bitrate: None, frequency: None });
    assert!(network_summary(&n, "?").contains("    Signal strength:  ?\n"));
}
