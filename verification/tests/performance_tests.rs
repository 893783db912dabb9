use missioncenter::performance::{
    batterykind_to_str, batterystate_to_str, batterytechnology_to_str, battery_discharging,
    battery_time_to, battery_title, battery_vendor_model, charge_threshold_label,
    charge_threshold_shown, fan_temperature_milli_celsius, fan_title, max_bitrate_visible,
    network_scaling_for_preference, network_settings_panel, partition_device_path, partition_row,
    plots_energy_rate, shows_history, signal_strength_icon, signal_strength_percent,
    static_network_scaling, BatteryTitle, FanTitle, NetworkScaling, PartitionInfo, TimeTo, MK_TO_0_C,
};

#[test]
fn battery_codes() {
    assert_eq!(batterystate_to_str(1), "Charging");
    assert_eq!(batterystate_to_str(2), "Discharging");
    assert_eq!(batterystate_to_str(3), "Empty");
    assert_eq!(batterystate_to_str(4), "Full");
    assert_eq!(batterystate_to_str(6), "Full");
    assert_eq!(batterystate_to_str(0), "");
    assert_eq!(batterykind_to_str(2), "Battery");
    assert_eq!(batterykind_to_str(9), "Media player");
    assert_eq!(batterykind_to_str(23), "Printer");
    assert_eq!(batterykind_to_str(24), "Scanner");
    assert_eq!(batterykind_to_str(25), "Camera");
    assert_eq!(batterykind_to_str(26), "Wearable");
    assert_eq!(batterykind_to_str(27), "Toy");
    assert_eq!(batterykind_to_str(28), "Generic bluetooth");
    assert_eq!(batterykind_to_str(29), "");
    assert_eq!(batterykind_to_str(34), "");
    assert_eq!(batterykind_to_str(0), "");
    assert_eq!(batterytechnology_to_str(1), "Lithium Ion");
    assert_eq!(batterytechnology_to_str(6), "Nickel Metal Hydride");
    assert_eq!(batterytechnology_to_str(7), "");
}

#[test]
fn battery_names() {
    let s = |v: &str| Some(v.to_string());
    assert_eq!(battery_vendor_model(&s("ACME"), &s("X1")), s("ACME X1"));
    assert_eq!(battery_vendor_model(&s("ACME"), &None), s("ACME"));
    assert_eq!(battery_vendor_model(&None, &s("X1")), s("X1"));
    assert_eq!(battery_vendor_model(&None, &None), None);
    assert_eq!(battery_title(Some("Battery"), Some(1)), BatteryTitle::Named("Battery 1".to_string()));
    assert_eq!(battery_title(Some("Battery"), None), BatteryTitle::Named("Battery".to_string()));
    assert_eq!(battery_title(None, Some(0)), BatteryTitle::Numbered(0));
    assert_eq!(battery_title(None, None), BatteryTitle::Generic);
}

#[test]
fn charge_thresholds() {
    assert_eq!(charge_threshold_label(0, true), None);
    assert_eq!(charge_threshold_label(1, false), Some("Yes"));
    assert_eq!(charge_threshold_label(1, true), Some("Yes"));
    assert_eq!(charge_threshold_label(4, true), Some("Firmware"));
    assert_eq!(charge_threshold_label(5, false), Some("Yes"));
    assert_eq!(charge_threshold_shown(Some(80), true), Some(80));
    assert_eq!(charge_threshold_shown(Some(80), false), None);
    assert_eq!(charge_threshold_shown(None, true), None);
}

#[test]
fn battery_readings() {
    assert_eq!(battery_time_to(Some(60), Some(90)), Some((60, TimeTo::Full)));
    assert_eq!(battery_time_to(None, Some(90)), Some((90, TimeTo::Empty)));
    assert_eq!(battery_time_to(None, None), None);
    assert!(battery_discharging(Some(2)));
    assert!(!battery_discharging(Some(1)));
    assert!(!battery_discharging(None));
    assert!(plots_energy_rate(Some(true), Some(1)));
    assert!(!plots_energy_rate(Some(true), None));
    assert!(!plots_energy_rate(None, Some(1)));
    assert!(shows_history(Some(true), 2));
    assert!(!shows_history(Some(true), 1));
    assert!(!shows_history(Some(false), 10));
}

#[test]
fn network_readings() {
    assert_eq!(signal_strength_icon(None), "nm-signal-00-symbolic");
    assert_eq!(signal_strength_icon(Some(0)), "nm-signal-25-symbolic");
    assert_eq!(signal_strength_icon(Some(25)), "nm-signal-25-symbolic");
    assert_eq!(signal_strength_icon(Some(26)), "nm-signal-50-symbolic");
    assert_eq!(signal_strength_icon(Some(75)), "nm-signal-75-symbolic");
    assert_eq!(signal_strength_icon(Some(76)), "nm-signal-100-symbolic");
    assert_eq!(signal_strength_percent(Some(64)), Some(64));
    assert_eq!(signal_strength_percent(Some(300)), Some(100));
    assert_eq!(signal_strength_percent(None), None);
    assert!(max_bitrate_visible(true, false));
    assert!(max_bitrate_visible(false, true));
    assert!(!max_bitrate_visible(false, false));
    assert_eq!(network_settings_panel(true), "('launch-panel', [<('wifi', [<''>])>], {})");
    assert_eq!(network_settings_panel(false), "('launch-panel', [<('network', [<''>])>], {})");
}

#[test]
fn network_scaling() {
    assert_eq!(static_network_scaling(Some(125_000_000)), NetworkScaling::Fixed(125_000_000));
    assert_eq!(static_network_scaling(None), NetworkScaling::AutoPow2);
    assert_eq!(network_scaling_for_preference(Some(10), true), Some(NetworkScaling::AutoPow2));
    assert_eq!(network_scaling_for_preference(Some(10), false), Some(NetworkScaling::Fixed(10)));
    assert_eq!(network_scaling_for_preference(None, false), None);
}

#[test]
fn partitions() {
    assert_eq!(partition_device_path("nvme0n1p2"), "/dev/nvme0n1p2");
    let info = PartitionInfo {
        devname: "sda1".to_string(),
        mountpoint: Some("/boot".to_string()),
        filesystem: None,
        size: Some(1000),
        used: Some(250),
    };
    let row = partition_row(&info);
    assert_eq!(row.mountpoint, Some("/boot".to_string()));
    assert_eq!(row.filesystem, "");
    assert_eq!(row.used, Some(250));
    assert_eq!(row.total, Some(1000));
    assert_eq!(row.usage, Some((250, 1000)));
    let unmounted = PartitionInfo {
        devname: "sda2".to_string(),
        mountpoint: None,
        filesystem: Some("ext4".to_string()),
        size: Some(5),
        used: None,
    };
    let row = partition_row(&unmounted);
    assert_eq!(row.mountpoint, None);
    assert_eq!(row.filesystem, "ext4");
    assert_eq!(row.usage, None);
}

#[test]
fn fans() {
    assert_eq!(fan_title(&Some("CPU fan".to_string()), Some(1)), FanTitle::Label("CPU fan".to_string()));
    assert_eq!(fan_title(&None, Some(3)), FanTitle::Numbered(3));
    assert_eq!(fan_title(&None, None), FanTitle::Generic);
    assert_eq!(fan_temperature_milli_celsius(300_000), 300_000 + MK_TO_0_C);
    assert_eq!(fan_temperature_milli_celsius(273_150), 0);
    assert_eq!(fan_temperature_milli_celsius(0), -273_150);
    // Readings above i32::MAX wrap as an `as i32` conversion does, and the
    // sum wraps on overflow.
    for t in [u32::MAX, 0x8000_0000, 0x8000_0000 + 100, 0x8004_2b1d, 0x7fff_ffff] {
        assert_eq!(fan_temperature_milli_celsius(t), (t as i32).wrapping_add(MK_TO_0_C));
    }
}
