use missioncenter::preferences::{
    clamp_data_points, configure_data_points, configure_update_speed, setting_from_toggle,
    setting_key, toggle_index, PreferenceError, UnitToggle, MAX_INTERVAL_TICKS, MAX_POINTS,
    MIN_INTERVAL_TICKS, MIN_POINTS,
};

const ALL: [UnitToggle; 7] = [
    UnitToggle::MemoryUnit,
    UnitToggle::MemoryBase,
    UnitToggle::DriveUnit,
    UnitToggle::DriveBase,
    UnitToggle::NetworkUnit,
    UnitToggle::NetworkBase,
    UnitToggle::TemperatureUnit,
];

#[test]
fn update_interval_bounds() {
    assert_eq!(configure_update_speed(MIN_INTERVAL_TICKS), Ok(10));
    assert_eq!(configure_update_speed(MAX_INTERVAL_TICKS), Ok(200));
    assert_eq!(configure_update_speed(20), Ok(20));
    assert_eq!(configure_update_speed(9), Err(PreferenceError::OutOfBounds));
    assert_eq!(configure_update_speed(201), Err(PreferenceError::OutOfBounds));
}

#[test]
fn data_points_bounds() {
    assert_eq!(configure_data_points(MIN_POINTS), Ok(10));
    assert_eq!(configure_data_points(MAX_POINTS), Ok(600));
    assert_eq!(configure_data_points(601), Err(PreferenceError::OutOfBounds));
    assert_eq!(configure_data_points(-5), Err(PreferenceError::OutOfBounds));
    assert_eq!(clamp_data_points(-5), 10);
    assert_eq!(clamp_data_points(300), 300);
    assert_eq!(clamp_data_points(601), 600);
    for p in [-100, 0, 9, 10, 11, 599, 600, 601, i32::MAX, i32::MIN] {
        assert_eq!(configure_data_points(clamp_data_points(p)), Ok(clamp_data_points(p)));
        assert_eq!(clamp_data_points(clamp_data_points(p)), clamp_data_points(p));
    }
}

#[test]
fn toggle_keys() {
    assert_eq!(setting_key(UnitToggle::MemoryUnit), "performance-page-memory2-use-bytes");
    assert_eq!(setting_key(UnitToggle::MemoryBase), "performance-page-memory2-use-base2");
    assert_eq!(setting_key(UnitToggle::DriveUnit), "performance-page-drive-use-bytes");
    assert_eq!(setting_key(UnitToggle::DriveBase), "performance-page-drive-use-base2");
    assert_eq!(setting_key(UnitToggle::NetworkUnit), "performance-page-network-use-bytes");
    assert_eq!(setting_key(UnitToggle::NetworkBase), "performance-page-network-use-base2");
    assert_eq!(setting_key(UnitToggle::TemperatureUnit), "performance-page-temperature-fahrenheit");
}

#[test]
fn toggle_positions() {
    // Bytes first, bits second: a stored `true` shows the first toggle.
    assert_eq!(toggle_index(UnitToggle::MemoryUnit, true), 0);
    assert_eq!(toggle_index(UnitToggle::MemoryUnit, false), 1);
    // Base 10 first, base 2 second.
    assert_eq!(toggle_index(UnitToggle::NetworkBase, true), 1);
    assert_eq!(toggle_index(UnitToggle::NetworkBase, false), 0);
    assert!(setting_from_toggle(UnitToggle::TemperatureUnit, 0));
    assert!(!setting_from_toggle(UnitToggle::TemperatureUnit, 1));
    assert!(setting_from_toggle(UnitToggle::DriveBase, 1));
}

#[test]
fn toggles_round_trip() {
    for t in ALL {
        for v in [true, false] {
            assert_eq!(setting_from_toggle(t, toggle_index(t, v)), v);
        }
        for a in [0, 1] {
            assert_eq!(toggle_index(t, setting_from_toggle(t, a)), a);
        }
    }
}
