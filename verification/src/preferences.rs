use vstd::prelude::*;

verus! {

/// The most samples a performance graph keeps.
pub const MAX_POINTS: i32 = 600;

/// The fewest samples a performance graph keeps.
pub const MIN_POINTS: i32 = 10;

/// The longest update interval, in ticks of 50 ms.
pub const MAX_INTERVAL_TICKS: u64 = 200;

/// The shortest update interval, in ticks of 50 ms.
pub const MIN_INTERVAL_TICKS: u64 = 10;

/// Why a preference was not stored.
#[derive(Clone, Copy, Debug, PartialEq, Eq, Structural)]
pub enum PreferenceError {
    OutOfBounds,
}

/// The update interval to store, in ticks: accepted only within
/// `MIN_INTERVAL_TICKS..=MAX_INTERVAL_TICKS`.
pub fn configure_update_speed(ticks: u64) -> (r: Result<u64, PreferenceError>)
    ensures
        MIN_INTERVAL_TICKS <= ticks <= MAX_INTERVAL_TICKS ==> r == Ok::<u64, PreferenceError>(
            ticks,
        ),
        !(MIN_INTERVAL_TICKS <= ticks <= MAX_INTERVAL_TICKS) ==> r == Err::<u64, PreferenceError>(
            PreferenceError::OutOfBounds,
        ),
{
    if ticks <= MAX_INTERVAL_TICKS && ticks >= MIN_INTERVAL_TICKS {
        Ok(ticks)
    } else {
        Err(PreferenceError::OutOfBounds)
    }
}

/// The number of graph samples to store: accepted only within
/// `MIN_POINTS..=MAX_POINTS`.
pub fn configure_data_points(points: i32) -> (r: Result<i32, PreferenceError>)
    ensures
        MIN_POINTS <= points <= MAX_POINTS ==> r == Ok::<i32, PreferenceError>(points),
        !(MIN_POINTS <= points <= MAX_POINTS) ==> r == Err::<i32, PreferenceError>(
            PreferenceError::OutOfBounds,
        ),
{
    if points <= MAX_POINTS && points >= MIN_POINTS {
        Ok(points)
    } else {
        Err(PreferenceError::OutOfBounds)
    }
}

/// A number of graph samples brought within `MIN_POINTS..=MAX_POINTS`.
pub fn clamp_data_points(points: i32) -> (r: i32)
    ensures
        r == clamped_points(points),
{
    if points < MIN_POINTS {
        MIN_POINTS
    } else if points > MAX_POINTS {
        MAX_POINTS
    } else {
        points
    }
}

pub open spec fn clamped_points(points: i32) -> i32 {
    if points < MIN_POINTS {
        MIN_POINTS
    } else if points > MAX_POINTS {
        MAX_POINTS
    } else {
        points
    }
}

/// A clamped number of samples is always accepted, clamping an accepted
/// number leaves it as it is, and clamping twice is clamping once.
pub proof fn lemma_clamped_points_accepted(points: i32)
    ensures
        MIN_POINTS <= clamped_points(points) <= MAX_POINTS,
        MIN_POINTS <= points <= MAX_POINTS ==> clamped_points(points) == points,
        clamped_points(clamped_points(points)) == clamped_points(points),
{
}

/// The two-way choices of the preferences, each shown as a pair of toggles
/// and stored as a boolean setting.
#[derive(Clone, Copy, Debug, PartialEq, Eq, Structural)]
pub enum UnitToggle {
    MemoryUnit,
    MemoryBase,
    DriveUnit,
    DriveBase,
    NetworkUnit,
    NetworkBase,
    TemperatureUnit,
}

/// The settings key a toggle pair stores its choice under.
pub fn setting_key(toggle: UnitToggle) -> (r: &'static str)
    ensures
        r@ == setting_key_spec(toggle),
{
    match toggle {
        UnitToggle::MemoryUnit => "performance-page-memory2-use-bytes",
        UnitToggle::MemoryBase => "performance-page-memory2-use-base2",
        UnitToggle::DriveUnit => "performance-page-drive-use-bytes",
        UnitToggle::DriveBase => "performance-page-drive-use-base2",
        UnitToggle::NetworkUnit => "performance-page-network-use-bytes",
        UnitToggle::NetworkBase => "performance-page-network-use-base2",
        UnitToggle::TemperatureUnit => "performance-page-temperature-fahrenheit",
    }
}

pub open spec fn setting_key_spec(toggle: UnitToggle) -> Seq<char> {
    match toggle {
        UnitToggle::MemoryUnit => "performance-page-memory2-use-bytes"@,
        UnitToggle::MemoryBase => "performance-page-memory2-use-base2"@,
        UnitToggle::DriveUnit => "performance-page-drive-use-bytes"@,
        UnitToggle::DriveBase => "performance-page-drive-use-base2"@,
        UnitToggle::NetworkUnit => "performance-page-network-use-bytes"@,
        UnitToggle::NetworkBase => "performance-page-network-use-base2"@,
        UnitToggle::TemperatureUnit => "performance-page-temperature-fahrenheit"@,
    }
}

/// The position, in its pair, of the toggle that stands for `true`: bytes,
/// and Fahrenheit, come first; base 2 comes second.
pub open spec fn truthy_index(toggle: UnitToggle) -> u32 {
    match toggle {
        UnitToggle::MemoryBase | UnitToggle::DriveBase | UnitToggle::NetworkBase => 1,
        _ => 0,
    }
}

pub open spec fn toggle_index_spec(toggle: UnitToggle, value: bool) -> u32 {
    if value {
        truthy_index(toggle)
    } else {
        (1 - truthy_index(toggle)) as u32
    }
}

/// The toggle to activate for a stored setting.
pub fn toggle_index(toggle: UnitToggle, value: bool) -> (r: u32)
    ensures
        r == toggle_index_spec(toggle, value),
        r < 2,
{
    match toggle {
        UnitToggle::MemoryBase | UnitToggle::DriveBase | UnitToggle::NetworkBase => if value {
            1
        } else {
            0
        },
        _ => if value {
            0
        } else {
            1
        },
    }
}

/// The setting to store when the toggle at `active` is chosen: whether it is
/// the one that stands for `true`.
pub fn setting_from_toggle(toggle: UnitToggle, active: u32) -> (r: bool)
    ensures
        r == (active == truthy_index(toggle)),
{
    match toggle {
        UnitToggle::MemoryBase | UnitToggle::DriveBase | UnitToggle::NetworkBase => active == 1,
        _ => active == 0,
    }
}

/// Showing a stored setting and storing what is shown gives back the
/// setting; and showing what was stored from a chosen toggle shows that
/// toggle.
pub proof fn lemma_toggle_round_trip(toggle: UnitToggle, value: bool, active: u32)
    ensures
        (toggle_index_spec(toggle, value) == truthy_index(toggle)) == value,
        active < 2 ==> toggle_index_spec(toggle, active == truthy_index(toggle)) == active,
{
}

} // verus!
