//! Plain data the collectors produce and the views render.
use vstd::prelude::*;

verus! {

/// Unit the user has chosen for every temperature in the UI.
#[derive(Debug, Clone, Copy, PartialEq, Eq, Structural)]
pub enum TemperatureUnit {
    Celsius,
    Fahrenheit,
}

/// Coarse thermal band a reading falls into, used to colour the UI.
#[derive(Debug, Clone, Copy, PartialEq, Eq, Structural)]
pub enum ThermalStatus {
    Cool,
    Optimal,
    Normal,
    Warm,
    Critical,
}

/// One fan tachometer.
#[derive(Debug, Clone, PartialEq, Eq)]
pub struct FanInfo {
    /// The hwmon driver reporting it.
    pub chip: String,
    pub name: String,
    pub rpm: u32,
    /// Whether it is spinning.
    pub is_active: bool,
}

} // verus!
