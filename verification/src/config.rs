//! Persisted settings.
use vstd::prelude::*;

use crate::hardware::types::TemperatureUnit;

verus! {

pub const APP_ID: &'static str = "io.github.kai_j_g.CosmicHardwareMonitor";

pub const CONFIG_VERSION: u64 = 1;

/// Whether the popup follows the desktop theme or is pinned to one appearance.
#[derive(Clone, Copy, Debug, Eq, PartialEq, Structural)]
pub enum ThemePreference {
    System,
    Dark,
    Light,
}

impl Default for ThemePreference {
    fn default() -> (p: Self)
        ensures
            p == ThemePreference::System,
    {
        ThemePreference::System
    }
}

impl ThemePreference {
    /// Whether the popup is drawn against a dark background: as pinned, or,
    /// when it follows the desktop, as the desktop currently is.
    pub fn is_dark(self, desktop_is_dark: bool) -> (dark: bool)
        ensures
            dark == match self {
                ThemePreference::Dark => true,
                ThemePreference::Light => false,
                ThemePreference::System => desktop_is_dark,
            },
    {
        match self {
            ThemePreference::Dark => true,
            ThemePreference::Light => false,
            ThemePreference::System => desktop_is_dark,
        }
    }
}

#[derive(Clone, Copy, Debug, Eq, PartialEq, Structural)]
pub struct HardwareMonitorConfig {
    pub fahrenheit: bool,
    pub refresh_interval_secs: u64,
    pub theme_pref: ThemePreference,
}

impl HardwareMonitorConfig {
    /// The unit a config selects.
    pub open spec fn spec_unit(self) -> TemperatureUnit {
        if self.fahrenheit {
            TemperatureUnit::Fahrenheit
        } else {
            TemperatureUnit::Celsius
        }
    }

    pub fn unit(&self) -> (u: TemperatureUnit)
        ensures
            u == self.spec_unit(),
    {
        if self.fahrenheit {
            TemperatureUnit::Fahrenheit
        } else {
            TemperatureUnit::Celsius
        }
    }
}

impl HardwareMonitorConfig {
    /// Seconds between two readings: the configured interval, but never
    /// less than one.
    pub fn tick_seconds(&self) -> (secs: u64)
        ensures
            secs == if self.refresh_interval_secs >= 1 {
                self.refresh_interval_secs
            } else {
                1
            },
    {
        if self.refresh_interval_secs >= 1 {
            self.refresh_interval_secs
        } else {
            1
        }
    }
}

impl Default for HardwareMonitorConfig {
    /// Celsius, a two-second refresh, and the desktop's own theme.
    fn default() -> (c: Self)
        ensures
            !c.fahrenheit,
            c.refresh_interval_secs == 2,
            c.theme_pref == ThemePreference::System,
    {
        HardwareMonitorConfig {
            fahrenheit: false,
            refresh_interval_secs: 2,
            theme_pref: ThemePreference::System,
        }
    }
}

} // verus!
