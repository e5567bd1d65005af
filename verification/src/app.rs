//! Applet state: the chart history, which tab is open, the settings, and how
//! each user action changes them.
//!
//! The applet itself (windows, timers, persisting the config) lives outside
//! the library; it feeds every message it receives through [`UiState::update`]
//! and carries out the [`Effects`] that come back.
use vstd::prelude::*;

use crate::config::{HardwareMonitorConfig, ThemePreference};
use crate::hardware::types::TemperatureUnit;

verus! {

/// Samples kept per chart. At the default two-second refresh this is roughly
/// the last four minutes.
pub const HISTORY_LEN: usize = 120;

/// Which detail view the popup is showing.
#[derive(Debug, Clone, Copy, PartialEq, Eq, Structural)]
pub enum ActiveTab {
    Overview,
    CpuDetail,
    GpuDetail,
    MemoryDetail,
    StorageDetail,
    Settings,
}

impl Default for ActiveTab {
    fn default() -> (t: Self)
        ensures
            t == ActiveTab::Overview,
    {
        ActiveTab::Overview
    }
}

/// The last `n` elements of `s`, or all of it when it is shorter.
pub open spec fn keep_last<T>(s: Seq<T>, n: nat) -> Seq<T> {
    if s.len() > n {
        s.skip(s.len() - n)
    } else {
        s
    }
}

/// A rolling window of recent samples backing one sparkline.
///
/// Oldest samples fall off the front once it is full, so the chart always
/// shows the most recent [`HISTORY_LEN`] readings.
pub struct History<T> {
    samples: Vec<T>,
}

impl<T> View for History<T> {
    type V = Seq<T>;

    closed spec fn view(&self) -> Seq<T> {
        self.samples@
    }
}

/// What one `push` does to the samples held.
pub open spec fn history_push<T>(samples: Seq<T>, value: T) -> Seq<T> {
    keep_last(samples.push(value), HISTORY_LEN as nat)
}

/// The samples held after pushing `values`, in order, onto `start`.
pub open spec fn history_after<T>(start: Seq<T>, values: Seq<T>) -> Seq<T>
    decreases values.len(),
{
    if values.len() == 0 {
        start
    } else {
        history_push(history_after(start, values.drop_last()), values.last())
    }
}

impl<T> History<T> {
    #[verifier::type_invariant]
    closed spec fn bounded(&self) -> bool {
        self.samples.len() <= HISTORY_LEN
    }

    /// An empty history.
    pub fn new() -> (h: Self)
        ensures
            h@ == Seq::<T>::empty(),
    {
        History { samples: Vec::new() }
    }

    /// Appends a sample, dropping the oldest once the window is full.
    pub fn push(&mut self, value: T)
        ensures
            final(self)@ == history_push(old(self)@, value),
            final(self)@.len() <= HISTORY_LEN,
    {
        proof {
            use_type_invariant(&*self);
        }
        let mut samples = Vec::new();
        std::mem::swap(&mut samples, &mut self.samples);
        let ghost before = samples@;
        if samples.len() >= HISTORY_LEN {
            // Shifting 120 values a few times a minute costs nothing, and
            // keeps the samples contiguous for the chart to borrow.
            samples.remove(0);
        }
        samples.push(value);
        proof {
            if before.len() >= HISTORY_LEN {
                assert(samples@ =~= keep_last(before.push(value), HISTORY_LEN as nat));
            } else {
                assert(samples@ =~= keep_last(before.push(value), HISTORY_LEN as nat));
            }
        }
        self.samples = samples;
    }

    /// The samples, oldest first.
    pub fn as_slice(&self) -> (s: &[T])
        ensures
            s@ == self@,
            s@.len() <= HISTORY_LEN,
    {
        proof {
            use_type_invariant(self);
        }
        self.samples.as_slice()
    }

    /// How many samples are held.
    pub fn len(&self) -> (n: usize)
        ensures
            n == self@.len(),
            n <= HISTORY_LEN,
    {
        proof {
            use_type_invariant(self);
        }
        self.samples.len()
    }
}

impl<T> Default for History<T> {
    fn default() -> (h: Self)
        ensures
            h@ == Seq::<T>::empty(),
    {
        History::new()
    }
}

/// A history never holds more than [`HISTORY_LEN`] samples, and after any
/// sequence of pushes onto an empty one it holds exactly the most recent
/// [`HISTORY_LEN`] of them (all of them while there are fewer), oldest first.
pub proof fn history_keeps_the_latest_samples<T>(values: Seq<T>)
    ensures
        history_after(Seq::<T>::empty(), values) == keep_last(values, HISTORY_LEN as nat),
        history_after(Seq::<T>::empty(), values).len() <= HISTORY_LEN,
    decreases values.len(),
{
    if values.len() > 0 {
        let pre = values.drop_last();
        history_keeps_the_latest_samples(pre);
        let n = HISTORY_LEN as nat;
        assert(keep_last(pre, n).push(values.last()) =~= if pre.len() > n {
            values.skip(pre.len() - n)
        } else {
            values
        });
        assert(keep_last(keep_last(pre, n).push(values.last()), n) =~= keep_last(values, n));
    }
}

/// The UI state the applet keeps besides its readings and windows.
#[derive(Clone, Copy, Debug, PartialEq, Eq, Structural)]
pub struct UiState {
    pub active_tab: ActiveTab,
    /// Whether the overview shows its expanded detail sections.
    pub expanded_details: bool,
    /// Whether the CPU tab shows the per-core grid.
    pub expanded_cores: bool,
    pub unit: TemperatureUnit,
    pub config: HardwareMonitorConfig,
}

/// A user action or timer event the state responds to.
#[derive(Clone, Copy, Debug, PartialEq, Eq, Structural)]
pub enum Event {
    /// The refresh timer fired.
    Tick,
    SelectTab(ActiveTab),
    ToggleExpandedDetails,
    ToggleCpuCores,
    SetTheme(ThemePreference),
    SetUnit(TemperatureUnit),
    SetInterval(u64),
    /// The config changed, possibly in another instance of the applet.
    ConfigChanged(HardwareMonitorConfig),
}

/// The outside work an event calls for, to be carried out by the applet.
#[derive(Clone, Copy, Debug, PartialEq, Eq, Structural)]
pub struct Effects {
    /// Take a fresh reading and append it to the charts.
    pub refresh: bool,
    /// Persist the config.
    pub save_config: bool,
    /// Ask the shell to apply this theme preference.
    pub apply_theme: Option<ThemePreference>,
}

pub open spec fn no_effects() -> Effects {
    Effects { refresh: false, save_config: false, apply_theme: None }
}

/// The state after `event`, and the work it calls for.
pub open spec fn step(s: UiState, event: Event) -> (UiState, Effects) {
    match event {
        Event::Tick => (s, Effects { refresh: true, ..no_effects() }),
        Event::SelectTab(tab) => (UiState { active_tab: tab, ..s }, no_effects()),
        Event::ToggleExpandedDetails => (
            UiState { expanded_details: !s.expanded_details, ..s },
            no_effects(),
        ),
        Event::ToggleCpuCores => (UiState { expanded_cores: !s.expanded_cores, ..s }, no_effects()),
        Event::SetUnit(unit) => (
            UiState {
                unit,
                config: HardwareMonitorConfig {
                    fahrenheit: unit == TemperatureUnit::Fahrenheit,
                    ..s.config
                },
                ..s
            },
            Effects { save_config: true, ..no_effects() },
        ),
        Event::SetInterval(seconds) => (
            UiState {
                config: HardwareMonitorConfig { refresh_interval_secs: seconds, ..s.config },
                ..s
            },
            Effects { save_config: true, ..no_effects() },
        ),
        Event::SetTheme(pref) => (
            UiState { config: HardwareMonitorConfig { theme_pref: pref, ..s.config }, ..s },
            Effects { save_config: true, apply_theme: Some(pref), ..no_effects() },
        ),
        Event::ConfigChanged(config) => (
            UiState { unit: config.spec_unit(), config, ..s },
            Effects {
                apply_theme: if config.theme_pref != s.config.theme_pref {
                    Some(config.theme_pref)
                } else {
                    None
                },
                ..no_effects()
            },
        ),
    }
}

impl UiState {
    /// The state the applet starts in, for a config loaded from disk.
    pub fn new(config: HardwareMonitorConfig) -> (s: Self)
        ensures
            s.active_tab == ActiveTab::Overview,
            !s.expanded_details,
            !s.expanded_cores,
            s.config == config,
            s.unit == config.spec_unit(),
    {
        UiState {
            active_tab: ActiveTab::Overview,
            expanded_details: false,
            expanded_cores: false,
            unit: config.unit(),
            config,
        }
    }

    /// Applies one event, returning the outside work it calls for.
    pub fn update(&mut self, event: Event) -> (effects: Effects)
        ensures
            (*final(self), effects) == step(*old(self), event),
    {
        match event {
            Event::Tick => Effects { refresh: true, save_config: false, apply_theme: None },
            Event::SelectTab(tab) => {
                self.active_tab = tab;
                Effects { refresh: false, save_config: false, apply_theme: None }
            },
            Event::ToggleExpandedDetails => {
                self.expanded_details = !self.expanded_details;
                Effects { refresh: false, save_config: false, apply_theme: None }
            },
            Event::ToggleCpuCores => {
                self.expanded_cores = !self.expanded_cores;
                Effects { refresh: false, save_config: false, apply_theme: None }
            },
            Event::SetUnit(unit) => {
                self.unit = unit;
                self.config.fahrenheit = unit == TemperatureUnit::Fahrenheit;
                Effects { refresh: false, save_config: true, apply_theme: None }
            },
            Event::SetInterval(seconds) => {
                self.config.refresh_interval_secs = seconds;
                Effects { refresh: false, save_config: true, apply_theme: None }
            },
            Event::SetTheme(pref) => {
                self.config.theme_pref = pref;
                Effects { refresh: false, save_config: true, apply_theme: Some(pref) }
            },
            Event::ConfigChanged(config) => {
                let theme_changed = config.theme_pref != self.config.theme_pref;
                self.unit = config.unit();
                self.config = config;
                Effects {
                    refresh: false,
                    save_config: false,
                    apply_theme: if theme_changed {
                        Some(config.theme_pref)
                    } else {
                        None
                    },
                }
            },
        }
    }
}

/// The unit shown always agrees with the persisted config: every event keeps
/// that agreement once it holds, as it does from [`UiState::new`].
pub proof fn unit_follows_config(s: UiState, event: Event)
    requires
        s.unit == s.config.spec_unit(),
    ensures
        step(s, event).0.unit == step(s, event).0.config.spec_unit(),
{
}

/// Toggling a section twice leaves the state as it was, and neither toggle
/// calls for any outside work.
pub proof fn toggles_undo_themselves(s: UiState)
    ensures
        step(step(s, Event::ToggleExpandedDetails).0, Event::ToggleExpandedDetails).0 == s,
        step(step(s, Event::ToggleCpuCores).0, Event::ToggleCpuCores).0 == s,
        step(s, Event::ToggleExpandedDetails).1 == no_effects(),
        step(s, Event::ToggleCpuCores).1 == no_effects(),
{
}

/// A change the user makes to the config is persisted; a change that arrives
/// from the config store is not written back, and no event touches the config
/// otherwise.
pub proof fn config_changes_are_saved(s: UiState, event: Event)
    ensures
        step(s, event).0.config != s.config && !(event is ConfigChanged) ==> step(s, event).1.save_config,
        event is ConfigChanged ==> !step(s, event).1.save_config,
        (event is Tick || event is SelectTab || event is ToggleExpandedDetails || event is ToggleCpuCores)
            ==> step(s, event).0.config == s.config,
{
}

/// The theme is re-applied exactly when the preference is set by the user, or
/// when a config from elsewhere brings a different preference; applying the
/// same config twice re-applies nothing the second time.
pub proof fn theme_applies_only_on_change(s: UiState, config: HardwareMonitorConfig)
    ensures
        step(s, Event::ConfigChanged(config)).1.apply_theme is Some <==> config.theme_pref
            != s.config.theme_pref,
        step(step(s, Event::ConfigChanged(config)).0, Event::ConfigChanged(config)).1
            == no_effects(),
{
}

/// A setting the user picks is the one the state then holds, and it is
/// saved: the unit shown and the config's Fahrenheit flag follow the chosen
/// unit, the refresh interval and the theme preference take the chosen value
/// (the theme being applied too), and nothing else changes. Selecting a tab
/// opens that tab.
pub proof fn chosen_settings_take_effect(
    s: UiState,
    unit: TemperatureUnit,
    seconds: u64,
    pref: ThemePreference,
    tab: ActiveTab,
)
    ensures
        step(s, Event::SetUnit(unit)).0.unit == unit,
        step(s, Event::SetUnit(unit)).0.config.fahrenheit == (unit == TemperatureUnit::Fahrenheit),
        step(s, Event::SetUnit(unit)).0.config.refresh_interval_secs == s.config.refresh_interval_secs,
        step(s, Event::SetUnit(unit)).0.config.theme_pref == s.config.theme_pref,
        step(s, Event::SetUnit(unit)).0.active_tab == s.active_tab,
        step(s, Event::SetUnit(unit)).1.save_config,
        step(s, Event::SetInterval(seconds)).0.config.refresh_interval_secs == seconds,
        step(s, Event::SetInterval(seconds)).0.config.fahrenheit == s.config.fahrenheit,
        step(s, Event::SetInterval(seconds)).0.config.theme_pref == s.config.theme_pref,
        step(s, Event::SetInterval(seconds)).0.unit == s.unit,
        step(s, Event::SetInterval(seconds)).1.save_config,
        step(s, Event::SetTheme(pref)).0.config.theme_pref == pref,
        step(s, Event::SetTheme(pref)).0.config.fahrenheit == s.config.fahrenheit,
        step(s, Event::SetTheme(pref)).0.config.refresh_interval_secs == s.config.refresh_interval_secs,
        step(s, Event::SetTheme(pref)).0.unit == s.unit,
        step(s, Event::SetTheme(pref)).1.save_config,
        step(s, Event::SetTheme(pref)).1.apply_theme == Some(pref),
        step(s, Event::SelectTab(tab)).0.active_tab == tab,
        step(s, Event::SelectTab(tab)).0.config == s.config,
        step(s, Event::SelectTab(tab)).0.unit == s.unit,
{
}

} // verus!
