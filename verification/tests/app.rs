use hardware_monitor::app::{ActiveTab, Effects, Event, History, UiState, HISTORY_LEN};
use hardware_monitor::config::{HardwareMonitorConfig, ThemePreference, APP_ID, CONFIG_VERSION};
use hardware_monitor::hardware::types::TemperatureUnit;
use hardware_monitor::hardware::HardwareCollector;

const NOTHING: Effects = Effects { refresh: false, save_config: false, apply_theme: None };

#[test]
fn history_keeps_the_last_window_of_samples() {
    let mut h: History<u32> = History::new();
    assert_eq!(h.len(), 0);
    for v in 0..200u32 {
        h.push(v);
    }
    assert_eq!(h.len(), HISTORY_LEN);
    let kept: Vec<u32> = (80..200).collect();
    assert_eq!(h.as_slice(), kept.as_slice());
    let mut small: History<u32> = History::default();
    small.push(7);
    small.push(8);
    assert_eq!(small.as_slice(), &[7, 8]);
}

#[test]
fn defaults() {
    let config = HardwareMonitorConfig::default();
    assert_eq!(
        config,
        HardwareMonitorConfig { fahrenheit: false, refresh_interval_secs: 2, theme_pref: ThemePreference::System }
    );
    assert_eq!(config.unit(), TemperatureUnit::Celsius);
    assert_eq!(ThemePreference::default(), ThemePreference::System);
    assert_eq!(ActiveTab::default(), ActiveTab::Overview);
    assert_eq!(APP_ID, "io.github.kai_j_g.CosmicHardwareMonitor");
    assert_eq!(CONFIG_VERSION, 1);
    let f = HardwareMonitorConfig { fahrenheit: true, ..config };
    assert_eq!(f.unit(), TemperatureUnit::Fahrenheit);
}

#[test]
fn refresh_interval_is_at_least_a_second() {
    let config = HardwareMonitorConfig::default();
    assert_eq!(config.tick_seconds(), 2);
    assert_eq!(HardwareMonitorConfig { refresh_interval_secs: 0, ..config }.tick_seconds(), 1);
    assert_eq!(HardwareMonitorConfig { refresh_interval_secs: 5, ..config }.tick_seconds(), 5);
}

#[test]
fn darkness_follows_the_pinned_theme_or_the_desktop() {
    assert!(ThemePreference::Dark.is_dark(false));
    assert!(!ThemePreference::Light.is_dark(true));
    assert!(ThemePreference::System.is_dark(true));
    assert!(!ThemePreference::System.is_dark(false));
}

#[test]
fn events_change_the_state_and_ask_for_work() {
    let mut ui = UiState::new(HardwareMonitorConfig { fahrenheit: true, ..HardwareMonitorConfig::default() });
    assert_eq!(ui.unit, TemperatureUnit::Fahrenheit);
    assert_eq!(ui.active_tab, ActiveTab::Overview);
    assert!(!ui.expanded_details && !ui.expanded_cores);

    assert_eq!(ui.update(Event::Tick), Effects { refresh: true, ..NOTHING });
    assert_eq!(ui.update(Event::SelectTab(ActiveTab::GpuDetail)), NOTHING);
    assert_eq!(ui.active_tab, ActiveTab::GpuDetail);

    assert_eq!(ui.update(Event::ToggleExpandedDetails), NOTHING);
    assert!(ui.expanded_details);
    assert_eq!(ui.update(Event::ToggleExpandedDetails), NOTHING);
    assert!(!ui.expanded_details);
    assert_eq!(ui.update(Event::ToggleCpuCores), NOTHING);
    assert!(ui.expanded_cores);

    assert_eq!(ui.update(Event::SetUnit(TemperatureUnit::Celsius)), Effects { save_config: true, ..NOTHING });
    assert_eq!(ui.unit, TemperatureUnit::Celsius);
    assert!(!ui.config.fahrenheit);

    assert_eq!(ui.update(Event::SetInterval(5)), Effects { save_config: true, ..NOTHING });
    assert_eq!(ui.config.refresh_interval_secs, 5);

    assert_eq!(
        ui.update(Event::SetTheme(ThemePreference::Dark)),
        Effects { save_config: true, apply_theme: Some(ThemePreference::Dark), ..NOTHING }
    );
    assert_eq!(ui.config.theme_pref, ThemePreference::Dark);
}

#[test]
fn config_from_elsewhere_reapplies_only_a_new_theme() {
    let mut ui = UiState::new(HardwareMonitorConfig::default());
    let incoming = HardwareMonitorConfig { fahrenheit: true, refresh_interval_secs: 3, theme_pref: ThemePreference::Light };
    assert_eq!(
        ui.update(Event::ConfigChanged(incoming)),
        Effects { apply_theme: Some(ThemePreference::Light), ..NOTHING }
    );
    assert_eq!(ui.config, incoming);
    assert_eq!(ui.unit, TemperatureUnit::Fahrenheit);
    // The same config again changes nothing and asks for nothing.
    let before = ui;
    assert_eq!(ui.update(Event::ConfigChanged(incoming)), NOTHING);
    assert_eq!(ui, before);
}

#[test]
fn a_new_collector_has_seen_nothing() {
    let c = HardwareCollector::new();
    assert!(c.cpu_stat_history.prev_overall.is_none());
    assert!(c.cpu_stat_history.prev_cores.is_empty());
    assert_eq!(c.system_collector.last_net_rx, 0);
    assert!(c.system_collector.last_procs.is_empty());
    assert!(c.storage_collector.io.at.is_none());
}
