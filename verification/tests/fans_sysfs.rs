use std::time::{Duration, Instant};

use hardware_monitor::hardware::fans::{active_fans_count, chip_name, fan_label, fan_reading, sort_fans};
use hardware_monitor::hardware::sysfs::{input_prefix, parse, temp_label, RateMeter};
use hardware_monitor::hardware::types::FanInfo;

fn fan(name: &str, rpm: u32) -> FanInfo {
    FanInfo { chip: "nct6798".to_string(), name: name.to_string(), rpm, is_active: rpm > 0 }
}

#[test]
fn fans_are_labelled_from_their_files_or_their_chip() {
    assert_eq!(chip_name(Some("nct6798\n")), "nct6798");
    assert_eq!(chip_name(None), "Unknown");
    assert_eq!(fan_label("nct6798", "fan1", Some("CPU Fan\n")), "CPU Fan");
    assert_eq!(fan_label("nct6798", "fan1", None), "nct6798 FAN1");
    assert_eq!(fan_label("amdgpu", "fan1", None), "GPU Fan");
    assert_eq!(fan_label("", "fan2", None), "FAN2");
}

#[test]
fn fan_readings_parse_their_speed() {
    assert_eq!(fan_reading("nct6798", "CPU Fan".to_string(), Some("1200\n")), Some(fan("CPU Fan", 1200)));
    assert_eq!(fan_reading("nct6798", "Rear".to_string(), Some("0")), Some(fan("Rear", 0)));
    assert_eq!(fan_reading("nct6798", "Rear".to_string(), Some("-1")), None);
    assert_eq!(fan_reading("nct6798", "Rear".to_string(), None), None);
}

#[test]
fn fans_are_sorted_fastest_first_keeping_ties_in_order() {
    let sorted = sort_fans(vec![fan("a", 800), fan("b", 1500), fan("c", 0), fan("d", 1500)]);
    let names: Vec<&str> = sorted.iter().map(|f| f.name.as_str()).collect();
    assert_eq!(names, vec!["b", "d", "a", "c"]);
    assert_eq!(active_fans_count(&sorted), 3);
    assert_eq!(active_fans_count(&[]), 0);
}

#[test]
fn sensor_files_and_values() {
    assert_eq!(parse(Some(" 42000\n")), Some(42000));
    assert_eq!(parse(Some("n/a")), None);
    assert_eq!(parse(None), None);
    assert_eq!(input_prefix("temp1_input", "temp").as_deref(), Some("temp1"));
    assert_eq!(input_prefix("fan2_input", "fan").as_deref(), Some("fan2"));
    assert_eq!(input_prefix("temp1_label", "temp"), None);
    assert_eq!(input_prefix("fan2_input", "temp"), None);
    assert_eq!(temp_label("temp1", Some("Tctl\n")), "Tctl");
    assert_eq!(temp_label("temp3", None), "temp3");
}

#[test]
fn rate_meter_needs_two_samples() {
    let mut meter = RateMeter::new();
    let t0 = Instant::now();
    assert_eq!(meter.sample_counts(100, 200, t0), None);
    let t1 = t0 + Duration::from_secs(1);
    assert_eq!(meter.sample_counts(1124, 150, t1), Some((t0, 1024, 0)));
    assert_eq!(meter.last, (1124, 150));
    assert_eq!(meter.at, Some(t1));
}
