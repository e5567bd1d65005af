use std::time::{Duration, Instant};

use hardware_monitor::hardware::cpu::SensorRole;
use hardware_monitor::hardware::cpu_stat::{
    chip_sensor_role, is_all_digit_name, parse_cpu_stat_line, pass_counters_fit, plan_cores,
    split_sensor_readings, CpuStatHistory, StatDelta,
};

#[test]
fn stat_line_sums_idle_and_total() {
    assert_eq!(parse_cpu_stat_line(&["100", "10", "50", "800", "20", "5", "5", "0"]), Some((820, 990)));
    assert_eq!(parse_cpu_stat_line(&["1", "2", "3", "4"]), Some((4, 10)));
    // Optional counters that do not parse count as zero.
    assert_eq!(parse_cpu_stat_line(&["1", "2", "3", "4", "x", "1"]), Some((4, 11)));
    // The first four must be present and numeric.
    assert_eq!(parse_cpu_stat_line(&["1", "2", "3"]), None);
    assert_eq!(parse_cpu_stat_line(&["1", "x", "3", "4"]), None);
    // Counters past the eighth are not counted.
    assert_eq!(parse_cpu_stat_line(&["1", "1", "1", "1", "1", "1", "1", "1", "100"]), Some((2, 8)));
}

#[test]
fn usage_counts_compare_against_the_previous_pass() {
    let mut history = CpuStatHistory::default();
    let first = "cpu 10 0 10 80 0 0 0 0\ncpu0 5 0 5 40\ncpu1 5 0 5 40\nintr 5\n";
    assert!(pass_counters_fit(first));
    let counts = history.read_usage_counts(first);
    assert_eq!(counts.overall, None);
    assert!(counts.cores.is_empty());

    let second = "cpu 30 0 10 160 0 0 0 0\ncpu0 15 0 5 80\ncpu1 5 0 5 40\ncpux 1 2 3 4\n";
    let counts = history.read_usage_counts(second);
    assert_eq!(counts.overall, Some(StatDelta { user: 20, system: 0, idle: 80, total: 100 }));
    // cpu1 did not move, so it reports nothing this pass.
    assert_eq!(counts.cores, vec![(0, 40, 50)]);
}

#[test]
fn overflowing_counters_are_caught_before_reading() {
    assert!(!pass_counters_fit("cpu 18446744073709551615 1 0 0\n"));
    assert!(pass_counters_fit("cpu 18446744073709551615 0 0 0\n"));
    assert!(pass_counters_fit("intr 18446744073709551615 1\n"));
}

#[test]
fn energy_readings_pair_up() {
    let mut history = CpuStatHistory::new();
    let t0 = Instant::now();
    assert_eq!(history.record_energy(100, t0), None);
    let t1 = t0 + Duration::from_millis(500);
    assert_eq!(history.record_energy(350, t1), Some((250, t0)));
    assert_eq!(history.record_energy(10, t1), Some((0, t1)));
}

#[test]
fn sensors_are_classified_per_chip() {
    assert_eq!(chip_sensor_role("k10temp", "Tctl"), SensorRole::Package);
    assert_eq!(chip_sensor_role("k10temp", "TCTL/TDIE"), SensorRole::Package);
    assert_eq!(chip_sensor_role("zenpower", "Tccd1"), SensorRole::Core);
    assert_eq!(chip_sensor_role("k10temp", "Tdie"), SensorRole::Other);
    assert_eq!(chip_sensor_role("coretemp", "Package id 0"), SensorRole::Package);
    assert_eq!(chip_sensor_role("coretemp", "Core 4"), SensorRole::Core);
    assert_eq!(chip_sensor_role("coretemp", "Tctl"), SensorRole::Other);
    assert_eq!(chip_sensor_role("amdgpu", "edge"), SensorRole::Other);
}

#[test]
fn readings_split_into_package_and_cores() {
    let readings = vec![
        ("coretemp".to_string(), "Package id 0".to_string(), 60u32),
        ("coretemp".to_string(), "Core 0".to_string(), 55),
        ("nvme".to_string(), "Composite".to_string(), 40),
        ("coretemp".to_string(), "Core 1".to_string(), 57),
    ];
    let (package, cores) = split_sensor_readings(&readings);
    assert_eq!(package, Some(60));
    assert_eq!(cores, vec![("Core 0".to_string(), 55), ("Core 1".to_string(), 57)]);
}

#[test]
fn cores_are_planned_from_sensors_or_cpus() {
    let sensors = vec![("Core 0".to_string(), 40u32), ("Core 1".to_string(), 42)];
    assert_eq!(
        plan_cores(&sensors, 2, 50),
        vec![(0, "Core 0".to_string(), 40), (1, "Core 1".to_string(), 42)]
    );
    assert_eq!(
        plan_cores(&sensors, 3, 50),
        vec![(0, "Core 0".to_string(), 40), (1, "Core 1".to_string(), 40), (2, "Core 2".to_string(), 40)]
    );
    let none: Vec<(String, u32)> = vec![];
    assert_eq!(plan_cores(&none, 1, 50), vec![(0, "Core 0".to_string(), 50)]);
}

#[test]
fn process_entries_are_all_digits() {
    assert!(is_all_digit_name("1234"));
    assert!(!is_all_digit_name("self"));
    assert!(!is_all_digit_name("12a"));
}
