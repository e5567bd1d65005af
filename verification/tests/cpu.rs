use std::time::{Duration, Instant};

use hardware_monitor::hardware::cpu::usage::{stat_counters_fit, CpuTimes, Interval, UsageTracker};
use hardware_monitor::hardware::cpu::{
    average_frequency, core_sensors, is_cpu_chip, is_process_entry, online_cpus, parse_cpu_model, read_core_freq,
    read_model, read_open_handles, read_temps, read_thread_count, sensor_role, sort_core_sensors,
    trailing_number, CpuCollector, SensorRole,
};

#[test]
fn orders_core_labels_numerically() {
    let mut labels = ["Core 10", "Core 2", "Core 1", "Tccd9", "Package id 0", "Unlabelled"];
    labels.sort_by_key(|label| (trailing_number(label), *label));

    // Labels without a number sort first; the rest go in numeric order,
    // which a plain string sort would get wrong for "Core 10".
    assert_eq!(labels, ["Unlabelled", "Package id 0", "Core 1", "Core 2", "Tccd9", "Core 10"]);
}

#[test]
fn averages_only_the_cores_reporting_a_frequency() {
    assert_eq!(average_frequency(&[Some(3000), Some(4000)]), 3500);
    assert_eq!(average_frequency(&[Some(3000), None]), 3000);
    assert_eq!(average_frequency(&[None]), 0);
}

#[test]
fn parses_cpu_stat_fields() {
    // user nice system idle iowait irq softirq steal
    let times = CpuTimes::parse("100 10 50 800 20 5 5 0").unwrap();

    assert_eq!(times.user, 110);
    assert_eq!(times.system, 60);
    assert_eq!(times.idle, 820);
    assert_eq!(times.total(), 990);
}

#[test]
fn rejects_truncated_cpu_stat_lines() {
    assert!(CpuTimes::parse("1 2 3").is_none());
}

/// The share of an interval a counter's growth makes up, in percent.
fn share(part: u64, interval: &Interval) -> f32 {
    (part as f32 / interval.elapsed as f32) * 100.0
}

#[test]
fn usage_is_the_non_idle_share_of_the_interval() {
    let previous = CpuTimes { user: 0, system: 0, idle: 0 };
    let now = CpuTimes { user: 20, system: 5, idle: 75 };
    let interval = now.usage_interval(previous).unwrap();
    let idle = share(interval.idle, &interval);

    assert_eq!((100.0 - idle).clamp(0.0, 100.0), 25.0);
    assert_eq!(share(interval.user, &interval), 20.0);
    assert_eq!(share(interval.system, &interval), 5.0);
    assert_eq!(idle, 75.0);
}

/// The idle share of a reading, all idle when no time passed.
fn idle_share(interval: Option<Interval>) -> f32 {
    match interval {
        Some(iv) => share(iv.idle, &iv),
        None => 100.0,
    }
}

#[test]
fn identical_samples_report_no_usage() {
    let times = CpuTimes { user: 10, system: 10, idle: 10 };
    assert_eq!(times.usage_interval(times), None);
    assert_eq!(idle_share(times.usage_interval(times)), 100.0);
}

#[test]
fn parse_ignores_counters_past_the_eighth_and_fills_missing_ones() {
    let times = CpuTimes::parse("1 2 3 4 5 6 7 8 9 10").unwrap();
    assert_eq!(times, CpuTimes { user: 3, system: 3 + 6 + 7 + 8, idle: 9 });
    let times = CpuTimes::parse("1 2 3 4").unwrap();
    assert_eq!(times, CpuTimes { user: 3, system: 3, idle: 4 });
    assert_eq!(CpuTimes::parse("1 2 x 4"), Some(CpuTimes { user: 3, system: 0, idle: 4 }));
}

#[test]
fn interval_counts_what_each_counter_gained() {
    let before = CpuTimes { user: 100, system: 50, idle: 1000 };
    let after = CpuTimes { user: 130, system: 60, idle: 1060 };
    assert_eq!(
        after.usage_interval(before),
        Some(Interval { user: 30, system: 10, idle: 60, elapsed: 100 })
    );
    // A counter that went backwards counts as having gained nothing.
    let reset = CpuTimes { user: 0, system: 0, idle: 2000 };
    assert_eq!(
        reset.usage_interval(before),
        Some(Interval { user: 0, system: 0, idle: 1000, elapsed: 850 })
    );
}

#[test]
fn first_reading_reports_no_load_and_the_second_an_interval() {
    let mut tracker = UsageTracker::new();
    let first = tracker.read(Some("cpu 10 0 10 80 0 0 0 0\ncpu0 5 0 5 40 0 0 0 0\ncpu1 5 0 5 40\nintr 1 2 3\n"));
    assert_eq!(first.overall, None);
    assert_eq!(first.per_core, vec![]);

    let second = tracker.read(Some("cpu 20 0 20 160 0 0 0 0\ncpu0 10 0 10 80 0 0 0 0\ncpu1 5 0 5 40\n"));
    assert_eq!(second.overall, Some(Interval { user: 10, system: 10, idle: 80, elapsed: 100 }));
    assert_eq!(
        second.per_core,
        vec![(0, Some(Interval { user: 5, system: 5, idle: 40, elapsed: 50 })), (1, None)]
    );
}

#[test]
fn unreadable_stat_leaves_the_tracker_as_it_was() {
    let mut tracker = UsageTracker::default();
    let sample = tracker.read(None);
    assert_eq!(sample.overall, None);
    assert!(sample.per_core.is_empty());
    tracker.read(Some("cpu 1 0 1 8\n"));
    let sample = tracker.read(None);
    assert_eq!(sample.overall, None);
    let sample = tracker.read(Some("cpu 2 0 2 16\n"));
    assert_eq!(sample.overall, Some(Interval { user: 1, system: 1, idle: 8, elapsed: 10 }));
}

#[test]
fn trailing_numbers_of_labels() {
    assert_eq!(trailing_number("Core 12"), Some(12));
    assert_eq!(trailing_number("Tccd3"), Some(3));
    assert_eq!(trailing_number("Tctl"), None);
    assert_eq!(trailing_number(""), None);
    assert_eq!(trailing_number("Core 99999999999"), None);
}

#[test]
fn core_sensors_sort_by_their_number() {
    let sorted = sort_core_sensors(vec![
        ("Core 10".to_string(), 1u32),
        ("Core 2".to_string(), 2),
        ("Core 1".to_string(), 3),
        ("Core 2".to_string(), 4),
    ]);
    let labels: Vec<(&str, u32)> = sorted.iter().map(|(l, t)| (l.as_str(), *t)).collect();
    assert_eq!(labels, vec![("Core 1", 3), ("Core 2", 2), ("Core 2", 4), ("Core 10", 1)]);
}

#[test]
fn sensors_are_told_apart_by_label() {
    assert_eq!(sensor_role("Tctl"), SensorRole::Package);
    assert_eq!(sensor_role("Tdie"), SensorRole::Package);
    assert_eq!(sensor_role("Package id 0"), SensorRole::Package);
    assert_eq!(sensor_role("Tccd1"), SensorRole::Core);
    assert_eq!(sensor_role("Core 3"), SensorRole::Core);
    assert_eq!(sensor_role("CORE 3"), SensorRole::Core);
    assert_eq!(sensor_role("\u{212A}10temp Core"), SensorRole::Core);
    assert_eq!(sensor_role("edge"), SensorRole::Other);
}

#[test]
fn read_temps_splits_package_and_cores() {
    let readings = vec![
        ("Tctl".to_string(), 55),
        ("Tccd2".to_string(), 50),
        ("Tccd1".to_string(), 48),
        ("Tdie".to_string(), 57),
        ("misc".to_string(), 99),
    ];
    let (package, cores) = read_temps(&readings);
    assert_eq!(package, Some(57));
    assert_eq!(cores, vec![("Tccd1".to_string(), 48), ("Tccd2".to_string(), 50)]);
    assert_eq!(read_temps::<u32>(&[]), (None, vec![]));
}

#[test]
fn cores_share_a_reading_when_sensors_are_few() {
    let temps = vec![("Tccd1".to_string(), 48u32)];
    let cores = core_sensors(&temps, 3, 60);
    assert_eq!(
        cores,
        vec![("Core 0".to_string(), 48), ("Core 1".to_string(), 48), ("Core 2".to_string(), 48)]
    );
    let none: Vec<(String, u32)> = vec![];
    assert_eq!(core_sensors(&none, 2, 60), vec![("Core 0".to_string(), 60), ("Core 1".to_string(), 60)]);
    let many = vec![("Core 0".to_string(), 40u32), ("Core 1".to_string(), 41)];
    assert_eq!(core_sensors(&many, 2, 60), many);
}

#[test]
fn cpu_chips_are_recognised_by_driver() {
    assert!(is_cpu_chip("k10temp"));
    assert!(is_cpu_chip("coretemp"));
    assert!(is_cpu_chip("zenpower"));
    assert!(!is_cpu_chip("amdgpu"));
}

#[test]
fn model_comes_from_the_first_model_name_line() {
    let cpuinfo = "processor\t: 0\nmodel name\t: AMD Ryzen 7 7800X3D 8-Core Processor \nmodel name\t: other\n";
    assert_eq!(read_model(Some(cpuinfo)), "AMD Ryzen 7 7800X3D 8-Core Processor");
    assert_eq!(read_model(Some("processor : 0\n")), "Processor");
    assert_eq!(read_model(None), "Processor");
    assert_eq!(read_model(Some("model name without colon")), "Processor");
    assert_eq!(parse_cpu_model(Some(cpuinfo)), "AMD Ryzen 7 7800X3D 8-Core Processor");
    assert_eq!(parse_cpu_model(Some("  model name : X")), "Processor");
    assert_eq!(read_model(Some("  model name : X")), "X");
}

#[test]
fn online_cpus_is_the_highest_index_plus_one() {
    assert_eq!(online_cpus(Some("0-15\n")), 16);
    assert_eq!(online_cpus(Some("0\n")), 1);
    assert_eq!(online_cpus(Some("0-x")), 1);
    assert_eq!(online_cpus(None), 1);
}

#[test]
fn core_frequency_is_read_in_megahertz() {
    assert_eq!(read_core_freq(Some("3600000\n")), Some(3600));
    assert_eq!(read_core_freq(Some("999")), Some(0));
    assert_eq!(read_core_freq(Some("fast")), None);
    assert_eq!(read_core_freq(None), None);
}

#[test]
fn thread_and_handle_counts() {
    assert_eq!(read_thread_count(Some("3.52 2.27 1.89 2/2189 90312\n")), 2189);
    assert_eq!(read_thread_count(Some("3.52 2.27 1.89")), 0);
    assert_eq!(read_thread_count(Some("3.52 2.27 1.89 2189 1")), 0);
    assert_eq!(read_thread_count(None), 0);
    assert_eq!(read_open_handles(Some("14432\t0\t9223372036854775807\n")), 14432);
    assert_eq!(read_open_handles(Some("")), 0);
    assert_eq!(read_open_handles(None), 0);
}

#[test]
fn energy_is_measured_between_readings() {
    let mut cpu = CpuCollector::new(Some("model name : Test CPU"));
    assert_eq!(cpu.model, "Test CPU");
    let t0 = Instant::now();
    assert_eq!(cpu.record_energy(1_000_000, t0), None);
    let t1 = t0 + Duration::from_secs(1);
    assert_eq!(cpu.record_energy(26_000_000, t1), Some((25_000_000, t0)));
    // The counter wrapped: no energy is reported for the interval.
    let t2 = t1 + Duration::from_secs(1);
    assert_eq!(cpu.record_energy(5, t2), Some((0, t1)));
}

#[test]
fn counters_that_overflow_are_caught_before_reading() {
    assert!(stat_counters_fit("cpu 1 2 3 4\ncpu0 1 2 3 4\n"));
    assert!(!stat_counters_fit("cpu 18446744073709551615 1 0 0\n"));
    // Past the cpu lines nothing is added up.
    assert!(stat_counters_fit("cpu 1 2 3 4\nintr 18446744073709551615 1\ncpu1 18446744073709551615 1 0 0\n"));
    // Counters past the eighth are not added.
    assert!(stat_counters_fit("cpu 0 0 0 0 0 0 0 0 18446744073709551615 1\n"));
}

#[test]
fn process_entries_are_named_by_pid() {
    assert!(is_process_entry("1234"));
    assert!(!is_process_entry("self"));
    assert!(!is_process_entry("4294967296"));
}
