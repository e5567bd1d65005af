use std::time::{Duration, Instant};

use hardware_monitor::hardware::system::{
    is_spd_chip, kernel_release, net_bytes_fit, parse_meminfo_kb, proc_stat_fits, proc_stat_ticks, read_hostname,
    read_meminfo, read_net_bytes, read_os_name, spd_label, Meminfo, MemoryBytes, SystemCollector,
};

const NET_DEV: &str = "\
Inter-|   Receive                                                |  Transmit\n\
 face |bytes    packets errs drop fifo frame compressed multicast|bytes    packets errs drop fifo colls carrier compressed\n\
    lo: 5000     50    0    0    0     0          0         0     5000      50    0    0    0     0       0          0\n\
  eth0: 1000     10    0    0    0     0          0         0     2000      20    0    0    0     0       0          0\n\
wlan0:300 3 0 0 0 0 0 0 400 4 0 0 0 0 0 0\n";

const MEMINFO: &str = "\
MemTotal:       32768000 kB\n\
MemFree:         1000000 kB\n\
MemAvailable:   16384000 kB\n\
Buffers:          100000 kB\n\
Cached:          4000000 kB\n\
SwapCached:            0 kB\n\
SwapTotal:       8000000 kB\n\
SwapFree:        6000000 kB\n\
Committed_AS:   20000000 kB\n";

#[test]
fn host_names() {
    assert_eq!(read_hostname(Some("desk\n"), Some("other\n")), "desk");
    assert_eq!(read_hostname(Some("  \n"), Some("other\n")), "other");
    assert_eq!(read_hostname(None, None), "Linux");
    assert_eq!(read_os_name(Some("NAME=Arch\nPRETTY_NAME=\"Arch Linux\"\nPRETTY_NAME=x\n")), "Arch Linux");
    assert_eq!(read_os_name(Some("NAME=Arch\n")), "Linux");
    assert_eq!(read_os_name(None), "Linux");
    assert_eq!(read_os_name(Some("PRETTY_NAME=\"\"\"")), "");
    assert_eq!(kernel_release(Some("6.9.1-arch1-1\n")), "6.9.1-arch1-1");
    assert_eq!(kernel_release(None), "Linux");
}

#[test]
fn meminfo_fields() {
    assert_eq!(parse_meminfo_kb("MemTotal:       32768000 kB"), 32768000);
    assert_eq!(parse_meminfo_kb("MemTotal:"), 0);
    assert_eq!(parse_meminfo_kb("MemTotal: lots kB"), 0);
    let m = read_meminfo(Some(MEMINFO));
    assert_eq!(
        m,
        Meminfo {
            total_kb: 32768000,
            avail_kb: 16384000,
            committed_kb: 20000000,
            cached_kb: 4000000,
            buffers_kb: 100000,
            swap_total_kb: 8000000,
            swap_free_kb: 6000000,
        }
    );
    assert!(m.bytes_fit());
    assert_eq!(m.used_kb(), 16384000);
    assert_eq!(
        m.bytes(),
        MemoryBytes {
            total: 32768000 * 1024,
            used: 16384000 * 1024,
            available: 16384000 * 1024,
            committed: 20000000 * 1024,
            cached: 4100000 * 1024,
            swap_total: 8000000 * 1024,
            swap_used: 2000000 * 1024,
            swap_avail: 6000000 * 1024,
        }
    );
    assert_eq!(read_meminfo(None).total_kb, 0);
    // Available above total counts as nothing used.
    let odd = read_meminfo(Some("MemTotal: 10 kB\nMemAvailable: 20 kB\n"));
    assert_eq!(odd.used_kb(), 0);
    assert!(!read_meminfo(Some("MemTotal: 18446744073709551615 kB\n")).bytes_fit());
}

#[test]
fn network_bytes_skip_loopback() {
    assert!(net_bytes_fit(Some(NET_DEV)));
    assert_eq!(read_net_bytes(Some(NET_DEV)), (1300, 2400));
    assert_eq!(read_net_bytes(None), (0, 0));
    assert_eq!(read_net_bytes(Some("only\none\n")), (0, 0));
}

#[test]
fn process_ticks_from_stat_lines() {
    let line = "1234 (Web Content) S 1 2 3 4 5 6 7 8 9 10 150 25 0 0 20 0 1";
    assert_eq!(proc_stat_ticks(line), Some(("Web Content".to_string(), 175)));
    assert_eq!(proc_stat_ticks("1 (a) b) S 1 2 3 4 5 6 7 8 9 10 11 12 13"), Some(("a) b".to_string(), 23)));
    assert_eq!(proc_stat_ticks("1 (short) S 1 2"), None);
    assert_eq!(proc_stat_ticks("no parens"), None);
    assert_eq!(proc_stat_ticks("1 (x) S 1 2 3 4 5 6 7 8 9 10 x 12 13"), Some(("x".to_string(), 12)));
}

#[test]
fn stat_lines_that_cannot_be_cut_are_caught() {
    assert!(proc_stat_fits("1234 (Web Content) S 1 2 3 4 5 6 7 8 9 10 150 25 0"));
    assert!(proc_stat_fits("no parens"));
    assert!(proc_stat_fits("1 (x)"));
    assert!(!proc_stat_fits("1 (x)é 1 2 3 4 5 6 7 8 9 10 11 12 13"));
    assert!(!proc_stat_fits("1 (x) S 1 2 3 4 5 6 7 8 9 10 18446744073709551615 1 0"));
    assert!(proc_stat_fits("1 (x) S 1 2 3 4 5 6 7 8 9 10 18446744073709551615 0 0"));
}

#[test]
fn network_rates_need_two_samples() {
    let mut system = SystemCollector::new();
    let t0 = Instant::now();
    assert_eq!(system.sample_network(1000, 2000, t0), None);
    let t1 = t0 + Duration::from_secs(2);
    assert_eq!(system.sample_network(3048, 1000, t1), Some((t0, 2048, 0)));
}

#[test]
fn top_processes_are_the_busiest_names() {
    let mut system = SystemCollector::default();
    let t0 = Instant::now();
    let scan = |entries: &[(u32, &str, u64)]| -> Vec<(u32, String, u64)> {
        entries.iter().map(|(p, n, t)| (*p, n.to_string(), *t)).collect()
    };
    let first = scan(&[(1, "init", 10), (2, "firefox", 100), (3, "firefox", 50), (4, "bash", 5)]);
    assert_eq!(system.read_top_processes(first, t0), None);

    let t1 = t0 + Duration::from_secs(2);
    let second = scan(&[
        (1, "init", 10),
        (2, "firefox", 160),
        (3, "firefox", 70),
        (4, "bash", 6),
        (5, "new", 500),
        (6, "rustc", 120),
    ]);
    let (at, top) = system.read_top_processes(second, t1).unwrap();
    assert_eq!(at, t0);
    // firefox ran 60 + 20 ticks; bash 1; init did not run; "new" was not
    // seen before, and rustc is new too.
    assert_eq!(top, vec![("firefox".to_string(), 80), ("bash".to_string(), 1)]);
    assert_eq!(system.last_proc_time, Some(t1));
    assert_eq!(system.last_procs.len(), 6);

    let t2 = t1 + Duration::from_secs(2);
    let third = scan(&[
        (2, "firefox", 161),
        (4, "bash", 16),
        (5, "new", 530),
        (6, "rustc", 220),
        (1, "init", 11),
        (3, "firefox", 70),
    ]);
    let (_, top) = system.read_top_processes(third, t2).unwrap();
    assert_eq!(
        top,
        vec![
            ("rustc".to_string(), 100),
            ("new".to_string(), 30),
            ("bash".to_string(), 10),
            ("firefox".to_string(), 1),
        ]
    );
}

#[test]
fn memory_modules() {
    assert!(is_spd_chip("spd5118"));
    assert!(is_spd_chip("ee1004"));
    assert!(!is_spd_chip("nvme"));
    assert_eq!(spd_label(1, "spd5118"), "DIMM 1 (spd5118)");
    assert_eq!(spd_label(12, "ee1004"), "DIMM 12 (ee1004)");
}
