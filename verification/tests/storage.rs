use std::time::{Duration, Instant};

use hardware_monitor::hardware::storage::{
    disk_usage, diskstats_fit, drive_model, is_drive_chip, is_whole_disk, order_partitions,
    read_diskstats, root_position, select_mounts, StorageCollector,
};

const DISKSTATS: &str = "\
 259       0 nvme0n1 1000 0 2000 0 500 0 4000 0 0 0 0\n\
 259       1 nvme0n1p1 10 0 20 0 5 0 40 0 0 0 0\n\
   8       0 sda 1 0 300 0 1 0 700 0 0 0 0\n\
   8       1 sda1 1 0 30 0 1 0 70 0 0 0 0\n\
   7       0 loop0 1 0 9999 0 1 0 9999 0 0 0 0\n";

const MOUNTS: &str = "\
/dev/nvme0n1p2 / btrfs rw,relatime 0 0\n\
proc /proc proc rw 0 0\n\
/dev/nvme0n1p2 /home btrfs rw,relatime 0 0\n\
/dev/nvme0n1p1 /boot vfat rw 0 0\n\
/dev/nvme0n1p2 /var/log btrfs rw 0 0\n\
/dev/loop3 /snap/core/1 squashfs ro 0 0\n\
/dev/sdb1 /home ext4 rw 0 0\n\
/dev/sdb2 /mnt/data ext4 rw 0 0\n";

#[test]
fn root_partition_is_found_wherever_it_sits() {
    let mounts = vec!["/boot".to_string(), "/".to_string()];
    assert_eq!(root_position(&mounts), Some(1));
    assert_eq!(root_position(&[]), None);
}

#[test]
fn whole_disks_and_partitions() {
    assert!(is_whole_disk("nvme0n1"));
    assert!(!is_whole_disk("nvme0n1p2"));
    assert!(is_whole_disk("sda"));
    assert!(!is_whole_disk("sda1"));
    assert!(!is_whole_disk("loop0"));
    assert!(!is_whole_disk("sdé"));
}

#[test]
fn diskstats_count_whole_disks_only() {
    assert!(diskstats_fit(Some(DISKSTATS)));
    assert_eq!(read_diskstats(Some(DISKSTATS)), (2300, 4700));
    assert_eq!(read_diskstats(None), (0, 0));
    assert_eq!(read_diskstats(Some("8 0 sda 1 0 x 0 1 0 700\n")), (0, 0));
    let huge = "8 0 sda 0 0 18446744073709551615 0 0 0 0\n8 16 sdb 0 0 1 0 0 0 0\n";
    assert!(!diskstats_fit(Some(huge)));
}

#[test]
fn drives_are_named_by_model() {
    assert!(is_drive_chip("nvme"));
    assert!(is_drive_chip("drivetemp"));
    assert!(!is_drive_chip("k10temp"));
    assert_eq!(drive_model(Some("Samsung SSD 990 PRO 2TB  \n"), "nvme"), "NVMe Samsung SSD 990 PRO 2TB");
    assert_eq!(drive_model(Some("   "), "nvme"), "Storage (nvme)");
    assert_eq!(drive_model(None, "drivetemp"), "Storage (drivetemp)");
}

#[test]
fn mounts_are_real_distinct_and_uncluttered() {
    let kept = select_mounts(Some(MOUNTS));
    let kept: Vec<(&str, &str)> = kept.iter().map(|(m, f)| (m.as_str(), f.as_str())).collect();
    assert_eq!(kept, vec![("/", "btrfs"), ("/home", "btrfs"), ("/boot", "vfat"), ("/mnt/data", "ext4")]);
    assert!(select_mounts(None).is_empty());
}

#[test]
fn partitions_list_root_first_then_alphabetically() {
    let parts = vec![
        ("/home".to_string(), 1),
        ("/boot".to_string(), 2),
        ("/".to_string(), 3),
        ("/boot/efi".to_string(), 4),
    ];
    let sorted = order_partitions(parts);
    let mounts: Vec<(&str, i32)> = sorted.iter().map(|(m, d)| (m.as_str(), *d)).collect();
    assert_eq!(mounts, vec![("/", 3), ("/boot", 2), ("/boot/efi", 4), ("/home", 1)]);
}

#[test]
fn disk_usage_from_statvfs() {
    assert_eq!(disk_usage(4096, 4096, 1000, 250), Some((4_096_000, 1_024_000)));
    assert_eq!(disk_usage(0, 512, 8, 2), Some((4096, 1024)));
    assert_eq!(disk_usage(4096, 4096, 0, 0), None);
}

#[test]
fn io_is_measured_between_samples() {
    let mut storage = StorageCollector::new();
    let t0 = Instant::now();
    assert_eq!(storage.sample_io(10, 20, t0), None);
    let t1 = t0 + Duration::from_secs(2);
    assert_eq!(storage.sample_io(14, 20, t1), Some((t0, 2048, 0)));
    assert_eq!(storage.sample_io(1, 1, t1), Some((t1, 0, 0)));
}
