//! Drive temperatures, disk throughput and mounted-partition usage.
use std::time::Instant;
use vstd::prelude::*;

use crate::hardware::sysfs::RateMeter;
use crate::order::{
    key_le, keyed, lemma_map_keeps_multiset, sort_by_key, sort_is_permutation, sort_keyed,
    sorted_by_key,
};
use crate::text::{
    chars_eq, chars_eq_str, chars_of, contains, file_view, find_char, has_prefix, has_substr,
    lemma_views_push, lines, parse_u64, parse_u64_chars, push_chars, push_str, read_trimmed,
    split_lines, split_words, starts_with, string_of, trim, trimmed, views, words,
};

verus! {

/// A disk sector is 512 bytes in `/proc/diskstats`, regardless of the
/// hardware's real sector size.
pub const SECTOR_BYTES: u64 = 512;

/// hwmon drivers that expose drive temperatures.
pub const DRIVE_CHIPS: [&'static str; 2] = ["nvme", "drivetemp"];

/// Mount points that duplicate or clutter the partition list.
pub const IGNORED_MOUNTS: [&'static str; 4] = ["/var/", "/snap", "/root", "/srv"];

pub open spec fn spec_is_drive_chip(name: Seq<char>) -> bool {
    starts_with(name, "nvme"@) || starts_with(name, "drivetemp"@)
}

/// Whether a hwmon driver reports a drive's temperature.
pub fn is_drive_chip(name: &str) -> (b: bool)
    ensures
        b == spec_is_drive_chip(name@),
{
    let n = chars_of(name);
    has_prefix(&n, "nvme") || has_prefix(&n, "drivetemp")
}

/// A drive's name: its advertised model when `device/model` holds one
/// (`model_file`, `None` when unreadable), otherwise the bare driver name.
pub open spec fn spec_drive_model(model_file: Option<Seq<char>>, driver: Seq<char>) -> Seq<char> {
    match read_trimmed(model_file) {
        Some(model) if model.len() > 0 => "NVMe "@ + model,
        _ => "Storage ("@ + driver + ")"@,
    }
}

pub fn drive_model(model_file: Option<&str>, driver: &str) -> (name: String)
    ensures
        name@ == spec_drive_model(file_view(model_file), driver@),
{
    let mut out: Vec<char> = Vec::new();
    match model_file {
        Some(raw) => {
            let chars = chars_of(raw);
            let model = trimmed(&chars);
            if model.len() > 0 {
                push_str(&mut out, "NVMe ");
                push_chars(&mut out, &model);
                return string_of(&out);
            }
        },
        None => {},
    }
    push_str(&mut out, "Storage (");
    push_str(&mut out, driver);
    push_str(&mut out, ")");
    string_of(&out)
}

/// `nvme0n1` and `sda` are disks; `nvme0n1p2` and `sda1` are partitions of one.
///
/// A name is three bytes long exactly when it is `sd` and one more
/// character that is ASCII, which is how this is written.
pub open spec fn spec_is_whole_disk(name: Seq<char>) -> bool {
    (starts_with(name, "nvme"@) && !name.contains('p')) || (starts_with(name, "sd"@) && name.len()
        == 3 && (name[2] as u32) < 0x80)
}

pub fn is_whole_disk(name: &str) -> (b: bool)
    ensures
        b == spec_is_whole_disk(name@),
{
    let n = chars_of(name);
    if has_prefix(&n, "nvme") && find_char(&n, 'p').is_none() {
        return true;
    }
    has_prefix(&n, "sd") && n.len() == 3 && (n[2] as u32) < 0x80
}

/// Sectors read and written by one `/proc/diskstats` line, if it describes
/// a whole disk and both counters parse.
pub open spec fn diskstat_line(line: Seq<char>) -> Option<(u64, u64)> {
    let f = words(line);
    if f.len() <= 2 || !spec_is_whole_disk(f[2]) || f.len() <= 9 {
        None
    } else {
        match (parse_u64(f[5]), parse_u64(f[9])) {
            (Some(r), Some(w)) => Some((r, w)),
            _ => None,
        }
    }
}

/// Totals of sectors read and written over `ls`.
pub open spec fn diskstat_totals(ls: Seq<Seq<char>>) -> (nat, nat)
    decreases ls.len(),
{
    if ls.len() == 0 {
        (0, 0)
    } else {
        let (r, w) = diskstat_totals(ls.drop_last());
        match diskstat_line(ls.last()) {
            Some((dr, dw)) => (r + dr as nat, w + dw as nat),
            None => (r, w),
        }
    }
}

/// The totals of `/proc/diskstats`, `(0, 0)` when it could not be read.
pub open spec fn spec_diskstats(diskstats: Option<Seq<char>>) -> (nat, nat) {
    match read_trimmed(diskstats) {
        None => (0, 0),
        Some(content) => diskstat_totals(lines(content)),
    }
}

proof fn lemma_totals_grow(ls: Seq<Seq<char>>, k: int)
    requires
        0 <= k <= ls.len(),
    ensures
        diskstat_totals(ls.take(k)).0 <= diskstat_totals(ls).0,
        diskstat_totals(ls.take(k)).1 <= diskstat_totals(ls).1,
    decreases ls.len(),
{
    if k < ls.len() {
        assert(ls.drop_last().take(k) =~= ls.take(k));
        lemma_totals_grow(ls.drop_last(), k);
    } else {
        assert(ls.take(k) =~= ls);
    }
}

fn diskstat_of(line: &Vec<char>) -> (r: Option<(u64, u64)>)
    ensures
        r == diskstat_line(line@),
{
    let f = split_words(line);
    if f.len() <= 2 {
        return None;
    }
    let name = string_of(&f[2]);
    if !is_whole_disk(name.as_str()) || f.len() <= 9 {
        return None;
    }
    match (parse_u64_chars(&f[5]), parse_u64_chars(&f[9])) {
        (Some(r), Some(w)) => Some((r, w)),
        _ => None,
    }
}

/// Totals read and written sectors across whole disks, from the contents of
/// `/proc/diskstats` (`None` when unreadable). Partitions are skipped so
/// their I/O is not counted twice on top of the parent disk's.
pub fn read_diskstats(diskstats: Option<&str>) -> (sectors: (u64, u64))
    requires
        spec_diskstats(file_view(diskstats)).0 <= u64::MAX,
        spec_diskstats(file_view(diskstats)).1 <= u64::MAX,
    ensures
        sectors.0 == spec_diskstats(file_view(diskstats)).0,
        sectors.1 == spec_diskstats(file_view(diskstats)).1,
{
    let Some(raw) = diskstats else {
        return (0, 0);
    };
    let chars = chars_of(raw);
    let content = trimmed(&chars);
    let ls = split_lines(&content);
    let ghost all = views(ls@);
    let mut r: u64 = 0;
    let mut w: u64 = 0;
    let mut i: usize = 0;
    while i < ls.len()
        invariant
            i <= ls.len(),
            all == views(ls@),
            diskstat_totals(all).0 <= u64::MAX,
            diskstat_totals(all).1 <= u64::MAX,
            (r as nat, w as nat) == diskstat_totals(all.take(i as int)),
        decreases ls.len() - i,
    {
        assert(all.take(i + 1).drop_last() =~= all.take(i as int));
        assert(all[i as int] == ls@[i as int]@);
        proof {
            lemma_totals_grow(all, i + 1);
        }
        match diskstat_of(&ls[i]) {
            Some((dr, dw)) => {
                r = r + dr;
                w = w + dw;
            },
            None => {},
        }
        i = i + 1;
    }
    assert(all.take(i as int) =~= all);
    (r, w)
}

/// Whether `read_diskstats` can total these contents without overflowing.
pub fn diskstats_fit(diskstats: Option<&str>) -> (ok: bool)
    ensures
        ok == (spec_diskstats(file_view(diskstats)).0 <= u64::MAX && spec_diskstats(
            file_view(diskstats),
        ).1 <= u64::MAX),
{
    let Some(raw) = diskstats else {
        return true;
    };
    let chars = chars_of(raw);
    let content = trimmed(&chars);
    let ls = split_lines(&content);
    let ghost all = views(ls@);
    let mut r: u128 = 0;
    let mut w: u128 = 0;
    let mut i: usize = 0;
    while i < ls.len()
        invariant
            i <= ls.len(),
            all == views(ls@),
            (r as nat, w as nat) == diskstat_totals(all.take(i as int)),
            r <= i * 0xffff_ffff_ffff_ffff,
            w <= i * 0xffff_ffff_ffff_ffff,
            i <= usize::MAX,
        decreases ls.len() - i,
    {
        assert(all.take(i + 1).drop_last() =~= all.take(i as int));
        assert(all[i as int] == ls@[i as int]@);
        match diskstat_of(&ls[i]) {
            Some((dr, dw)) => {
                assert(r + dr <= (i + 1) * 0xffff_ffff_ffff_ffff) by (nonlinear_arith)
                    requires
                        r <= i * 0xffff_ffff_ffff_ffff,
                        dr <= 0xffff_ffff_ffff_ffffu64,
                ;
                assert(w + dw <= (i + 1) * 0xffff_ffff_ffff_ffff) by (nonlinear_arith)
                    requires
                        w <= i * 0xffff_ffff_ffff_ffff,
                        dw <= 0xffff_ffff_ffff_ffffu64,
                ;
                r = r + dr as u128;
                w = w + dw as u128;
            },
            None => {
                assert(r <= (i + 1) * 0xffff_ffff_ffff_ffff) by (nonlinear_arith)
                    requires
                        r <= i * 0xffff_ffff_ffff_ffff,
                ;
                assert(w <= (i + 1) * 0xffff_ffff_ffff_ffff) by (nonlinear_arith)
                    requires
                        w <= i * 0xffff_ffff_ffff_ffff,
                ;
            },
        }
        i = i + 1;
    }
    assert(all.take(i as int) =~= all);
    r <= u64::MAX as u128 && w <= u64::MAX as u128
}

// ---------------------------------------------------------------------------
// Mounted partitions
// ---------------------------------------------------------------------------

pub open spec fn is_ignored_mount(mount: Seq<char>) -> bool {
    ||| starts_with(mount, "/var/"@) || contains(mount, "/var/"@)
    ||| starts_with(mount, "/snap"@) || contains(mount, "/snap"@)
    ||| starts_with(mount, "/root"@) || contains(mount, "/root"@)
    ||| starts_with(mount, "/srv"@) || contains(mount, "/srv"@)
}

/// State of the scan of `/proc/mounts`: the mount points already taken and
/// the `(mount, filesystem)` pairs kept so far.
pub struct MountScan {
    pub seen: Seq<Seq<char>>,
    pub kept: Seq<(Seq<char>, Seq<char>)>,
}

/// Takes in one line of `/proc/mounts`: only block devices, only the first
/// mount of each path, and none of the [`IGNORED_MOUNTS`].
pub open spec fn mount_line(st: MountScan, line: Seq<char>) -> MountScan {
    let f = words(line);
    if f.len() < 3 {
        st
    } else {
        let (device, mount, filesystem) = (f[0], f[1], f[2]);
        if !starts_with(device, "/dev/"@) || is_ignored_mount(mount) || st.seen.contains(mount) {
            st
        } else {
            MountScan { seen: st.seen.push(mount), kept: st.kept.push((mount, filesystem)) }
        }
    }
}

pub open spec fn mount_lines(st: MountScan, ls: Seq<Seq<char>>) -> MountScan
    decreases ls.len(),
{
    if ls.len() == 0 {
        st
    } else {
        mount_line(mount_lines(st, ls.drop_last()), ls.last())
    }
}

/// The real, distinct mounted filesystems of `/proc/mounts`, as
/// `(mount point, filesystem)`, in the order they are listed.
pub open spec fn spec_select_mounts(mounts: Option<Seq<char>>) -> Seq<(Seq<char>, Seq<char>)> {
    match read_trimmed(mounts) {
        None => seq![],
        Some(content) => mount_lines(MountScan { seen: seq![], kept: seq![] }, lines(content)).kept,
    }
}

fn contains_chars(list: &Vec<Vec<char>>, x: &Vec<char>) -> (b: bool)
    ensures
        b == views(list@).contains(x@),
{
    let mut i: usize = 0;
    while i < list.len()
        invariant
            i <= list.len(),
            forall|k: int| 0 <= k < i ==> views(list@)[k] != x@,
        decreases list.len() - i,
    {
        if chars_eq(&list[i], x) {
            assert(views(list@)[i as int] == x@);
            return true;
        }
        i = i + 1;
    }
    false
}

fn ignored_mount(mount: &Vec<char>) -> (b: bool)
    ensures
        b == is_ignored_mount(mount@),
{
    (has_prefix(mount, "/var/") || has_substr(mount, "/var/")) || (has_prefix(mount, "/snap")
        || has_substr(mount, "/snap")) || (has_prefix(mount, "/root") || has_substr(
        mount,
        "/root",
    )) || (has_prefix(mount, "/srv") || has_substr(mount, "/srv"))
}

/// Lists real, distinct mounted filesystems, as `(mount point, filesystem)`,
/// from the contents of `/proc/mounts` (`None` when unreadable).
pub fn select_mounts(mounts: Option<&str>) -> (kept: Vec<(String, String)>)
    ensures
        kept@.map_values(|e: (String, String)| (e.0@, e.1@)) == spec_select_mounts(
            file_view(mounts),
        ),
{
    let Some(raw) = mounts else {
        return Vec::new();
    };
    let chars = chars_of(raw);
    let content = trimmed(&chars);
    let ls = split_lines(&content);
    let ghost all = views(ls@);
    let mut seen: Vec<Vec<char>> = Vec::new();
    let mut kept: Vec<(String, String)> = Vec::new();
    let mut i: usize = 0;
    assert(all.take(0) =~= Seq::<Seq<char>>::empty());
    assert(views(seen@) =~= Seq::<Seq<char>>::empty());
    assert(kept@.map_values(|e: (String, String)| (e.0@, e.1@)) =~= Seq::<(Seq<char>, Seq<char>)>::empty());
    while i < ls.len()
        invariant
            i <= ls.len(),
            all == views(ls@),
            all == lines(trim(raw@)),
            mount_lines(MountScan { seen: seq![], kept: seq![] }, all.take(i as int)) == (MountScan {
                seen: views(seen@),
                kept: kept@.map_values(|e: (String, String)| (e.0@, e.1@)),
            }),
        decreases ls.len() - i,
    {
        assert(all.take(i + 1).drop_last() =~= all.take(i as int));
        assert(all[i as int] == ls@[i as int]@);
        let f = split_words(&ls[i]);
        if f.len() >= 3 {
            if has_prefix(&f[0], "/dev/") && !ignored_mount(&f[1]) && !contains_chars(&seen, &f[1]) {
                let ghost before_seen = views(seen@);
                let ghost before_kept = kept@.map_values(|e: (String, String)| (e.0@, e.1@));
                let mount = f[1].clone();
                proof {
                    lemma_views_push(seen@, mount);
                }
                seen.push(mount);
                let entry = (string_of(&f[1]), string_of(&f[2]));
                kept.push(entry);
                assert(kept@.map_values(|e: (String, String)| (e.0@, e.1@)) =~= before_kept.push(
                    (f@[1]@, f@[2]@),
                ));
            }
        }
        i = i + 1;
    }
    assert(all.take(i as int) =~= all);
    kept
}

/// The key partitions are listed by: the root filesystem first, the rest
/// alphabetically by mount point.
pub open spec fn mount_key(mount: Seq<char>) -> Seq<u64> {
    seq![if mount == "/"@ { 0u64 } else { 1u64 }] + mount.map_values(|c: char| (c as u32) as u64)
}

pub open spec fn with_mount_keys<T>(s: Seq<(String, T)>) -> Seq<(Seq<u64>, (String, T))> {
    s.map_values(|e: (String, T)| (mount_key(e.0@), e))
}

fn mount_key_of(mount: &str) -> (k: Vec<u64>)
    ensures
        k@ == mount_key(mount@),
{
    let s = chars_of(mount);
    let mut k: Vec<u64> = Vec::new();
    k.push(if chars_eq_str(&s, "/") {
        0
    } else {
        1
    });
    let ghost head = k@;
    let mut i: usize = 0;
    while i < s.len()
        invariant
            i <= s.len(),
            s@ == mount@,
            k@ == head + s@.take(i as int).map_values(|c: char| (c as u32) as u64),
        decreases s.len() - i,
    {
        let code = s[i] as u32 as u64;
        k.push(code);
        i = i + 1;
        assert(s@.take(i as int).map_values(|c: char| (c as u32) as u64) =~= s@.take(
            i - 1,
        ).map_values(|c: char| (c as u32) as u64).push(code));
        assert(k@ =~= head + s@.take(i as int).map_values(|c: char| (c as u32) as u64));
    }
    assert(s@.take(i as int) =~= s@);
    k
}

/// The order partitions are listed in.
pub open spec fn partition_order<T>(partitions: Seq<(String, T)>) -> Seq<(String, T)> {
    sort_by_key(with_mount_keys(partitions)).map_values(|e: (Seq<u64>, (String, T))| e.1)
}

/// Orders partitions, given as `(mount point, details)`: root first, the
/// rest alphabetically.
pub fn order_partitions<T>(partitions: Vec<(String, T)>) -> (sorted: Vec<(String, T)>)
    ensures
        sorted@ == partition_order(partitions@),
{
    let ghost input = partitions@;
    let mut items: Vec<(Vec<u64>, (String, T))> = Vec::new();
    let mut rest = partitions;
    let ghost mut i: int = 0;
    while rest.len() > 0
        invariant
            0 <= i <= input.len(),
            rest@ == input.skip(i),
            keyed(items@) == with_mount_keys(input.take(i)),
        decreases rest.len(),
    {
        let ghost before = rest@;
        let e = rest.remove(0);
        let k = mount_key_of(e.0.as_str());
        proof {
            assert(before[0] == input[i]);
            assert(rest@ =~= input.skip(i + 1));
        }
        let ghost old_items = keyed(items@);
        let ghost entry = (k@, e);
        items.push((k, e));
        proof {
            assert(keyed(items@) =~= old_items.push(entry));
            assert(with_mount_keys(input.take(i + 1)) =~= with_mount_keys(input.take(i)).push(
                entry,
            ));
            i = i + 1;
        }
    }
    assert(input.take(i) =~= input);
    let sorted_items = sort_keyed(items);
    let ghost target = sort_by_key(with_mount_keys(input));
    let mut out: Vec<(String, T)> = Vec::new();
    let mut rest = sorted_items;
    let ghost mut j: int = 0;
    assert(keyed(rest@) =~= target.skip(0));
    while rest.len() > 0
        invariant
            0 <= j <= target.len(),
            keyed(rest@) == target.skip(j),
            out@ == target.take(j).map_values(|e: (Seq<u64>, (String, T))| e.1),
        decreases rest.len(),
    {
        let ghost before = keyed(rest@);
        let ghost raw = rest@;
        let e = rest.remove(0);
        proof {
            assert(keyed(raw).len() == raw.len());
            assert(j < target.len());
            assert(before[0] == target.skip(j)[0]);
            assert(keyed(rest@) =~= before.drop_first());
            assert(keyed(rest@) =~= target.skip(j + 1));
            assert(e.1 == target[j].1);
        }
        out.push(e.1);
        proof {
            j = j + 1;
            assert(out@ =~= target.take(j).map_values(|e: (Seq<u64>, (String, T))| e.1));
        }
    }
    assert(target.take(j) =~= target);
    out
}

/// Where the root filesystem stands in a list of mount points: the first
/// entry that is `/`.
pub open spec fn spec_root_position(mounts: Seq<Seq<char>>) -> Option<int> {
    if exists|k: int| 0 <= k < mounts.len() && #[trigger] mounts[k] == "/"@ {
        Some(
            choose|k: int|
                0 <= k < mounts.len() && #[trigger] mounts[k] == "/"@ && forall|j: int|
                    0 <= j < k ==> mounts[j] != "/"@,
        )
    } else {
        None
    }
}

pub open spec fn string_views(s: Seq<String>) -> Seq<Seq<char>> {
    s.map_values(|m: String| m@)
}

/// The index of the root filesystem among `mounts`, which stands in for
/// "the disk" on the overview.
pub fn root_position(mounts: &[String]) -> (k: Option<usize>)
    ensures
        k is None <==> spec_root_position(string_views(mounts@)) is None,
        k matches Some(i) ==> spec_root_position(string_views(mounts@)) == Some(i as int),
{
    let ghost m = string_views(mounts@);
    let mut i: usize = 0;
    while i < mounts.len()
        invariant
            i <= mounts.len(),
            m == string_views(mounts@),
            forall|j: int| 0 <= j < i ==> m[j] != "/"@,
        decreases mounts.len() - i,
    {
        let s = chars_of(mounts[i].as_str());
        assert(m[i as int] == mounts@[i as int]@);
        if chars_eq_str(&s, "/") {
            let ghost w = choose|k: int|
                0 <= k < m.len() && #[trigger] m[k] == "/"@ && forall|j: int|
                    0 <= j < k ==> m[j] != "/"@;
            assert(w == i) by {
                if w < i {
                    assert(m[w] != "/"@);
                } else if w > i {
                    assert(m[i as int] != "/"@);
                }
            }
            return Some(i);
        }
        i = i + 1;
    }
    None
}

/// The size of a filesystem and the space its users can still fill, in
/// bytes, from what `statvfs` reports: the fragment size is the block size
/// unless it is zero, and `bavail` leaves out the blocks kept for root.
/// `None` for a pseudo-filesystem that reports no size.
pub open spec fn spec_disk_usage(frsize: u64, bsize: u64, blocks: u64, bavail: u64) -> Option<
    (nat, nat),
> {
    let block = if frsize > 0 {
        frsize
    } else {
        bsize
    };
    if blocks * block > 0 {
        Some(((blocks * block) as nat, (bavail * block) as nat))
    } else {
        None
    }
}

pub fn disk_usage(frsize: u64, bsize: u64, blocks: u64, bavail: u64) -> (usage: Option<(u64, u64)>)
    requires
        blocks * (if frsize > 0 {
            frsize
        } else {
            bsize
        }) <= u64::MAX,
        bavail * (if frsize > 0 {
            frsize
        } else {
            bsize
        }) <= u64::MAX,
    ensures
        usage is None <==> spec_disk_usage(frsize, bsize, blocks, bavail) is None,
        usage matches Some((total, free)) ==> spec_disk_usage(frsize, bsize, blocks, bavail)
            == Some((total as nat, free as nat)),
{
    let block = if frsize > 0 {
        frsize
    } else {
        bsize
    };
    let total = blocks * block;
    let free = bavail * block;
    if total > 0 {
        Some((total, free))
    } else {
        None
    }
}

/// Disk throughput bookkeeping that must survive between refreshes.
pub struct StorageCollector {
    pub io: RateMeter,
}

impl StorageCollector {
    pub fn new() -> (c: Self)
        ensures
            c.io.at is None,
            c.io.last == (0u64, 0u64),
    {
        StorageCollector { io: RateMeter::new() }
    }

    /// Records the sector totals read at `now`, in bytes, returning when the
    /// previous sample was taken and how many bytes were read and written
    /// since.
    pub fn sample_io(&mut self, sectors_read: u64, sectors_written: u64, now: Instant) -> (since: Option<
        (Instant, u64, u64),
    >)
        requires
            sectors_read * SECTOR_BYTES <= u64::MAX,
            sectors_written * SECTOR_BYTES <= u64::MAX,
        ensures
            final(self).io.last == (
                (sectors_read * SECTOR_BYTES) as u64,
                (sectors_written * SECTOR_BYTES) as u64,
            ),
            final(self).io.at == Some(now),
            match old(self).io.at {
                None => since is None,
                Some(prev) => since == Some(
                    (
                        prev,
                        (if sectors_read * SECTOR_BYTES >= old(self).io.last.0 {
                            sectors_read * SECTOR_BYTES - old(self).io.last.0
                        } else {
                            0
                        }) as u64,
                        (if sectors_written * SECTOR_BYTES >= old(self).io.last.1 {
                            sectors_written * SECTOR_BYTES - old(self).io.last.1
                        } else {
                            0
                        }) as u64,
                    ),
                ),
            },
    {
        self.io.sample_counts(sectors_read * SECTOR_BYTES, sectors_written * SECTOR_BYTES, now)
    }
}

impl Default for StorageCollector {
    fn default() -> (c: Self)
        ensures
            c.io.at is None,
            c.io.last == (0u64, 0u64),
    {
        StorageCollector::new()
    }
}

/// The root filesystem, when it is among the partitions, is listed first;
/// every partition after it in alphabetical order; and the list holds
/// exactly the partitions given.
pub proof fn root_partition_comes_first<T>(partitions: Seq<(String, T)>)
    ensures
        partition_order(partitions).to_multiset() == partitions.to_multiset(),
        (exists|k: int| 0 <= k < partitions.len() && #[trigger] partitions[k].0@ == "/"@)
            ==> partition_order(partitions)[0].0@ == "/"@,
        forall|i: int, j: int|
            0 <= i < j < partition_order(partitions).len() ==> key_le(
                mount_key(partition_order(partitions)[i].0@),
                mount_key(partition_order(partitions)[j].0@),
            ),
{
    broadcast use vstd::seq_lib::group_to_multiset_ensures;

    let s = with_mount_keys(partitions);
    let t = sort_by_key(s);
    sorted_by_key(s);
    sort_is_permutation(s);
    assert forall|k: int| 0 <= k < t.len() implies #[trigger] t[k].0 == mount_key(t[k].1.0@) by {
        assert(t.to_multiset().count(t[k]) > 0);
        assert(s.contains(t[k]));
    }
    let g = |e: (Seq<u64>, (String, T))| e.1;
    lemma_map_keeps_multiset(t, s, g);
    assert(partition_order(partitions) =~= t.map_values(g));
    assert forall|i: int, j: int| 0 <= i < j < partition_order(partitions).len() implies key_le(
        mount_key(partition_order(partitions)[i].0@),
        mount_key(partition_order(partitions)[j].0@),
    ) by {
        assert(key_le(t[i].0, t[j].0));
        assert(t[i].0 == mount_key(t[i].1.0@));
        assert(t[j].0 == mount_key(t[j].1.0@));
    }
    assert(s.map_values(g) =~= partitions);
    if exists|k: int| 0 <= k < partitions.len() && #[trigger] partitions[k].0@ == "/"@ {
        let k = choose|k: int| 0 <= k < partitions.len() && #[trigger] partitions[k].0@ == "/"@;
        assert(s[k] == (mount_key("/"@), partitions[k]));
        assert(s.to_multiset().count(s[k]) > 0);
        assert(t.contains(s[k]));
        let q = choose|q: int| 0 <= q < t.len() && t[q] == s[k];
        if t[0].1.0@ != "/"@ {
            assert(q != 0);
            assert(key_le(t[0].0, t[q].0));
            assert(t[0].0[0] == 1u64);
            assert(t[q].0[0] == 0u64);
        }
    }
}

proof fn lemma_scan_distinct(ls: Seq<Seq<char>>)
    ensures
        ({
            let st = mount_lines(MountScan { seen: seq![], kept: seq![] }, ls);
            &&& st.seen.len() == st.kept.len()
            &&& forall|i: int| 0 <= i < st.kept.len() ==> #[trigger] st.kept[i].0 == st.seen[i]
            &&& forall|i: int, j: int| 0 <= i < j < st.seen.len() ==> st.seen[i] != st.seen[j]
            &&& forall|i: int| 0 <= i < st.seen.len() ==> !is_ignored_mount(#[trigger] st.seen[i])
        }),
    decreases ls.len(),
{
    if ls.len() > 0 {
        lemma_scan_distinct(ls.drop_last());
        let prev = mount_lines(MountScan { seen: seq![], kept: seq![] }, ls.drop_last());
        let st = mount_lines(MountScan { seen: seq![], kept: seq![] }, ls);
        assert(st == mount_line(prev, ls.last()));
        if st != prev {
            let f = words(ls.last());
            let mount = f[1];
            assert(!prev.seen.contains(mount));
            assert(st.seen == prev.seen.push(mount));
            assert forall|i: int, j: int| 0 <= i < j < st.seen.len() implies st.seen[i]
                != st.seen[j] by {
                if j == st.seen.len() - 1 {
                    assert(st.seen[i] == prev.seen[i]);
                }
            }
        }
    }
}

/// The mounted filesystems listed are distinct: no mount point appears
/// twice, and none is one of the [`IGNORED_MOUNTS`].
pub proof fn mounts_are_listed_once(mounts: Option<Seq<char>>)
    ensures
        forall|i: int, j: int|
            0 <= i < j < spec_select_mounts(mounts).len() ==> spec_select_mounts(mounts)[i].0
                != spec_select_mounts(mounts)[j].0,
        forall|i: int|
            0 <= i < spec_select_mounts(mounts).len() ==> !is_ignored_mount(
                #[trigger] spec_select_mounts(mounts)[i].0,
            ),
{
    match read_trimmed(mounts) {
        None => {},
        Some(content) => {
            lemma_scan_distinct(lines(content));
            let st = mount_lines(MountScan { seen: seq![], kept: seq![] }, lines(content));
            assert forall|i: int, j: int| 0 <= i < j < st.kept.len() implies st.kept[i].0
                != st.kept[j].0 by {
                assert(st.kept[i].0 == st.seen[i]);
                assert(st.kept[j].0 == st.seen[j]);
            }
            assert forall|i: int| 0 <= i < st.kept.len() implies !is_ignored_mount(
                #[trigger] st.kept[i].0,
            ) by {
                assert(st.kept[i].0 == st.seen[i]);
            }
        },
    }
}

/// No listed mount point starts with, or contains, any of the
/// [`IGNORED_MOUNTS`].
pub proof fn no_ignored_mount_is_listed(mounts: Option<Seq<char>>)
    ensures
        forall|m: int, i: int|
            0 <= m < spec_select_mounts(mounts).len() && 0 <= i < 4 ==> !starts_with(
                #[trigger] spec_select_mounts(mounts)[m].0,
                #[trigger] IGNORED_MOUNTS[i]@,
            ) && !contains(spec_select_mounts(mounts)[m].0, IGNORED_MOUNTS[i]@),
{
    mounts_are_listed_once(mounts);
    assert(IGNORED_MOUNTS[0]@ == "/var/"@);
    assert(IGNORED_MOUNTS[1]@ == "/snap"@);
    assert(IGNORED_MOUNTS[2]@ == "/root"@);
    assert(IGNORED_MOUNTS[3]@ == "/srv"@);
    assert forall|m: int, i: int|
        0 <= m < spec_select_mounts(mounts).len() && 0 <= i < 4 implies !starts_with(
        #[trigger] spec_select_mounts(mounts)[m].0,
        #[trigger] IGNORED_MOUNTS[i]@,
    ) && !contains(spec_select_mounts(mounts)[m].0, IGNORED_MOUNTS[i]@) by {
        assert(!is_ignored_mount(spec_select_mounts(mounts)[m].0));
    }
}

} // verus!
