//! Host, memory, network and per-process readings from `/proc` and `/etc`.
use std::collections::HashMap;
use std::time::Instant;
use vstd::prelude::*;

use crate::order::{
    key_le, keyed, lemma_sort_map, map_items, sort_by_key, sort_is_permutation, sort_keyed,
    sorted_by_key,
};

use crate::text::{
    chars_eq_str,
    chars_of,
    dec,
    ends_with,
    file_view,
    find_char,
    first_index_of,
    has_prefix,
    has_suffix,
    lines,
    parse_u64,
    parse_u64_chars,
    push_dec,
    push_str,
    read_trimmed,
    rfind_char,
    slice_of,
    split_lines,
    split_words,
    starts_with,
    string_of,
    trim,
    trimmed,
    views,
    words,
};

verus! {

broadcast use vstd::std_specs::hash::group_hash_axioms;

// ---------------------------------------------------------------------------
// Host
// ---------------------------------------------------------------------------

/// The hostname: `/proc/sys/kernel/hostname`, else `/etc/hostname`, each
/// trimmed and only if not empty; "Linux" when neither says.
pub open spec fn spec_hostname(kernel: Option<Seq<char>>, etc: Option<Seq<char>>) -> Seq<char> {
    match read_trimmed(kernel) {
        Some(h) if h.len() > 0 => h,
        _ => match read_trimmed(etc) {
            Some(h) if h.len() > 0 => h,
            _ => "Linux"@,
        },
    }
}

pub fn read_hostname(kernel: Option<&str>, etc: Option<&str>) -> (name: String)
    ensures
        name@ == spec_hostname(file_view(kernel), file_view(etc)),
{
    match kernel {
        Some(raw) => {
            let t = trimmed(&chars_of(raw));
            if t.len() > 0 {
                return string_of(&t);
            }
        },
        None => {},
    }
    match etc {
        Some(raw) => {
            let t = trimmed(&chars_of(raw));
            if t.len() > 0 {
                return string_of(&t);
            }
        },
        None => {},
    }
    String::from_str("Linux")
}

/// `s` without any leading `"`.
pub open spec fn trim_quotes_start(s: Seq<char>) -> Seq<char>
    decreases s.len(),
{
    if s.len() > 0 && s[0] == '"' {
        trim_quotes_start(s.drop_first())
    } else {
        s
    }
}

/// `s` without any trailing `"`.
pub open spec fn trim_quotes_end(s: Seq<char>) -> Seq<char>
    decreases s.len(),
{
    if s.len() > 0 && s.last() == '"' {
        trim_quotes_end(s.drop_last())
    } else {
        s
    }
}

/// The first line of `ls` that starts with `PRETTY_NAME=`.
pub open spec fn first_pretty_name(ls: Seq<Seq<char>>) -> Option<Seq<char>>
    decreases ls.len(),
{
    if ls.len() == 0 {
        None
    } else if starts_with(ls[0], "PRETTY_NAME="@) {
        Some(ls[0])
    } else {
        first_pretty_name(ls.drop_first())
    }
}

/// The distribution's name: the value of the first `PRETTY_NAME=` line of
/// `/etc/os-release` with its quotes stripped; "Linux" when there is none.
pub open spec fn spec_os_name(os_release: Option<Seq<char>>) -> Seq<char> {
    match os_release {
        None => "Linux"@,
        Some(content) => match first_pretty_name(lines(content)) {
            None => "Linux"@,
            Some(line) => trim_quotes_end(trim_quotes_start(line.skip(12))),
        },
    }
}

pub fn read_os_name(os_release: Option<&str>) -> (name: String)
    ensures
        name@ == spec_os_name(file_view(os_release)),
{
    let Some(raw) = os_release else {
        return String::from_str("Linux");
    };
    let chars = chars_of(raw);
    let ls = split_lines(&chars);
    let ghost all = views(ls@);
    assert(all.skip(0) =~= all);
    let mut i: usize = 0;
    while i < ls.len()
        invariant
            i <= ls.len(),
            all == views(ls@),
            spec_os_name(file_view(os_release)) == match first_pretty_name(all) {
                None => "Linux"@,
                Some(line) => trim_quotes_end(trim_quotes_start(line.skip(12))),
            },
            first_pretty_name(all) == first_pretty_name(all.skip(i as int)),
        decreases ls.len() - i,
    {
        let ghost rest = all.skip(i as int);
        assert(rest[0] == all[i as int]);
        assert(rest.drop_first() =~= all.skip(i + 1));
        assert(all[i as int] == ls@[i as int]@);
        let line = &ls[i];
        if has_prefix(line, "PRETTY_NAME=") {
            proof {
                reveal_strlit("PRETTY_NAME=");
            }
            let mut lo: usize = 12;
            let mut hi: usize = line.len();
            let ghost v = line@.skip(12);
            assert(v =~= line@.subrange(12, line@.len() as int));
            while lo < hi && line[lo] == '"'
                invariant
                    12 <= lo <= hi == line.len(),
                    trim_quotes_start(v) == trim_quotes_start(line@.subrange(lo as int, hi as int)),
                decreases hi - lo,
            {
                assert(line@.subrange(lo as int, hi as int).drop_first() =~= line@.subrange(
                    lo + 1,
                    hi as int,
                ));
                lo = lo + 1;
            }
            let ghost u = line@.subrange(lo as int, hi as int);
            assert(trim_quotes_start(u) == u);
            while hi > lo && line[hi - 1] == '"'
                invariant
                    12 <= lo <= hi <= line.len(),
                    trim_quotes_end(u) == trim_quotes_end(line@.subrange(lo as int, hi as int)),
                decreases hi,
            {
                assert(line@.subrange(lo as int, hi as int).drop_last() =~= line@.subrange(
                    lo as int,
                    hi - 1,
                ));
                hi = hi - 1;
            }
            assert(first_pretty_name(rest) == Some(all[i as int]));
            return string_of(&slice_of(line, lo, hi));
        }
        i = i + 1;
    }
    String::from_str("Linux")
}

/// The kernel release from `/proc/sys/kernel/osrelease`, trimmed; "Linux"
/// when unreadable.
pub fn kernel_release(osrelease: Option<&str>) -> (release: String)
    ensures
        release@ == match file_view(osrelease) {
            Some(s) => trim(s),
            None => "Linux"@,
        },
{
    match osrelease {
        Some(raw) => string_of(&trimmed(&chars_of(raw))),
        None => String::from_str("Linux"),
    }
}

// ---------------------------------------------------------------------------
// Memory
// ---------------------------------------------------------------------------

/// The value of a `/proc/meminfo` line such as `MemTotal:  32768 kB`: its
/// second field, 0 when missing or malformed.
pub open spec fn spec_meminfo_kb(line: Seq<char>) -> u64 {
    let parts = words(line);
    if parts.len() >= 2 {
        match parse_u64(parts[1]) {
            Some(v) => v,
            None => 0,
        }
    } else {
        0
    }
}

pub fn parse_meminfo_kb(line: &str) -> (kb: u64)
    ensures
        kb == spec_meminfo_kb(line@),
{
    let parts = split_words(&chars_of(line));
    if parts.len() >= 2 {
        match parse_u64_chars(&parts[1]) {
            Some(v) => v,
            None => 0,
        }
    } else {
        0
    }
}

fn meminfo_kb_chars(line: &Vec<char>) -> (kb: u64)
    ensures
        kb == spec_meminfo_kb(line@),
{
    let parts = split_words(line);
    if parts.len() >= 2 {
        match parse_u64_chars(&parts[1]) {
            Some(v) => v,
            None => 0,
        }
    } else {
        0
    }
}

/// The `/proc/meminfo` fields the memory tab shows, in kB.
#[derive(Clone, Copy, Debug, PartialEq, Eq, Structural)]
pub struct Meminfo {
    pub total_kb: u64,
    pub avail_kb: u64,
    pub committed_kb: u64,
    pub cached_kb: u64,
    pub buffers_kb: u64,
    pub swap_total_kb: u64,
    pub swap_free_kb: u64,
}

pub open spec fn no_meminfo() -> Meminfo {
    Meminfo {
        total_kb: 0,
        avail_kb: 0,
        committed_kb: 0,
        cached_kb: 0,
        buffers_kb: 0,
        swap_total_kb: 0,
        swap_free_kb: 0,
    }
}

/// Takes in one `/proc/meminfo` line: the first of the keys it starts with
/// sets that field.
pub open spec fn meminfo_line(m: Meminfo, line: Seq<char>) -> Meminfo {
    let v = spec_meminfo_kb(line);
    if starts_with(line, "MemTotal:"@) {
        Meminfo { total_kb: v, ..m }
    } else if starts_with(line, "MemAvailable:"@) {
        Meminfo { avail_kb: v, ..m }
    } else if starts_with(line, "Committed_AS:"@) {
        Meminfo { committed_kb: v, ..m }
    } else if starts_with(line, "Cached:"@) {
        Meminfo { cached_kb: v, ..m }
    } else if starts_with(line, "Buffers:"@) {
        Meminfo { buffers_kb: v, ..m }
    } else if starts_with(line, "SwapTotal:"@) {
        Meminfo { swap_total_kb: v, ..m }
    } else if starts_with(line, "SwapFree:"@) {
        Meminfo { swap_free_kb: v, ..m }
    } else {
        m
    }
}

pub open spec fn meminfo_lines(ls: Seq<Seq<char>>) -> Meminfo
    decreases ls.len(),
{
    if ls.len() == 0 {
        no_meminfo()
    } else {
        meminfo_line(meminfo_lines(ls.drop_last()), ls.last())
    }
}

/// The fields of `/proc/meminfo` (as read, untrimmed; `None` when
/// unreadable); a later line for the same key wins, a missing key reads 0.
pub open spec fn spec_read_meminfo(meminfo: Option<Seq<char>>) -> Meminfo {
    match meminfo {
        None => no_meminfo(),
        Some(content) => meminfo_lines(lines(content)),
    }
}

pub fn read_meminfo(meminfo: Option<&str>) -> (m: Meminfo)
    ensures
        m == spec_read_meminfo(file_view(meminfo)),
{
    let mut m = Meminfo {
        total_kb: 0,
        avail_kb: 0,
        committed_kb: 0,
        cached_kb: 0,
        buffers_kb: 0,
        swap_total_kb: 0,
        swap_free_kb: 0,
    };
    let Some(raw) = meminfo else {
        return m;
    };
    let chars = chars_of(raw);
    let ls = split_lines(&chars);
    let ghost all = views(ls@);
    let mut i: usize = 0;
    assert(all.take(0) =~= Seq::<Seq<char>>::empty());
    while i < ls.len()
        invariant
            i <= ls.len(),
            all == views(ls@),
            m == meminfo_lines(all.take(i as int)),
        decreases ls.len() - i,
    {
        assert(all.take(i + 1).drop_last() =~= all.take(i as int));
        assert(all[i as int] == ls@[i as int]@);
        let line = &ls[i];
        let v = meminfo_kb_chars(line);
        if has_prefix(line, "MemTotal:") {
            m.total_kb = v;
        } else if has_prefix(line, "MemAvailable:") {
            m.avail_kb = v;
        } else if has_prefix(line, "Committed_AS:") {
            m.committed_kb = v;
        } else if has_prefix(line, "Cached:") {
            m.cached_kb = v;
        } else if has_prefix(line, "Buffers:") {
            m.buffers_kb = v;
        } else if has_prefix(line, "SwapTotal:") {
            m.swap_total_kb = v;
        } else if has_prefix(line, "SwapFree:") {
            m.swap_free_kb = v;
        }
        i = i + 1;
    }
    assert(all.take(i as int) =~= all);
    m
}

/// Memory figures in bytes.
#[derive(Clone, Copy, Debug, PartialEq, Eq, Structural)]
pub struct MemoryBytes {
    pub total: u64,
    pub used: u64,
    pub available: u64,
    pub committed: u64,
    /// Page cache plus buffers.
    pub cached: u64,
    pub swap_total: u64,
    pub swap_used: u64,
    pub swap_avail: u64,
}

impl Meminfo {
    /// Memory in use: total less available, never negative.
    pub open spec fn spec_used_kb(self) -> u64 {
        if self.total_kb >= self.avail_kb {
            (self.total_kb - self.avail_kb) as u64
        } else {
            0
        }
    }

    pub open spec fn spec_swap_used_kb(self) -> u64 {
        if self.swap_total_kb >= self.swap_free_kb {
            (self.swap_total_kb - self.swap_free_kb) as u64
        } else {
            0
        }
    }

    /// Every figure converts to bytes without overflowing.
    pub open spec fn fits_in_bytes(self) -> bool {
        &&& self.total_kb * 1024 <= u64::MAX
        &&& self.avail_kb * 1024 <= u64::MAX
        &&& self.committed_kb * 1024 <= u64::MAX
        &&& (self.cached_kb + self.buffers_kb) * 1024 <= u64::MAX
        &&& self.swap_total_kb * 1024 <= u64::MAX
        &&& self.swap_free_kb * 1024 <= u64::MAX
    }

    pub fn used_kb(&self) -> (kb: u64)
        ensures
            kb == self.spec_used_kb(),
    {
        self.total_kb.saturating_sub(self.avail_kb)
    }

    pub fn bytes_fit(&self) -> (ok: bool)
        ensures
            ok == self.fits_in_bytes(),
    {
        self.total_kb <= u64::MAX / 1024 && self.avail_kb <= u64::MAX / 1024 && self.committed_kb
            <= u64::MAX / 1024 && self.cached_kb <= u64::MAX / 1024 && self.buffers_kb <= u64::MAX
            / 1024 - self.cached_kb && self.swap_total_kb <= u64::MAX / 1024 && self.swap_free_kb
            <= u64::MAX / 1024
    }

    /// The figures in bytes.
    pub fn bytes(&self) -> (b: MemoryBytes)
        requires
            self.fits_in_bytes(),
        ensures
            b.total == self.total_kb * 1024,
            b.used == self.spec_used_kb() * 1024,
            b.available == self.avail_kb * 1024,
            b.committed == self.committed_kb * 1024,
            b.cached == (self.cached_kb + self.buffers_kb) * 1024,
            b.swap_total == self.swap_total_kb * 1024,
            b.swap_used == self.spec_swap_used_kb() * 1024,
            b.swap_avail == self.swap_free_kb * 1024,
    {
        MemoryBytes {
            total: self.total_kb * 1024,
            used: self.total_kb.saturating_sub(self.avail_kb) * 1024,
            available: self.avail_kb * 1024,
            committed: self.committed_kb * 1024,
            cached: (self.cached_kb + self.buffers_kb) * 1024,
            swap_total: self.swap_total_kb * 1024,
            swap_used: self.swap_total_kb.saturating_sub(self.swap_free_kb) * 1024,
            swap_avail: self.swap_free_kb * 1024,
        }
    }
}

// ---------------------------------------------------------------------------
// Network
// ---------------------------------------------------------------------------

/// `s` without any trailing `:`.
pub open spec fn trim_colons_end(s: Seq<char>) -> Seq<char>
    decreases s.len(),
{
    if s.len() > 0 && s.last() == ':' {
        trim_colons_end(s.drop_last())
    } else {
        s
    }
}

pub open spec fn parsed_or_zero(s: Option<Seq<char>>) -> nat {
    match s {
        Some(t) => match parse_u64(t) {
            Some(v) => v as nat,
            None => 0,
        },
        None => 0,
    }
}

pub open spec fn part(parts: Seq<Seq<char>>, i: int) -> Option<Seq<char>> {
    if 0 <= i < parts.len() {
        Some(parts[i])
    } else {
        None
    }
}

/// Bytes received and sent through one `/proc/net/dev` interface line, the
/// loopback device counting for nothing. The interface name is followed by
/// a colon that may or may not be separated from the first counter.
pub open spec fn net_line(line: Seq<char>) -> (nat, nat) {
    let parts = words(line);
    if parts.len() == 0 || trim_colons_end(parts[0]) == "lo"@ {
        (0, 0)
    } else if ends_with(parts[0], ":"@) {
        (parsed_or_zero(part(parts, 1)), parsed_or_zero(part(parts, 9)))
    } else {
        match first_index_of(parts[0], ':') {
            Some(idx) => (parsed_or_zero(Some(parts[0].skip(idx + 1))), parsed_or_zero(part(parts, 8))),
            None => (parsed_or_zero(part(parts, 1)), parsed_or_zero(part(parts, 9))),
        }
    }
}

pub open spec fn net_totals(ls: Seq<Seq<char>>) -> (nat, nat)
    decreases ls.len(),
{
    if ls.len() == 0 {
        (0, 0)
    } else {
        let (r, t) = net_totals(ls.drop_last());
        let (dr, dt) = net_line(ls.last());
        (r + dr, t + dt)
    }
}

/// Bytes received and sent across all interfaces but loopback, from
/// `/proc/net/dev` (as read, untrimmed; `(0, 0)` when unreadable), whose
/// first two lines are headers.
pub open spec fn spec_net_bytes(net_dev: Option<Seq<char>>) -> (nat, nat) {
    match net_dev {
        None => (0, 0),
        Some(content) => {
            let ls = lines(content);
            if ls.len() <= 2 {
                (0, 0)
            } else {
                net_totals(ls.skip(2))
            }
        },
    }
}

fn parse_or_zero(s: &[char]) -> (v: u64)
    ensures
        v == parsed_or_zero(Some(s@)),
{
    match parse_u64_chars(s) {
        Some(v) => v,
        None => 0,
    }
}

fn part_or_zero(parts: &Vec<Vec<char>>, i: usize) -> (v: u64)
    ensures
        v == parsed_or_zero(part(views(parts@), i as int)),
{
    if i < parts.len() {
        parse_or_zero(&parts[i])
    } else {
        0
    }
}

fn net_line_of(line: &Vec<char>) -> (r: (u64, u64))
    ensures
        (r.0 as nat, r.1 as nat) == net_line(line@),
{
    let parts = split_words(line);
    let ghost p = views(parts@);
    if parts.len() == 0 {
        return (0, 0);
    }
    let name = &parts[0];
    let mut end = name.len();
    assert(name@.take(end as int) =~= name@);
    while end > 0 && name[end - 1] == ':'
        invariant
            end <= name.len(),
            trim_colons_end(name@) == trim_colons_end(name@.take(end as int)),
        decreases end,
    {
        assert(name@.take(end as int).drop_last() =~= name@.take(end - 1));
        end = end - 1;
    }
    assert(trim_colons_end(name@.take(end as int)) == name@.take(end as int));
    let iface = slice_of(name, 0, end);
    assert(iface@ =~= name@.take(end as int));
    if chars_eq_str(&iface, "lo") {
        return (0, 0);
    }
    if has_suffix(name, ":") {
        return (part_or_zero(&parts, 1), part_or_zero(&parts, 9));
    }
    match find_char(name, ':') {
        Some(idx) => {
            let ghost w = choose|i: int|
                0 <= i < name@.len() && name@[i] == ':' && forall|j: int| 0 <= j < i ==> name@[j] != ':';
            assert(w == idx) by {
                if w < idx {
                    assert(name@[w] != ':');
                } else if w > idx {
                    assert(name@[idx as int] != ':');
                }
            }
            let rx = slice_of(name, idx + 1, name.len());
            assert(rx@ =~= name@.skip(idx + 1));
            (parse_or_zero(&rx), part_or_zero(&parts, 8))
        },
        None => (part_or_zero(&parts, 1), part_or_zero(&parts, 9)),
    }
}

proof fn lemma_net_totals_grow(ls: Seq<Seq<char>>, k: int)
    requires
        0 <= k <= ls.len(),
    ensures
        net_totals(ls.take(k)).0 <= net_totals(ls).0,
        net_totals(ls.take(k)).1 <= net_totals(ls).1,
    decreases ls.len(),
{
    if k < ls.len() {
        assert(ls.drop_last().take(k) =~= ls.take(k));
        lemma_net_totals_grow(ls.drop_last(), k);
    } else {
        assert(ls.take(k) =~= ls);
    }
}

/// Totals bytes received and sent across all interfaces but loopback.
pub fn read_net_bytes(net_dev: Option<&str>) -> (bytes: (u64, u64))
    requires
        spec_net_bytes(file_view(net_dev)).0 <= u64::MAX,
        spec_net_bytes(file_view(net_dev)).1 <= u64::MAX,
    ensures
        (bytes.0 as nat, bytes.1 as nat) == spec_net_bytes(file_view(net_dev)),
{
    let Some(raw) = net_dev else {
        return (0, 0);
    };
    let chars = chars_of(raw);
    let ls = split_lines(&chars);
    if ls.len() <= 2 {
        return (0, 0);
    }
    let ghost all = views(ls@).skip(2);
    let mut rx: u64 = 0;
    let mut tx: u64 = 0;
    let mut i: usize = 2;
    assert(all.take(0) =~= Seq::<Seq<char>>::empty());
    while i < ls.len()
        invariant
            2 <= i <= ls.len(),
            all == views(ls@).skip(2),
            net_totals(all).0 <= u64::MAX,
            net_totals(all).1 <= u64::MAX,
            (rx as nat, tx as nat) == net_totals(all.take(i - 2)),
        decreases ls.len() - i,
    {
        assert(all.take(i - 1).drop_last() =~= all.take(i - 2));
        assert(all[i - 2] == ls@[i as int]@);
        proof {
            lemma_net_totals_grow(all, i - 1);
        }
        let (r, t) = net_line_of(&ls[i]);
        rx = rx + r;
        tx = tx + t;
        i = i + 1;
    }
    assert(all.take(i - 2) =~= all);
    (rx, tx)
}

/// Whether `read_net_bytes` can total these contents without overflowing.
pub fn net_bytes_fit(net_dev: Option<&str>) -> (ok: bool)
    ensures
        ok == (spec_net_bytes(file_view(net_dev)).0 <= u64::MAX && spec_net_bytes(
            file_view(net_dev),
        ).1 <= u64::MAX),
{
    let Some(raw) = net_dev else {
        return true;
    };
    let chars = chars_of(raw);
    let ls = split_lines(&chars);
    if ls.len() <= 2 {
        return true;
    }
    let ghost all = views(ls@).skip(2);
    let mut rx: u128 = 0;
    let mut tx: u128 = 0;
    let mut i: usize = 2;
    assert(all.take(0) =~= Seq::<Seq<char>>::empty());
    while i < ls.len()
        invariant
            2 <= i <= ls.len(),
            all == views(ls@).skip(2),
            (rx as nat, tx as nat) == net_totals(all.take(i - 2)),
            rx <= i * 0xffff_ffff_ffff_ffff,
            tx <= i * 0xffff_ffff_ffff_ffff,
        decreases ls.len() - i,
    {
        assert(all.take(i - 1).drop_last() =~= all.take(i - 2));
        assert(all[i - 2] == ls@[i as int]@);
        let (r, t) = net_line_of(&ls[i]);
        assert(rx + r <= (i + 1) * 0xffff_ffff_ffff_ffff) by (nonlinear_arith)
            requires
                rx <= i * 0xffff_ffff_ffff_ffff,
                r <= 0xffff_ffff_ffff_ffffu64,
        ;
        assert(tx + t <= (i + 1) * 0xffff_ffff_ffff_ffff) by (nonlinear_arith)
            requires
                tx <= i * 0xffff_ffff_ffff_ffff,
                t <= 0xffff_ffff_ffff_ffffu64,
        ;
        rx = rx + r as u128;
        tx = tx + t as u128;
        i = i + 1;
    }
    assert(all.take(i - 2) =~= all);
    rx <= u64::MAX as u128 && tx <= u64::MAX as u128
}

// ---------------------------------------------------------------------------
// Processes
// ---------------------------------------------------------------------------

/// The command name and CPU ticks (user plus system) of a process, from its
/// `/proc/<pid>/stat` line `pid (comm) state ppid ...`: the name is between
/// the first `(` and the last `)`, and the ticks are the 12th and 13th fields
/// after the state, a malformed one counting as zero. `None` when the line is
/// too short or its parentheses are out of order.
pub open spec fn spec_proc_stat_ticks(content: Seq<char>) -> Option<(Seq<char>, nat)> {
    match (first_index_of(content, '('), last_index_of(content, ')')) {
        (Some(l), Some(r)) => if l < r && content.len() - r - 1 >= 2 {
            let parts = words(content.skip(r + 2));
            if parts.len() >= 13 {
                Some(
                    (
                        content.subrange(l + 1, r),
                        parsed_or_zero(Some(parts[11])) + parsed_or_zero(Some(parts[12])),
                    ),
                )
            } else {
                None
            }
        } else {
            None
        },
        _ => None,
    }
}

/// The last index of `c` in `s`.
pub open spec fn last_index_of(s: Seq<char>, c: char) -> Option<int> {
    if s.contains(c) {
        Some(choose|i: int| 0 <= i < s.len() && s[i] == c && forall|j: int| i < j < s.len() ==> s[j] != c)
    } else {
        None
    }
}

/// The line can be cut after the name: the character after the
/// last `)`, when the parentheses are in order, is one byte long, and the
/// ticks add up without overflowing.
pub open spec fn proc_stat_well_cut(content: Seq<char>) -> bool {
    match (first_index_of(content, '('), last_index_of(content, ')')) {
        (Some(l), Some(r)) => l < r && r + 1 < content.len() ==> {
            &&& (content[r + 1] as u32) < 0x80
            &&& (content.len() - r - 1 >= 2 ==> {
                let parts = words(content.skip(r + 2));
                parts.len() >= 13 ==> parsed_or_zero(Some(parts[11])) + parsed_or_zero(
                    Some(parts[12]),
                ) <= u64::MAX
            })
        },
        _ => true,
    }
}

pub fn proc_stat_ticks(content: &str) -> (r: Option<(String, u64)>)
    requires
        proc_stat_well_cut(content@),
    ensures
        r is Some <==> spec_proc_stat_ticks(content@) is Some,
        r matches Some((name, ticks)) ==> spec_proc_stat_ticks(content@) == Some(
            (name@, ticks as nat),
        ),
{
    let s = chars_of(content);
    let l = find_char(&s, '(')?;
    let r = rfind_char(&s, ')')?;
    proof {
        let lw = choose|i: int|
            0 <= i < s@.len() && s@[i] == '(' && forall|j: int| 0 <= j < i ==> s@[j] != '(';
        assert(lw == l) by {
            if lw < l {
                assert(s@[lw] != '(');
            } else if lw > l {
                assert(s@[l as int] != '(');
            }
        }
        let rw = choose|i: int|
            0 <= i < s@.len() && s@[i] == ')' && forall|j: int| i < j < s@.len() ==> s@[j] != ')';
        assert(rw == r) by {
            if rw < r {
                assert(s@[rw] != ')');
            } else if rw > r {
                assert(s@[r as int] != ')');
            }
        }
    }
    if !(l < r && s.len() - r - 1 >= 2) {
        return None;
    }
    let rest = slice_of(&s, r + 2, s.len());
    assert(rest@ =~= s@.skip(r + 2));
    let parts = split_words(&rest);
    if parts.len() < 13 {
        return None;
    }
    let utime = parse_or_zero(&parts[11]);
    let stime = parse_or_zero(&parts[12]);
    let comm = slice_of(&s, l + 1, r);
    Some((string_of(&comm), utime + stime))
}

/// Whether `proc_stat_ticks` can take this line: the character after the last
/// `)` is one byte long and the ticks add up without overflowing.
pub fn proc_stat_fits(content: &str) -> (ok: bool)
    ensures
        ok == proc_stat_well_cut(content@),
{
    let s = chars_of(content);
    let Some(l) = find_char(&s, '(') else {
        return true;
    };
    let Some(r) = rfind_char(&s, ')') else {
        return true;
    };
    proof {
        let lw = choose|i: int|
            0 <= i < s@.len() && s@[i] == '(' && forall|j: int| 0 <= j < i ==> s@[j] != '(';
        assert(lw == l) by {
            if lw < l {
                assert(s@[lw] != '(');
            } else if lw > l {
                assert(s@[l as int] != '(');
            }
        }
        let rw = choose|i: int|
            0 <= i < s@.len() && s@[i] == ')' && forall|j: int| i < j < s@.len() ==> s@[j] != ')';
        assert(rw == r) by {
            if rw < r {
                assert(s@[rw] != ')');
            } else if rw > r {
                assert(s@[r as int] != ')');
            }
        }
    }
    if !(l < r && r + 1 < s.len()) {
        return true;
    }
    if (s[r + 1] as u32) >= 0x80 {
        return false;
    }
    if s.len() - r - 1 < 2 {
        return true;
    }
    let rest = slice_of(&s, r + 2, s.len());
    assert(rest@ =~= s@.skip(r + 2));
    let parts = split_words(&rest);
    if parts.len() < 13 {
        return true;
    }
    let utime = parse_or_zero(&parts[11]);
    let stime = parse_or_zero(&parts[12]);
    utime <= u64::MAX - stime
}

/// CPU ticks each process gained since the previous scan, for the processes
/// of `current` (`(pid, name, ticks)`) that `last` had seen too and that ran
/// at all; in the order of `current`.
pub open spec fn proc_deltas(current: Seq<(u32, String, u64)>, last: Map<u32, (String, u64)>) -> Seq<
    (Seq<char>, u64),
>
    decreases current.len(),
{
    if current.len() == 0 {
        seq![]
    } else {
        let rest = proc_deltas(current.drop_last(), last);
        let (pid, name, ticks) = current.last();
        if last.contains_key(pid) && ticks > last[pid].1 {
            rest.push((name@, (ticks - last[pid].1) as u64))
        } else {
            rest
        }
    }
}

/// The scan as a map from PID, a later entry for a PID replacing an
/// earlier one.
pub open spec fn proc_map(current: Seq<(u32, String, u64)>) -> Map<u32, (String, u64)>
    decreases current.len(),
{
    if current.len() == 0 {
        Map::empty()
    } else {
        let (pid, name, ticks) = current.last();
        proc_map(current.drop_last()).insert(pid, (name, ticks))
    }
}

/// Where `name` first appears among `totals`.
pub open spec fn name_position(totals: Seq<(Seq<char>, u64)>, name: Seq<char>) -> Option<int> {
    if exists|k: int| 0 <= k < totals.len() && #[trigger] totals[k].0 == name {
        Some(
            choose|k: int|
                0 <= k < totals.len() && #[trigger] totals[k].0 == name && forall|j: int|
                    0 <= j < k ==> totals[j].0 != name,
        )
    } else {
        None
    }
}

/// The ticks gained per command name, summed over the processes that bear
/// it (saturating at `u64::MAX`), each name once, in the order in which the
/// names first appear.
pub open spec fn name_totals(deltas: Seq<(Seq<char>, u64)>) -> Seq<(Seq<char>, u64)>
    decreases deltas.len(),
{
    if deltas.len() == 0 {
        seq![]
    } else {
        let rest = name_totals(deltas.drop_last());
        let (name, d) = deltas.last();
        match name_position(rest, name) {
            Some(k) => rest.update(
                k,
                (name, if rest[k].1 + d <= u64::MAX {
                    (rest[k].1 + d) as u64
                } else {
                    u64::MAX
                }),
            ),
            None => rest.push((name, d)),
        }
    }
}

/// Busiest first: the sort key of a name's total.
pub open spec fn usage_key(ticks: u64) -> Seq<u64> {
    seq![(u64::MAX - ticks) as u64]
}

pub open spec fn with_usage_keys(s: Seq<(Seq<char>, u64)>) -> Seq<(Seq<u64>, (Seq<char>, u64))> {
    s.map_values(|e: (Seq<char>, u64)| (usage_key(e.1), e))
}

/// The four busiest names of `totals`, busiest first; names that gained the
/// same number of ticks keep their order.
pub open spec fn top_processes(totals: Seq<(Seq<char>, u64)>) -> Seq<(Seq<char>, u64)> {
    let sorted = sort_by_key(with_usage_keys(totals)).map_values(
        |e: (Seq<u64>, (Seq<char>, u64))| e.1,
    );
    if sorted.len() <= 4 {
        sorted
    } else {
        sorted.take(4)
    }
}

/// At most four names are listed (fewer only when fewer ran), busiest
/// first; each listed entry is one of the totals, and a total left out gained
/// no more ticks than the last one listed.
pub proof fn top_processes_are_the_busiest(totals: Seq<(Seq<char>, u64)>)
    ensures
        top_processes(totals).len() == if totals.len() <= 4 {
            totals.len()
        } else {
            4
        },
        forall|i: int, j: int|
            0 <= i < j < top_processes(totals).len() ==> top_processes(totals)[i].1
                >= top_processes(totals)[j].1,
        forall|k: int|
            0 <= k < top_processes(totals).len() ==> totals.contains(
                #[trigger] top_processes(totals)[k],
            ),
        forall|q: int|
            0 <= q < totals.len() ==> top_processes(totals).contains(#[trigger] totals[q])
                || totals[q].1 <= top_processes(totals)[top_processes(totals).len() - 1].1,
{
    broadcast use vstd::seq_lib::group_to_multiset_ensures;

    let s = with_usage_keys(totals);
    let t = sort_by_key(s);
    let top = top_processes(totals);
    sorted_by_key(s);
    sort_is_permutation(s);
    assert(t.to_multiset().len() == t.len());
    assert(s.to_multiset().len() == s.len());
    assert forall|k: int| 0 <= k < t.len() implies #[trigger] t[k].0 == usage_key(t[k].1.1)
        && totals.contains(t[k].1) by {
        assert(t.to_multiset().count(t[k]) > 0);
        assert(s.contains(t[k]));
        let q = choose|q: int| 0 <= q < s.len() && s[q] == t[k];
        assert(totals[q] == t[k].1);
    }
    assert forall|k: int| 0 <= k < top.len() implies top[k] == t[k].1 by {}
    assert forall|i: int, j: int| 0 <= i < j < t.len() implies t[i].1.1 >= t[j].1.1 by {
        assert(key_le(t[i].0, t[j].0));
        assert(t[i].0 == usage_key(t[i].1.1));
        assert(t[j].0 == usage_key(t[j].1.1));
        assert(t[i].0.drop_first() =~= Seq::<u64>::empty());
    }
    assert forall|k: int| 0 <= k < top.len() implies totals.contains(#[trigger] top[k]) by {
        assert(top[k] == t[k].1);
        assert(t[k].0 == usage_key(t[k].1.1) && totals.contains(t[k].1));
    }
    assert forall|q: int| 0 <= q < totals.len() implies top.contains(#[trigger] totals[q])
        || totals[q].1 <= top[top.len() - 1].1 by {
        assert(s[q] == (usage_key(totals[q].1), totals[q]));
        assert(s.to_multiset().count(s[q]) > 0);
        assert(t.contains(s[q]));
        let m = choose|m: int| 0 <= m < t.len() && t[m] == s[q];
        if m < top.len() {
            assert(top[m] == totals[q]);
        } else {
            assert(t[3].1.1 >= t[m].1.1);
        }
    }
}

pub open spec fn named(v: Seq<(String, u64)>) -> Seq<(Seq<char>, u64)> {
    v.map_values(|d: (String, u64)| (d.0@, d.1))
}

fn find_name(totals: &Vec<(String, u64)>, name: &String) -> (k: Option<usize>)
    ensures
        k is None <==> name_position(named(totals@), name@) is None,
        k matches Some(i) ==> i < totals.len() && name_position(named(totals@), name@) == Some(
            i as int,
        ),
{
    let ghost t = named(totals@);
    let mut i: usize = 0;
    while i < totals.len()
        invariant
            i <= totals.len(),
            t == named(totals@),
            forall|j: int| 0 <= j < i ==> t[j].0 != name@,
        decreases totals.len() - i,
    {
        assert(t[i as int].0 == totals@[i as int].0@);
        if totals[i].0 == *name {
            let ghost w = choose|k: int|
                0 <= k < t.len() && #[trigger] t[k].0 == name@ && forall|j: int|
                    0 <= j < k ==> t[j].0 != name@;
            assert(t[i as int].0 == name@);
            assert(w == i) by {
                if w < i {
                    assert(t[w].0 != name@);
                } else if w > i {
                    assert(t[i as int].0 != name@);
                }
            }
            return Some(i);
        }
        i = i + 1;
    }
    None
}

fn total_by_name(deltas: &Vec<(String, u64)>) -> (totals: Vec<(String, u64)>)
    ensures
        named(totals@) == name_totals(named(deltas@)),
{
    let ghost d = named(deltas@);
    let mut totals: Vec<(String, u64)> = Vec::new();
    let mut i: usize = 0;
    assert(d.take(0) =~= Seq::<(Seq<char>, u64)>::empty());
    while i < deltas.len()
        invariant
            i <= deltas.len(),
            d == named(deltas@),
            named(totals@) == name_totals(d.take(i as int)),
        decreases deltas.len() - i,
    {
        assert(d.take(i + 1).drop_last() =~= d.take(i as int));
        assert(d.take(i + 1).last() == (deltas@[i as int].0@, deltas@[i as int].1));
        let name = &deltas[i].0;
        let ticks = deltas[i].1;
        let ghost before = named(totals@);
        match find_name(&totals, name) {
            Some(k) => {
                let sum = totals[k].1.saturating_add(ticks);
                totals.set(k, (name.clone(), sum));
                assert(named(totals@) =~= before.update(k as int, (name@, sum)));
            },
            None => {
                totals.push((name.clone(), ticks));
                assert(named(totals@) =~= before.push((name@, ticks)));
            },
        }
        i = i + 1;
    }
    assert(d.take(i as int) =~= d);
    totals
}

fn busiest(totals: Vec<(String, u64)>) -> (top: Vec<(String, u64)>)
    ensures
        named(top@) == top_processes(named(totals@)),
{
    let ghost input = named(totals@);
    let ghost f = |p: (String, u64)| (p.0@, p.1);
    let mut items: Vec<(Vec<u64>, (String, u64))> = Vec::new();
    let mut i: usize = 0;
    while i < totals.len()
        invariant
            i <= totals.len(),
            input == named(totals@),
            forall|p: (String, u64)| #[trigger] f(p) == (p.0@, p.1),
            map_items(keyed(items@), f) == with_usage_keys(input.take(i as int)),
        decreases totals.len() - i,
    {
        let mut k: Vec<u64> = Vec::new();
        k.push(u64::MAX - totals[i].1);
        assert(k@ =~= usage_key(totals@[i as int].1));
        let entry = (k, (totals[i].0.clone(), totals[i].1));
        let ghost before = keyed(items@);
        items.push(entry);
        proof {
            assert(keyed(items@) =~= before.push((entry.0@, entry.1)));
            assert(input.take(i + 1) =~= input.take(i as int).push(input[i as int]));
            assert(map_items(keyed(items@), f) =~= map_items(before, f).push(
                (entry.0@, f(entry.1)),
            ));
            assert(f(entry.1) == input[i as int]);
            assert(with_usage_keys(input.take(i + 1)) =~= with_usage_keys(input.take(i as int)).push(
                (usage_key(input[i as int].1), input[i as int]),
            ));
            assert(map_items(keyed(items@), f) =~= with_usage_keys(input.take(i + 1)));
        }
        i = i + 1;
    }
    assert(input.take(i as int) =~= input);
    let ghost unsorted = keyed(items@);
    let sorted = sort_keyed(items);
    proof {
        lemma_sort_map(unsorted, f);
    }
    let ghost target = sort_by_key(with_usage_keys(input)).map_values(
        |e: (Seq<u64>, (Seq<char>, u64))| e.1,
    );
    assert(target.len() == sorted.len());
    assert forall|m: int| 0 <= m < sorted.len() implies #[trigger] target[m] == (
        sorted@[m].1.0@,
        sorted@[m].1.1,
    ) by {
        assert(map_items(keyed(sorted@), f)[m] == (sorted@[m].0@, f(sorted@[m].1)));
    }
    let mut top: Vec<(String, u64)> = Vec::new();
    let mut j: usize = 0;
    while j < sorted.len() && j < 4
        invariant
            j <= sorted.len(),
            j <= 4,
            target.len() == sorted.len(),
            forall|m: int| 0 <= m < sorted.len() ==> #[trigger] target[m] == (
                sorted@[m].1.0@,
                sorted@[m].1.1,
            ),
            named(top@) == target.take(j as int),
        decreases sorted.len() - j,
    {
        let ghost before = named(top@);
        top.push((sorted[j].1.0.clone(), sorted[j].1.1));
        assert(target[j as int] == (sorted@[j as int].1.0@, sorted@[j as int].1.1));
        assert(named(top@) =~= before.push(target[j as int]));
        assert(target.take(j + 1) =~= target.take(j as int).push(target[j as int]));
        j = j + 1;
    }
    assert(target.len() <= 4 ==> target.take(j as int) =~= target);
    top
}

/// Network and per-process bookkeeping that must survive between refreshes.
#[derive(Debug)]
pub struct SystemCollector {
    pub last_net_rx: u64,
    pub last_net_tx: u64,
    pub last_net_time: Option<Instant>,
    /// pid -> (name, total ticks)
    pub last_procs: HashMap<u32, (String, u64)>,
    pub last_proc_time: Option<Instant>,
}

impl SystemCollector {
    pub fn new() -> (c: Self)
        ensures
            c.last_net_rx == 0,
            c.last_net_tx == 0,
            c.last_net_time is None,
            c.last_procs@ == Map::<u32, (String, u64)>::empty(),
            c.last_proc_time is None,
    {
        SystemCollector {
            last_net_rx: 0,
            last_net_tx: 0,
            last_net_time: None,
            last_procs: HashMap::new(),
            last_proc_time: None,
        }
    }

    /// Records the interface byte totals read at `now`, returning when the
    /// previous sample was taken and how many bytes were received and sent
    /// since (a counter that went backwards counting as none).
    pub fn sample_network(&mut self, rx: u64, tx: u64, now: Instant) -> (since: Option<
        (Instant, u64, u64),
    >)
        ensures
            final(self).last_net_rx == rx,
            final(self).last_net_tx == tx,
            final(self).last_net_time == Some(now),
            final(self).last_procs@ == old(self).last_procs@,
            final(self).last_proc_time == old(self).last_proc_time,
            match old(self).last_net_time {
                None => since is None,
                Some(prev) => since == Some(
                    (
                        prev,
                        (if rx >= old(self).last_net_rx {
                            rx - old(self).last_net_rx
                        } else {
                            0
                        }) as u64,
                        (if tx >= old(self).last_net_tx {
                            tx - old(self).last_net_tx
                        } else {
                            0
                        }) as u64,
                    ),
                ),
            },
    {
        let since = match self.last_net_time {
            None => None,
            Some(prev) => Some(
                (prev, rx.saturating_sub(self.last_net_rx), tx.saturating_sub(self.last_net_tx)),
            ),
        };
        self.last_net_rx = rx;
        self.last_net_tx = tx;
        self.last_net_time = Some(now);
        since
    }

    /// Records a scan of the processes (`(pid, name, ticks)`, taken at `now`)
    /// and returns, when there was an earlier scan, when it was taken and the
    /// ticks each process that ran gained since.
    fn take_process_ticks(&mut self, current: Vec<(u32, String, u64)>, now: Instant) -> (since: Option<
        (Instant, Vec<(String, u64)>),
    >)
        ensures
            final(self).last_procs@ == proc_map(current@),
            final(self).last_proc_time == Some(now),
            final(self).last_net_rx == old(self).last_net_rx,
            final(self).last_net_tx == old(self).last_net_tx,
            final(self).last_net_time == old(self).last_net_time,
            match old(self).last_proc_time {
                None => since is None,
                Some(prev) => since matches Some((at, deltas)) && at == prev && named(deltas@)
                    == proc_deltas(
                    current@,
                    old(self).last_procs@,
                ),
            },
    {
        let ghost input = current@;
        let ghost last = self.last_procs@;
        let mut deltas: Vec<(String, u64)> = Vec::new();
        let mut next: HashMap<u32, (String, u64)> = HashMap::new();
        let mut i: usize = 0;
        assert(input.take(0) =~= Seq::<(u32, String, u64)>::empty());
        while i < current.len()
            invariant
                i <= current.len(),
                input == current@,
                last == self.last_procs@,
                next@ == proc_map(input.take(i as int)),
                named(deltas@) == proc_deltas(
                    input.take(i as int),
                    last,
                ),
            decreases current.len() - i,
        {
            assert(input.take(i + 1).drop_last() =~= input.take(i as int));
            let (pid, name, ticks) = (current[i].0, current[i].1.clone(), current[i].2);
            match self.last_procs.get(&pid) {
                Some(prev) => {
                    if ticks > prev.1 {
                        let ghost before = named(deltas@);
                        deltas.push((name.clone(), ticks - prev.1));
                        assert(named(deltas@) =~= before.push(
                            (name@, (ticks - prev.1) as u64),
                        ));
                    }
                },
                None => {},
            }
            next.insert(pid, (name, ticks));
            i = i + 1;
        }
        assert(input.take(i as int) =~= input);
        let since = match self.last_proc_time {
            None => None,
            Some(prev) => Some((prev, deltas)),
        };
        self.last_procs = next;
        self.last_proc_time = Some(now);
        since
    }
}

impl SystemCollector {
    /// Records a scan of the processes (`(pid, name, ticks)`, taken at `now`)
    /// and returns, when there was an earlier scan, when it was taken and the
    /// four command names whose processes gained the most CPU ticks since,
    /// busiest first, with the ticks they gained. Processes that share a name
    /// count together; a process that was not in the earlier scan, or that
    /// did not run, counts for nothing.
    pub fn read_top_processes(&mut self, current: Vec<(u32, String, u64)>, now: Instant) -> (since: Option<
        (Instant, Vec<(String, u64)>),
    >)
        ensures
            final(self).last_procs@ == proc_map(current@),
            final(self).last_proc_time == Some(now),
            final(self).last_net_rx == old(self).last_net_rx,
            final(self).last_net_tx == old(self).last_net_tx,
            final(self).last_net_time == old(self).last_net_time,
            match old(self).last_proc_time {
                None => since is None,
                Some(prev) => since matches Some((at, top)) && at == prev && named(top@)
                    == top_processes(name_totals(proc_deltas(current@, old(self).last_procs@))),
            },
    {
        match self.take_process_ticks(current, now) {
            None => None,
            Some((at, deltas)) => {
                let totals = total_by_name(&deltas);
                Some((at, busiest(totals)))
            },
        }
    }
}

impl Default for SystemCollector {
    fn default() -> (c: Self)
        ensures
            c.last_net_rx == 0,
            c.last_net_tx == 0,
            c.last_net_time is None,
            c.last_procs@ == Map::<u32, (String, u64)>::empty(),
            c.last_proc_time is None,
    {
        SystemCollector::new()
    }
}

// ---------------------------------------------------------------------------
// Memory module temperatures
// ---------------------------------------------------------------------------

/// Whether a hwmon driver reports a DDR5 (`spd5118`) or DDR4 (`ee1004`)
/// module's temperature.
pub open spec fn spec_is_spd_chip(name: Seq<char>) -> bool {
    starts_with(name, "spd5118"@) || starts_with(name, "ee1004"@)
}

pub fn is_spd_chip(name: &str) -> (b: bool)
    ensures
        b == spec_is_spd_chip(name@),
{
    let n = chars_of(name);
    has_prefix(&n, "spd5118") || has_prefix(&n, "ee1004")
}

/// The label of the `index`th memory module found, e.g. `DIMM 1 (spd5118)`.
pub fn spd_label(index: u64, chip: &str) -> (label: String)
    ensures
        label@ == "DIMM "@ + dec(index as nat) + " ("@ + chip@ + ")"@,
{
    let mut out: Vec<char> = Vec::new();
    push_str(&mut out, "DIMM ");
    push_dec(&mut out, index);
    push_str(&mut out, " (");
    push_str(&mut out, chip);
    push_str(&mut out, ")");
    assert(out@ =~= "DIMM "@ + dec(index as nat) + " ("@ + chip@ + ")"@);
    string_of(&out)
}

} // verus!
