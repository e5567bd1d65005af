//! The single-pass CPU reader: utilisation from `/proc/stat` against the
//! previous pass, and the sensor rules it applies to hwmon chips.
//!
//! The counters are compared as they are read; the counts of jiffies that
//! passed come back as integers, and the share of the interval each state
//! took is the caller's division.
use std::collections::HashMap;
use std::time::Instant;
use vstd::prelude::*;

use crate::hardware::cpu::{ascii_lower, lowercase, to_lowercase, SensorRole};
use crate::text::{
    chars_eq_str, chars_of, contains, dec, digits_from, lemma_views_push, has_prefix, has_substr, is_ascii_digit, is_digit,
    lines, parse_u64, parse_u64_chars, parse_usize, parse_usize_chars, push_dec, push_str,
    slice_of, split_lines, split_words, starts_with, string_of, views, words,
};

verus! {

broadcast use vstd::std_specs::hash::group_hash_axioms;

/// Counter `i` of the fields after a cpu line's name, if present and valid.
pub open spec fn field(fields: Seq<Seq<char>>, i: int) -> Option<u64> {
    if 0 <= i < fields.len() {
        parse_u64(fields[i])
    } else {
        None
    }
}

/// Counter `i`, with a missing or malformed one read as zero.
pub open spec fn field_or_zero(fields: Seq<Seq<char>>, i: int) -> nat {
    match field(fields, i) {
        Some(v) => v as nat,
        None => 0,
    }
}

/// The sum of the first eight counters, each missing or malformed one read
/// as zero.
pub open spec fn eight_sum(fields: Seq<Seq<char>>) -> nat {
    field_or_zero(fields, 0) + field_or_zero(fields, 1) + field_or_zero(fields, 2)
        + field_or_zero(fields, 3) + field_or_zero(fields, 4) + field_or_zero(fields, 5)
        + field_or_zero(fields, 6) + field_or_zero(fields, 7)
}

/// `(idle, total)` jiffies of a per-CPU line's counters: idle counts iowait,
/// total counts all eight. `None` for fewer than four counters or when one
/// of the first four (user, nice, system, idle) is not a number.
pub open spec fn spec_parse_cpu_stat_line(fields: Seq<Seq<char>>) -> Option<(u64, u64)> {
    if fields.len() < 4 || field(fields, 0) is None || field(fields, 1) is None || field(fields, 2)
        is None || field(fields, 3) is None {
        None
    } else {
        Some(
            (
                (field_or_zero(fields, 3) + field_or_zero(fields, 4)) as u64,
                eight_sum(fields) as u64,
            ),
        )
    }
}

/// The counters of a line add up without overflowing, where they are added.
pub open spec fn line_fits(fields: Seq<Seq<char>>) -> bool {
    eight_sum(fields) <= u64::MAX
}

/// Reads the eight counters from position `start` on, each missing or
/// malformed one as `None`.
fn read_fields(fields: &Vec<Vec<char>>, start: usize) -> (c: Vec<Option<u64>>)
    requires
        start <= fields.len(),
    ensures
        c@.len() == 8,
        forall|k: int| 0 <= k < 8 ==> c@[k] == field(views(fields@).skip(start as int), k),
{
    let ghost f = views(fields@).skip(start as int);
    let mut c: Vec<Option<u64>> = Vec::new();
    let mut i: usize = 0;
    while i < 8
        invariant
            i <= 8,
            c@.len() == i,
            start <= fields.len(),
            f == views(fields@).skip(start as int),
            forall|k: int| 0 <= k < i ==> c@[k] == field(f, k),
        decreases 8 - i,
    {
        let v = if i < fields.len() - start {
            parse_u64_chars(&fields[start + i])
        } else {
            None
        };
        c.push(v);
        i = i + 1;
    }
    c
}

pub open spec fn zero_or(v: Option<u64>) -> nat {
    match v {
        Some(x) => x as nat,
        None => 0,
    }
}

fn or_zero(v: Option<u64>) -> (z: u64)
    ensures
        z == zero_or(v),
{
    match v {
        Some(x) => x,
        None => 0,
    }
}

fn stat_line_of(fields: &Vec<Vec<char>>, start: usize) -> (r: Option<(u64, u64)>)
    requires
        start <= fields.len(),
        line_fits(views(fields@).skip(start as int)),
    ensures
        r == spec_parse_cpu_stat_line(views(fields@).skip(start as int)),
{
    let ghost f = views(fields@).skip(start as int);
    if fields.len() - start < 4 {
        return None;
    }
    let c = read_fields(fields, start);
    if c[0].is_none() || c[1].is_none() || c[2].is_none() || c[3].is_none() {
        return None;
    }
    let idle_all = or_zero(c[3]) + or_zero(c[4]);
    let total = or_zero(c[0]) + or_zero(c[1]) + or_zero(c[2]) + idle_all + or_zero(c[5]) + or_zero(
        c[6],
    ) + or_zero(c[7]);
    Some((idle_all, total))
}

/// Reads a per-CPU line's counters, as `(idle, total)` jiffies.
pub fn parse_cpu_stat_line(fields: &[&str]) -> (r: Option<(u64, u64)>)
    requires
        line_fits(fields@.map_values(|f: &str| f@)),
    ensures
        r == spec_parse_cpu_stat_line(fields@.map_values(|f: &str| f@)),
{
    let mut fs: Vec<Vec<char>> = Vec::new();
    let mut i: usize = 0;
    while i < fields.len()
        invariant
            i <= fields.len(),
            views(fs@) == fields@.take(i as int).map_values(|f: &str| f@),
        decreases fields.len() - i,
    {
        let cs = chars_of(fields[i]);
        let ghost before = fs@;
        proof {
            lemma_views_push(fs@, cs);
        }
        fs.push(cs);
        i = i + 1;
        assert(views(fs@) =~= fields@.take(i as int).map_values(|f: &str| f@));
    }
    assert(fields@.take(i as int) =~= fields@);
    assert(views(fs@).skip(0) =~= views(fs@));
    stat_line_of(&fs, 0)
}

/// The machine-wide counters of the previous pass.
#[derive(Clone, Copy, Debug, PartialEq, Eq, Structural)]
pub struct StatTotals {
    pub user: u64,
    pub system: u64,
    pub idle: u64,
    pub total: u64,
}

/// Jiffies that passed between two passes: in user, system and idle time,
/// and in all.
#[derive(Clone, Copy, Debug, PartialEq, Eq, Structural)]
pub struct StatDelta {
    pub user: u64,
    pub system: u64,
    pub idle: u64,
    pub total: u64,
}

/// What one pass over `/proc/stat` found against the previous one.
#[derive(Debug, PartialEq, Eq)]
pub struct StatCounts {
    /// The machine-wide delta of the last `cpu` line whose total grew.
    pub overall: Option<StatDelta>,
    /// `(index, idle, total)` jiffies that passed for each CPU whose total
    /// grew, in the order the lines came.
    pub cores: Vec<(usize, u64, u64)>,
}

pub open spec fn sat_sub(a: u64, b: u64) -> u64 {
    if a >= b {
        (a - b) as u64
    } else {
        0
    }
}

/// Everything a pass over `/proc/stat` keeps track of.
pub struct PassState {
    pub previous_overall: Option<StatTotals>,
    pub previous_cores: Map<usize, (u64, u64)>,
    pub overall: Option<StatDelta>,
    pub cores: Seq<(usize, u64, u64)>,
}

/// The machine-wide counters of a `cpu` line's fields.
pub open spec fn totals_of(f: Seq<Seq<char>>) -> StatTotals {
    StatTotals {
        user: (field_or_zero(f, 0) + field_or_zero(f, 1)) as u64,
        system: (field_or_zero(f, 2) + field_or_zero(f, 5) + field_or_zero(f, 6) + field_or_zero(
            f,
            7,
        )) as u64,
        idle: (field_or_zero(f, 3) + field_or_zero(f, 4)) as u64,
        total: eight_sum(f) as u64,
    }
}

/// Whether a name is `cpu` followed only by ASCII digits.
pub open spec fn is_cpu_index_name(name: Seq<char>) -> bool {
    starts_with(name, "cpu"@) && forall|i: int| 3 <= i < name.len() ==> is_digit(name[i])
}

/// Takes in one line of `/proc/stat`.
pub open spec fn pass_line(st: PassState, line: Seq<char>) -> PassState {
    let parts = words(line);
    if parts.len() == 0 {
        st
    } else if parts[0] == "cpu"@ {
        let cur = totals_of(parts.drop_first());
        let overall = match st.previous_overall {
            Some(prev) => if sat_sub(cur.total, prev.total) > 0 {
                Some(
                    StatDelta {
                        user: sat_sub(cur.user, prev.user),
                        system: sat_sub(cur.system, prev.system),
                        idle: sat_sub(cur.idle, prev.idle),
                        total: sat_sub(cur.total, prev.total),
                    },
                )
            } else {
                st.overall
            },
            None => st.overall,
        };
        PassState { previous_overall: Some(cur), overall, ..st }
    } else if is_cpu_index_name(parts[0]) {
        match parse_usize(parts[0].skip(3)) {
            None => st,
            Some(index) => match spec_parse_cpu_stat_line(parts.drop_first()) {
                None => st,
                Some((idle, total)) => {
                    let cores = if st.previous_cores.contains_key(index) && sat_sub(
                        total,
                        st.previous_cores[index].1,
                    ) > 0 {
                        st.cores.push(
                            (
                                index,
                                sat_sub(idle, st.previous_cores[index].0),
                                sat_sub(total, st.previous_cores[index].1),
                            ),
                        )
                    } else {
                        st.cores
                    };
                    PassState {
                        previous_cores: st.previous_cores.insert(index, (idle, total)),
                        cores,
                        ..st
                    }
                },
            },
        }
    } else {
        st
    }
}

pub open spec fn pass_lines(st: PassState, ls: Seq<Seq<char>>) -> PassState
    decreases ls.len(),
{
    if ls.len() == 0 {
        st
    } else {
        pass_lines(pass_line(st, ls[0]), ls.drop_first())
    }
}

/// The machine-wide `cpu` line lists its counters in the kernel's order:
/// user, nice, system, idle, iowait, irq, softirq, steal. A pass groups them
/// as user + nice, system + irq + softirq + steal, and idle + iowait (a CPU
/// waiting on I/O had nothing else to do), remembers those, and reports how
/// each grew since the previous `cpu` line when the total grew. The per-CPU
/// bookkeeping is left as it was.
pub proof fn machine_line_groups_counters(st: PassState, line: Seq<char>)
    requires
        words(line).len() > 0,
        words(line)[0] == "cpu"@,
        ({
            let c = words(line).drop_first();
            field_or_zero(c, 0) + field_or_zero(c, 1) + field_or_zero(c, 2) + field_or_zero(c, 3)
                + field_or_zero(c, 4) + field_or_zero(c, 5) + field_or_zero(c, 6)
                + field_or_zero(c, 7) <= u64::MAX
        }),
    ensures
        ({
            let c = words(line).drop_first();
            let user = field_or_zero(c, 0) + field_or_zero(c, 1);
            let system = field_or_zero(c, 2) + field_or_zero(c, 5) + field_or_zero(c, 6)
                + field_or_zero(c, 7);
            let idle = field_or_zero(c, 3) + field_or_zero(c, 4);
            let total = user + system + idle;
            let next = pass_line(st, line);
            &&& next.previous_overall matches Some(t) && t.user == user && t.system == system
                && t.idle == idle && t.total == total
            &&& next.previous_cores == st.previous_cores
            &&& next.cores == st.cores
            &&& next.overall == match st.previous_overall {
                Some(p) => if total > p.total {
                    Some(
                        StatDelta {
                            user: (if user >= p.user {
                                user - p.user
                            } else {
                                0
                            }) as u64,
                            system: (if system >= p.system {
                                system - p.system
                            } else {
                                0
                            }) as u64,
                            idle: (if idle >= p.idle {
                                idle - p.idle
                            } else {
                                0
                            }) as u64,
                            total: (total - p.total) as u64,
                        },
                    )
                } else {
                    st.overall
                },
                None => st.overall,
            }
        }),
{
}

/// A line named `cpu` followed by one or more ASCII digits, any number of
/// them, is the line of the CPU those digits number: when its counters parse,
/// the pass remembers its `(idle, total)` for that CPU, and reports how much
/// each grew when that CPU was seen before and its total grew. The
/// machine-wide figures are left as they were.
pub proof fn cpu_lines_of_any_index(st: PassState, line: Seq<char>, digits: Seq<char>)
    requires
        words(line).len() > 0,
        words(line)[0] == "cpu"@ + digits,
        digits.len() > 0,
        forall|i: int| 0 <= i < digits.len() ==> 0x30 <= (#[trigger] digits[i] as u32) <= 0x39,
        parse_usize(digits) is Some,
        spec_parse_cpu_stat_line(words(line).drop_first()) is Some,
    ensures
        ({
            let n = parse_usize(digits)->0;
            let (idle, total) = spec_parse_cpu_stat_line(words(line).drop_first())->0;
            let next = pass_line(st, line);
            &&& next.previous_cores == st.previous_cores.insert(n, (idle, total))
            &&& next.previous_overall == st.previous_overall
            &&& next.overall == st.overall
            &&& next.cores == if st.previous_cores.contains_key(n) && total
                > st.previous_cores[n].1 {
                st.cores.push(
                    (
                        n,
                        (if idle >= st.previous_cores[n].0 {
                            idle - st.previous_cores[n].0
                        } else {
                            0
                        }) as u64,
                        (total - st.previous_cores[n].1) as u64,
                    ),
                )
            } else {
                st.cores
            }
        }),
{
    let name = words(line)[0];
    reveal_strlit("cpu");
    assert(name.len() == 3 + digits.len());
    assert(name != "cpu"@);
    assert(starts_with(name, "cpu"@)) by {
        reveal_strlit("cpu");
        assert(name.take(3) =~= "cpu"@);
    }
    assert(name.skip(3) =~= digits);
    assert forall|i: int| 3 <= i < name.len() implies is_digit(name[i]) by {
        assert(name[i] == digits[i - 3]);
    }
}

/// Which counters a line of `/proc/stat` updates in a pass: `Some(None)` for
/// the machine-wide line, `Some(Some(i))` for CPU `i`, `None` for a line the
/// pass skips.
pub open spec fn pass_key(line: Seq<char>) -> Option<Option<usize>> {
    let parts = words(line);
    if parts.len() == 0 {
        None
    } else if parts[0] == "cpu"@ {
        Some(None)
    } else if is_cpu_index_name(parts[0]) {
        match parse_usize(parts[0].skip(3)) {
            None => None,
            Some(index) => if spec_parse_cpu_stat_line(parts.drop_first()) is Some {
                Some(Some(index))
            } else {
                None
            },
        }
    } else {
        None
    }
}

/// No two lines update the same counters, as in any real `/proc/stat`.
pub open spec fn distinct_pass_lines(ls: Seq<Seq<char>>) -> bool {
    forall|i: int, j: int|
        0 <= i < j < ls.len() && (#[trigger] pass_key(ls[i])) is Some ==> pass_key(ls[i])
            != #[trigger] pass_key(ls[j])
}

proof fn lemma_pass_without_history(st: PassState, ls: Seq<Seq<char>>)
    requires
        st.overall is None,
        st.cores.len() == 0,
        distinct_pass_lines(ls),
        forall|j: int|
            0 <= j < ls.len() && pass_key(ls[j]) == Some(None::<usize>) ==> st.previous_overall is None,
        forall|j: int, k: usize|
            0 <= j < ls.len() && pass_key(ls[j]) == Some(Some(k)) ==> !st.previous_cores.contains_key(k),
    ensures
        pass_lines(st, ls).overall is None,
        pass_lines(st, ls).cores.len() == 0,
    decreases ls.len(),
{
    if ls.len() > 0 {
        let next = pass_line(st, ls[0]);
        let rest = ls.drop_first();
        assert forall|i: int, j: int|
            0 <= i < j < rest.len() && (#[trigger] pass_key(rest[i])) is Some implies pass_key(rest[i])
                != #[trigger] pass_key(rest[j]) by {
            assert(rest[i] == ls[i + 1]);
            assert(rest[j] == ls[j + 1]);
        }
        assert forall|j: int|
            0 <= j < rest.len() && pass_key(rest[j]) == Some(None::<usize>) implies next.previous_overall is None by {
            assert(rest[j] == ls[j + 1]);
            assert(pass_key(ls[0]) != pass_key(ls[j + 1]) || pass_key(ls[0]) is None);
        }
        assert forall|j: int, k: usize|
            0 <= j < rest.len() && pass_key(rest[j]) == Some(Some(k)) implies !next.previous_cores.contains_key(k) by {
            assert(rest[j] == ls[j + 1]);
            assert(pass_key(ls[0]) != pass_key(ls[j + 1]) || pass_key(ls[0]) is None);
        }
        lemma_pass_without_history(next, rest);
    }
}

/// A history that has seen no pass yet reports no load on its first pass:
/// a rate needs two readings of the same counters.
pub proof fn first_pass_reports_no_load(ls: Seq<Seq<char>>)
    requires
        distinct_pass_lines(ls),
    ensures
        pass_lines(
            PassState { previous_overall: None, previous_cores: Map::empty(), overall: None, cores: seq![] },
            ls,
        ).overall is None,
        pass_lines(
            PassState { previous_overall: None, previous_cores: Map::empty(), overall: None, cores: seq![] },
            ls,
        ).cores.len() == 0,
{
    lemma_pass_without_history(
        PassState { previous_overall: None, previous_cores: Map::empty(), overall: None, cores: seq![] },
        ls,
    );
}

/// Every counted line adds up without overflowing.
pub open spec fn pass_fits(ls: Seq<Seq<char>>) -> bool {
    forall|i: int|
        0 <= i < ls.len() && words(ls[i]).len() > 0 && starts_with(words(ls[i])[0], "cpu"@)
            ==> line_fits(#[trigger] words(ls[i]).drop_first())
}

/// Utilisation counters of the previous pass, and the energy counter
/// reading the package power figure compares against.
pub struct CpuStatHistory {
    pub prev_overall: Option<StatTotals>,
    pub prev_cores: HashMap<usize, (u64, u64)>,
    pub prev_energy_uj: Option<u64>,
    pub prev_energy_time: Option<Instant>,
}

struct Pass {
    previous_overall: Option<StatTotals>,
    previous_cores: HashMap<usize, (u64, u64)>,
    overall: Option<StatDelta>,
    cores: Vec<(usize, u64, u64)>,
}

impl Pass {
    closed spec fn spec(&self) -> PassState {
        PassState {
            previous_overall: self.previous_overall,
            previous_cores: self.previous_cores@,
            overall: self.overall,
            cores: self.cores@,
        }
    }

    fn take_line(&mut self, line: &Vec<char>)
        requires
            words(line@).len() > 0 && starts_with(words(line@)[0], "cpu"@) ==> line_fits(
                words(line@).drop_first(),
            ),
        ensures
            final(self).spec() == pass_line(old(self).spec(), line@),
    {
        let parts = split_words(line);
        let ghost p = views(parts@);
        if parts.len() == 0 {
            return;
        }
        assert(p.drop_first() =~= p.skip(1));
        if chars_eq_str(&parts[0], "cpu") {
            proof {
                reveal_strlit("cpu");
            }
            let ghost f1 = views(parts@).skip(1);
            assert(p[0].take(p[0].len() as int) =~= p[0]);
            assert(starts_with(p[0], "cpu"@));
            assert(line_fits(f1));
            let c = read_fields(&parts, 1);
            assert(zero_or(c@[0]) == field_or_zero(f1, 0));
            assert(zero_or(c@[1]) == field_or_zero(f1, 1));
            assert(zero_or(c@[2]) == field_or_zero(f1, 2));
            assert(zero_or(c@[3]) == field_or_zero(f1, 3));
            assert(zero_or(c@[4]) == field_or_zero(f1, 4));
            assert(zero_or(c@[5]) == field_or_zero(f1, 5));
            assert(zero_or(c@[6]) == field_or_zero(f1, 6));
            assert(zero_or(c@[7]) == field_or_zero(f1, 7));
            let user = or_zero(c[0]) + or_zero(c[1]);
            let system = or_zero(c[2]) + or_zero(c[5]) + or_zero(c[6]) + or_zero(c[7]);
            let idle = or_zero(c[3]) + or_zero(c[4]);
            let total = user + system + idle;
            let cur = StatTotals { user, system, idle, total };
            match self.previous_overall {
                Some(prev) => {
                    let diff_total = total.saturating_sub(prev.total);
                    if diff_total > 0 {
                        self.overall = Some(
                            StatDelta {
                                user: user.saturating_sub(prev.user),
                                system: system.saturating_sub(prev.system),
                                idle: idle.saturating_sub(prev.idle),
                                total: diff_total,
                            },
                        );
                    }
                },
                None => {},
            }
            self.previous_overall = Some(cur);
            return;
        }
        if !has_prefix(&parts[0], "cpu") {
            return;
        }
        proof {
            reveal_strlit("cpu");
        }
        let name = &parts[0];
        if !digits_from(name, 3) {
            return;
        }
        let which = slice_of(name, 3, name.len());
        assert(which@ =~= p[0].skip(3));
        let Some(index) = parse_usize_chars(&which) else {
            return;
        };
        let Some((idle, total)) = stat_line_of(&parts, 1) else {
            return;
        };
        match self.previous_cores.get(&index) {
            Some(prev) => {
                let (prev_idle, prev_total) = *prev;
                let diff_total = total.saturating_sub(prev_total);
                let diff_idle = idle.saturating_sub(prev_idle);
                if diff_total > 0 {
                    self.cores.push((index, diff_idle, diff_total));
                }
            },
            None => {},
        }
        self.previous_cores.insert(index, (idle, total));
    }
}

impl CpuStatHistory {
    pub open spec fn previous_overall(&self) -> Option<StatTotals> {
        self.prev_overall
    }

    pub open spec fn previous_cores(&self) -> Map<usize, (u64, u64)> {
        self.prev_cores@
    }

    pub open spec fn start(&self) -> PassState {
        PassState {
            previous_overall: self.previous_overall(),
            previous_cores: self.previous_cores(),
            overall: None,
            cores: seq![],
        }
    }

    /// A history that has seen no pass yet.
    pub fn new() -> (h: Self)
        ensures
            h.previous_overall() is None,
            h.previous_cores() == Map::<usize, (u64, u64)>::empty(),
            h.prev_energy_uj is None,
            h.prev_energy_time is None,
    {
        CpuStatHistory {
            prev_overall: None,
            prev_cores: HashMap::new(),
            prev_energy_uj: None,
            prev_energy_time: None,
        }
    }

    /// Compares the contents of `/proc/stat` (as read, untrimmed) with the
    /// previous pass, and remembers them for the next one.
    pub fn read_usage_counts(&mut self, stat: &str) -> (counts: StatCounts)
        requires
            pass_fits(lines(stat@)),
        ensures
            ({
                let end = pass_lines(old(self).start(), lines(stat@));
                &&& final(self).previous_overall() == end.previous_overall
                &&& final(self).previous_cores() == end.previous_cores
                &&& counts.overall == end.overall
                &&& counts.cores@ == end.cores
            }),
            final(self).prev_energy_uj == old(self).prev_energy_uj,
            final(self).prev_energy_time == old(self).prev_energy_time,
    {
        let chars = chars_of(stat);
        let ls = split_lines(&chars);
        let ghost all = views(ls@);
        let ghost start = self.start();
        let mut pass = Pass {
            previous_overall: self.prev_overall,
            previous_cores: HashMap::new(),
            overall: None,
            cores: Vec::new(),
        };
        std::mem::swap(&mut pass.previous_cores, &mut self.prev_cores);
        assert(pass.spec() == start);
        assert(all.skip(0) =~= all);
        let mut i: usize = 0;
        while i < ls.len()
            invariant
                i <= ls.len(),
                all == views(ls@),
                pass_fits(all),
                pass_lines(start, all) == pass_lines(pass.spec(), all.skip(i as int)),
            decreases ls.len() - i,
        {
            let ghost rest = all.skip(i as int);
            assert(rest[0] == all[i as int]);
            assert(rest.drop_first() =~= all.skip(i + 1));
            assert(all[i as int] == ls@[i as int]@);
            pass.take_line(&ls[i]);
            i = i + 1;
        }
        assert(all.skip(i as int) =~= Seq::<Seq<char>>::empty());
        self.prev_overall = pass.previous_overall;
        self.prev_cores = pass.previous_cores;
        StatCounts { overall: pass.overall, cores: pass.cores }
    }

    /// Records a reading of the RAPL energy counter (`energy_uj`, in
    /// microjoules, taken at `now`), returning the energy used since the
    /// previous reading and when that was taken; a counter that wrapped
    /// counts as no energy used.
    pub fn record_energy(&mut self, energy_uj: u64, now: Instant) -> (since: Option<
        (u64, Instant),
    >)
        ensures
            final(self).prev_energy_uj == Some(energy_uj),
            final(self).prev_energy_time == Some(now),
            final(self).previous_overall() == old(self).previous_overall(),
            final(self).previous_cores() == old(self).previous_cores(),
            match (old(self).prev_energy_uj, old(self).prev_energy_time) {
                (Some(prev), Some(at)) => since == Some((sat_sub(energy_uj, prev), at)),
                _ => since is None,
            },
    {
        let since = match (self.prev_energy_uj, self.prev_energy_time) {
            (Some(prev), Some(at)) => Some((energy_uj.saturating_sub(prev), at)),
            _ => None,
        };
        self.prev_energy_uj = Some(energy_uj);
        self.prev_energy_time = Some(now);
        since
    }
}

impl Default for CpuStatHistory {
    fn default() -> (h: Self)
        ensures
            h.previous_overall() is None,
            h.previous_cores() == Map::<usize, (u64, u64)>::empty(),
            h.prev_energy_uj is None,
            h.prev_energy_time is None,
    {
        CpuStatHistory::new()
    }
}

/// Checks that every counted line of `/proc/stat` adds up without
/// overflowing, as `read_usage_counts` needs.
pub fn pass_counters_fit(stat: &str) -> (ok: bool)
    ensures
        ok == pass_fits(lines(stat@)),
{
    let chars = chars_of(stat);
    let ls = split_lines(&chars);
    let ghost all = views(ls@);
    let mut i: usize = 0;
    while i < ls.len()
        invariant
            i <= ls.len(),
            all == views(ls@),
            all == lines(stat@),
            forall|j: int|
                0 <= j < i && words(all[j]).len() > 0 && starts_with(words(all[j])[0], "cpu"@)
                    ==> line_fits(#[trigger] words(all[j]).drop_first()),
        decreases ls.len() - i,
    {
        let parts = split_words(&ls[i]);
        let ghost p = views(parts@);
        assert(all[i as int] == ls@[i as int]@);
        if parts.len() > 0 && has_prefix(&parts[0], "cpu") {
            assert(p.drop_first() =~= p.skip(1));
            if !fits_from(&parts, 1) {
                return false;
            }
        }
        i = i + 1;
    }
    true
}

fn fits_from(fields: &Vec<Vec<char>>, start: usize) -> (ok: bool)
    requires
        start <= fields.len(),
    ensures
        ok == line_fits(views(fields@).skip(start as int)),
{
    let c = read_fields(fields, start);
    let sum: u128 = or_zero(c[0]) as u128 + or_zero(c[1]) as u128 + or_zero(c[2]) as u128 + or_zero(
        c[3],
    ) as u128 + or_zero(c[4]) as u128 + or_zero(c[5]) as u128 + or_zero(c[6]) as u128 + or_zero(
        c[7],
    ) as u128;
    sum <= u64::MAX as u128
}

// ---------------------------------------------------------------------------
// Sensors, as this reader classifies them
// ---------------------------------------------------------------------------

/// `a.eq_ignore_ascii_case(b)`.
pub open spec fn eq_ignore_ascii_case(a: Seq<char>, b: Seq<char>) -> bool {
    a.len() == b.len() && forall|i: int| 0 <= i < a.len() ==> ascii_lower(a[i]) == ascii_lower(b[i])
}

fn eq_ignore_case(a: &[char], b: &str) -> (r: bool)
    ensures
        r == eq_ignore_ascii_case(a@, b@),
{
    let bv = chars_of(b);
    if a.len() != bv.len() {
        return false;
    }
    let mut i: usize = 0;
    while i < a.len()
        invariant
            a.len() == bv.len(),
            bv@ == b@,
            i <= a.len(),
            forall|k: int| 0 <= k < i ==> ascii_lower(a@[k]) == ascii_lower(bv@[k]),
        decreases a.len() - i,
    {
        if ascii_lower_char(a[i]) != ascii_lower_char(bv[i]) {
            assert(ascii_lower(a@[i as int]) != ascii_lower(b@[i as int]));
            return false;
        }
        i = i + 1;
    }
    true
}

fn ascii_lower_char(c: char) -> (l: char)
    ensures
        l == ascii_lower(c),
{
    let n = c as u32;
    if 0x41 <= n && n <= 0x5a {
        let b: u8 = (n + 0x20) as u8;
        b as char
    } else {
        c
    }
}

/// How this reader treats a sensor of a given chip: on `k10temp`/`zenpower`,
/// `Tctl` or `Tctl/Tdie` (in any ASCII case) is the package and any `tccd`
/// label a die; on `coretemp`, a `package` label is the package and a `core`
/// label a core (both after lowercasing); other chips are not CPU sensors.
pub open spec fn spec_chip_sensor_role(chip: Seq<char>, label: Seq<char>) -> SensorRole {
    if chip == "k10temp"@ || chip == "zenpower"@ {
        if eq_ignore_ascii_case(label, "tctl"@) || eq_ignore_ascii_case(label, "tctl/tdie"@) {
            SensorRole::Package
        } else if contains(lowercase(label), "tccd"@) {
            SensorRole::Core
        } else {
            SensorRole::Other
        }
    } else if chip == "coretemp"@ {
        if contains(lowercase(label), "package"@) {
            SensorRole::Package
        } else if contains(lowercase(label), "core"@) {
            SensorRole::Core
        } else {
            SensorRole::Other
        }
    } else {
        SensorRole::Other
    }
}

pub fn chip_sensor_role(chip: &str, label: &str) -> (r: SensorRole)
    ensures
        r == spec_chip_sensor_role(chip@, label@),
{
    let c = chars_of(chip);
    let l = chars_of(label);
    if chars_eq_str(&c, "k10temp") || chars_eq_str(&c, "zenpower") {
        if eq_ignore_case(&l, "tctl") || eq_ignore_case(&l, "tctl/tdie") {
            SensorRole::Package
        } else if has_substr(&chars_of(to_lowercase(label).as_str()), "tccd") {
            SensorRole::Core
        } else {
            SensorRole::Other
        }
    } else if chars_eq_str(&c, "coretemp") {
        let key = chars_of(to_lowercase(label).as_str());
        if has_substr(&key, "package") {
            SensorRole::Package
        } else if has_substr(&key, "core") {
            SensorRole::Core
        } else {
            SensorRole::Other
        }
    } else {
        SensorRole::Other
    }
}

/// The package reading (the last one found) and the die/core readings, in
/// order, among `(chip, label, temperature)` readings.
pub open spec fn split_chip_readings<T>(readings: Seq<(String, String, T)>) -> (
    Option<T>,
    Seq<(String, T)>,
)
    decreases readings.len(),
{
    if readings.len() == 0 {
        (None, seq![])
    } else {
        let (package, cores) = split_chip_readings(readings.drop_last());
        let (chip, label, temp) = readings.last();
        match spec_chip_sensor_role(chip@, label@) {
            SensorRole::Package => (Some(temp), cores),
            SensorRole::Core => (package, cores.push((label, temp))),
            SensorRole::Other => (package, cores),
        }
    }
}

pub fn split_sensor_readings<T: Copy>(readings: &[(String, String, T)]) -> (r: (
    Option<T>,
    Vec<(String, T)>,
))
    ensures
        (r.0, r.1@) == split_chip_readings(readings@),
{
    let mut package: Option<T> = None;
    let mut cores: Vec<(String, T)> = Vec::new();
    let mut i: usize = 0;
    while i < readings.len()
        invariant
            i <= readings.len(),
            (package, cores@) == split_chip_readings(readings@.take(i as int)),
        decreases readings.len() - i,
    {
        let ghost prefix = readings@.take(i + 1);
        assert(prefix.drop_last() =~= readings@.take(i as int));
        let temp = readings[i].2;
        match chip_sensor_role(readings[i].0.as_str(), readings[i].1.as_str()) {
            SensorRole::Package => {
                package = Some(temp);
            },
            SensorRole::Core => {
                cores.push((readings[i].1.clone(), temp));
            },
            SensorRole::Other => {},
        }
        i = i + 1;
    }
    assert(readings@.take(i as int) =~= readings@);
    (package, cores)
}

/// The per-core list this reader builds: one entry per die/core sensor when
/// there are some and at least as many as online CPUs; otherwise one
/// `Core N` entry per online CPU, sharing the first sensor's temperature, or
/// the package's when there is none.
pub open spec fn spec_plan_cores<T>(sensors: Seq<(String, T)>, num_cpus: nat, package_temp: T) -> Seq<
    (usize, Seq<char>, T),
> {
    if sensors.len() > 0 && sensors.len() >= num_cpus {
        Seq::new(sensors.len(), |i: int| (i as usize, sensors[i].0@, sensors[i].1))
    } else {
        Seq::new(
            num_cpus,
            |i: int|
                (
                    i as usize,
                    "Core "@ + dec(i as nat),
                    if sensors.len() > 0 {
                        sensors[0].1
                    } else {
                        package_temp
                    },
                ),
        )
    }
}

pub fn plan_cores<T: Copy>(sensors: &[(String, T)], num_cpus: usize, package_temp: T) -> (cores: Vec<
    (usize, String, T),
>)
    ensures
        cores@.map_values(|c: (usize, String, T)| (c.0, c.1@, c.2)) == spec_plan_cores(
            sensors@,
            num_cpus as nat,
            package_temp,
        ),
{
    let mut cores: Vec<(usize, String, T)> = Vec::new();
    let ghost target = spec_plan_cores(sensors@, num_cpus as nat, package_temp);
    if sensors.len() > 0 && sensors.len() >= num_cpus {
        let mut idx: usize = 0;
        while idx < sensors.len()
            invariant
                idx <= sensors.len(),
                target.len() == sensors.len(),
                sensors.len() > 0 && sensors.len() >= num_cpus,
                target == spec_plan_cores(sensors@, num_cpus as nat, package_temp),
                cores@.map_values(|c: (usize, String, T)| (c.0, c.1@, c.2)) == target.take(idx as int),
            decreases sensors.len() - idx,
        {
            let ghost before = cores@.map_values(|c: (usize, String, T)| (c.0, c.1@, c.2));
            let label = sensors[idx].0.clone();
            assert(target[idx as int] == (idx, label@, sensors@[idx as int].1));
            cores.push((idx, label, sensors[idx].1));
            assert(cores@.map_values(|c: (usize, String, T)| (c.0, c.1@, c.2)) =~= before.push(
                target[idx as int],
            ));
            idx = idx + 1;
            assert(cores@.map_values(|c: (usize, String, T)| (c.0, c.1@, c.2)) =~= target.take(
                idx as int,
            ));
        }
        assert(target.take(idx as int) =~= target);
    } else {
        let shared = if sensors.len() > 0 {
            sensors[0].1
        } else {
            package_temp
        };
        let mut idx: usize = 0;
        while idx < num_cpus
            invariant
                idx <= num_cpus,
                target.len() == num_cpus,
                !(sensors.len() > 0 && sensors.len() >= num_cpus),
                target == spec_plan_cores(sensors@, num_cpus as nat, package_temp),
                shared == (if sensors@.len() > 0 {
                    sensors@[0].1
                } else {
                    package_temp
                }),
                cores@.map_values(|c: (usize, String, T)| (c.0, c.1@, c.2)) == target.take(idx as int),
            decreases num_cpus - idx,
        {
            let mut label: Vec<char> = Vec::new();
            push_str(&mut label, "Core ");
            push_dec(&mut label, idx as u64);
            let ghost before = cores@.map_values(|c: (usize, String, T)| (c.0, c.1@, c.2));
            let text = string_of(&label);
            assert(target[idx as int] == (idx, text@, shared));
            cores.push((idx, text, shared));
            assert(cores@.map_values(|c: (usize, String, T)| (c.0, c.1@, c.2)) =~= before.push(
                target[idx as int],
            ));
            idx = idx + 1;
            assert(cores@.map_values(|c: (usize, String, T)| (c.0, c.1@, c.2)) =~= target.take(
                idx as int,
            ));
        }
        assert(target.take(idx as int) =~= target);
    }
    cores
}

/// Whether a `/proc` entry name is all ASCII digits, as this reader counts
/// processes.
pub open spec fn spec_all_digit_name(name: Seq<char>) -> bool {
    forall|i: int| 0 <= i < name.len() ==> is_digit(name[i])
}

pub fn is_all_digit_name(name: &str) -> (b: bool)
    ensures
        b == spec_all_digit_name(name@),
{
    let n = chars_of(name);
    let mut i: usize = 0;
    while i < n.len()
        invariant
            i <= n.len(),
            n@ == name@,
            forall|k: int| 0 <= k < i ==> is_digit(n@[k]),
        decreases n.len() - i,
    {
        if !is_ascii_digit(n[i]) {
            assert(!is_digit(name@[i as int]));
            return false;
        }
        i = i + 1;
    }
    true
}

} // verus!
