//! CPU utilisation, from the cumulative counters in `/proc/stat`.
//!
//! The kernel does not report a percentage; it reports how many jiffies (ticks
//! of the scheduler clock) every CPU has spent in each state since boot. A
//! percentage is therefore a comparison of two readings: how much each counter
//! grew between them, as a share of the total growth.
//!
//! That is why [`UsageTracker`] has to remember the previous reading, and why
//! the very first refresh after start-up reports no load at all. The tracker
//! hands back the growth of each counter as an [`Interval`]; turning that into
//! percentages is a division the caller performs.
use std::collections::HashMap;
use vstd::prelude::*;

use crate::text::{
    has_prefix,
    lines,
    parse_u64,
    parse_u64_chars,
    parse_usize,
    parse_usize_chars,
    slice_of,
    split_lines,
    split_words,
    starts_with,
    trim,
    trimmed,
    views,
    words,
    chars_of,
};

verus! {

broadcast use vstd::std_specs::hash::group_hash_axioms;

/// Jiffies spent in each state, as reported by one `/proc/stat` cpu line.
#[derive(Clone, Copy, Debug, PartialEq, Eq, Structural)]
pub struct CpuTimes {
    pub user: u64,
    pub system: u64,
    pub idle: u64,
}

/// Counter `i` of a cpu line's fields: only the first eight are read, and
/// one that does not parse counts as zero.
pub open spec fn counter(fields: Seq<Seq<char>>, i: int) -> nat {
    if 0 <= i < fields.len() && i < 8 {
        match parse_u64(fields[i]) {
            Some(v) => v as nat,
            None => 0,
        }
    } else {
        0
    }
}

/// The eight counters of a line add up without overflowing a `u64`.
pub open spec fn counters_fit(fields: Seq<Seq<char>>) -> bool {
    fields.len() < 4 || counter(fields, 0) + counter(fields, 1) + counter(fields, 2) + counter(fields, 3) + counter(
        fields,
        4,
    ) + counter(fields, 5) + counter(fields, 6) + counter(fields, 7) <= u64::MAX
}

/// The reading the counters that follow a `cpu` name stand for, or `None`
/// for a line too short to be a real cpu line.
pub open spec fn cpu_times_of(fields: Seq<Seq<char>>) -> Option<CpuTimes> {
    if fields.len() < 4 {
        None
    } else {
        Some(
            CpuTimes {
                // Nice time is still time spent running user code.
                user: (counter(fields, 0) + counter(fields, 1)) as u64,
                // Interrupt and stolen time are all work the CPU did for someone.
                system: (counter(fields, 2) + counter(fields, 5) + counter(fields, 6) + counter(
                    fields,
                    7,
                )) as u64,
                // Waiting on I/O is time the CPU had nothing else to do.
                idle: (counter(fields, 3) + counter(fields, 4)) as u64,
            },
        )
    }
}

pub open spec fn sat_sub(a: nat, b: nat) -> nat {
    if a >= b {
        (a - b) as nat
    } else {
        0
    }
}

/// How much each counter grew between two readings, and the total growth.
#[derive(Clone, Copy, Debug, PartialEq, Eq, Structural)]
pub struct Interval {
    pub user: u64,
    pub system: u64,
    pub idle: u64,
    pub elapsed: u64,
}

impl CpuTimes {
    pub open spec fn spec_total(self) -> nat {
        (self.user + self.system + self.idle) as nat
    }

    /// The three counters add up without overflowing.
    pub open spec fn total_fits(self) -> bool {
        self.spec_total() <= u64::MAX
    }

    /// The growth from `previous` to `self`, or `None` when no jiffies
    /// passed (too soon since the last reading to say anything).
    pub open spec fn interval_since(self, previous: CpuTimes) -> Option<Interval> {
        let elapsed = sat_sub(self.spec_total(), previous.spec_total());
        if elapsed == 0 {
            None
        } else {
            Some(
                Interval {
                    user: sat_sub(self.user as nat, previous.user as nat) as u64,
                    system: sat_sub(self.system as nat, previous.system as nat) as u64,
                    idle: sat_sub(self.idle as nat, previous.idle as nat) as u64,
                    elapsed: elapsed as u64,
                },
            )
        }
    }

    /// Parses the counters that follow a `cpu` line's name.
    ///
    /// The kernel writes them in a fixed order, and we group the eight we care
    /// about into the three categories the UI shows:
    ///
    /// ```text
    /// cpu  12345 678 9012 345678 901 23 45 6
    ///      user  nice system idle iowait irq softirq steal
    /// ```
    ///
    /// Returns `None` for a line too short to be a real cpu line.
    pub fn parse(counters: &str) -> (times: Option<CpuTimes>)
        requires
            counters_fit(words(counters@)),
        ensures
            times == cpu_times_of(words(counters@)),
            times matches Some(t) ==> t.total_fits(),
    {
        let chars = chars_of(counters);
        let fields = split_words(&chars);
        Self::parse_fields(&fields, 0)
    }

    /// `parse` on the fields from position `start` on.
    fn parse_fields(fields: &Vec<Vec<char>>, start: usize) -> (times: Option<CpuTimes>)
        requires
            start <= fields.len(),
            counters_fit(views(fields@).skip(start as int)),
        ensures
            times == cpu_times_of(views(fields@).skip(start as int)),
            times matches Some(t) ==> t.total_fits(),
    {
        let ghost f = views(fields@).skip(start as int);
        if fields.len() - start < 4 {
            return None;
        }
        let mut c: Vec<u64> = Vec::new();
        let mut i: usize = 0;
        while i < 8
            invariant
                i <= 8,
                c@.len() == i,
                start <= fields.len(),
                f == views(fields@).skip(start as int),
                forall|k: int| 0 <= k < i ==> c@[k] == counter(f, k),
            decreases 8 - i,
        {
            let v = if i < fields.len() - start {
                match parse_u64_chars(&fields[start + i]) {
                    Some(v) => v,
                    None => 0,
                }
            } else {
                0
            };
            c.push(v);
            i = i + 1;
        }
        Some(
            CpuTimes {
                user: c[0] + c[1],
                system: c[2] + c[5] + c[6] + c[7],
                idle: c[3] + c[4],
            },
        )
    }

    /// Sum of the three counters.
    pub fn total(self) -> (t: u64)
        requires
            self.total_fits(),
        ensures
            t == self.spec_total(),
    {
        self.user + self.system + self.idle
    }

    /// Compares this reading against an earlier one: how much each counter
    /// grew over the interval, or `None` when the totals did not grow.
    pub fn usage_interval(self, previous: CpuTimes) -> (r: Option<Interval>)
        requires
            self.total_fits(),
            previous.total_fits(),
        ensures
            r == self.interval_since(previous),
    {
        let elapsed = self.total().saturating_sub(previous.total());
        if elapsed == 0 {
            return None;
        }
        Some(
            Interval {
                user: self.user.saturating_sub(previous.user),
                system: self.system.saturating_sub(previous.system),
                idle: self.idle.saturating_sub(previous.idle),
                elapsed,
            },
        )
    }
}

/// What one read of `/proc/stat` found, compared with the previous read.
#[derive(Debug, PartialEq, Eq)]
pub struct StatSample {
    /// Growth of the machine-wide counters, `None` on the first read or when
    /// no time passed.
    pub overall: Option<Interval>,
    /// Growth of each CPU's counters, keyed by index, in the order the lines
    /// came; `None` where no time passed for that CPU.
    pub per_core: Vec<(usize, Option<Interval>)>,
}

/// Everything reading `/proc/stat` line by line keeps track of.
pub struct StatState {
    pub previous_overall: Option<CpuTimes>,
    pub previous_cores: Map<usize, CpuTimes>,
    pub overall: Option<Interval>,
    pub per_core: Seq<(usize, Option<Interval>)>,
}

/// Takes in one line; the flag says reading stops here.
pub open spec fn stat_line(st: StatState, line: Seq<char>) -> (StatState, bool) {
    let f = words(line);
    if f.len() == 0 {
        (st, false)
    } else if !starts_with(f[0], "cpu"@) {
        // The cpu lines come first, so anything else means we are done.
        (st, true)
    } else {
        match cpu_times_of(f.drop_first()) {
            None => (st, false),
            Some(times) => {
                let which = f[0].skip(3);
                if which.len() == 0 {
                    // The bare "cpu" line covers the whole machine; comparing it
                    // with the previous one starts a fresh sample.
                    match st.previous_overall {
                        Some(p) => (
                            StatState {
                                previous_overall: Some(times),
                                overall: times.interval_since(p),
                                per_core: seq![],
                                ..st
                            },
                            false,
                        ),
                        None => (StatState { previous_overall: Some(times), ..st }, false),
                    }
                } else {
                    match parse_usize(which) {
                        None => (st, false),
                        Some(index) => if st.previous_cores.contains_key(index) {
                            (
                                StatState {
                                    previous_cores: st.previous_cores.insert(index, times),
                                    per_core: st.per_core.push(
                                        (index, times.interval_since(st.previous_cores[index])),
                                    ),
                                    ..st
                                },
                                false,
                            )
                        } else {
                            (
                                StatState {
                                    previous_cores: st.previous_cores.insert(index, times),
                                    ..st
                                },
                                false,
                            )
                        },
                    }
                }
            },
        }
    }
}

/// Takes in lines until one stops the reading.
pub open spec fn stat_lines(st: StatState, ls: Seq<Seq<char>>) -> StatState
    decreases ls.len(),
{
    if ls.len() == 0 {
        st
    } else {
        let (next, stop) = stat_line(st, ls[0]);
        if stop {
            next
        } else {
            stat_lines(next, ls.drop_first())
        }
    }
}

/// Every cpu line the reading gets to has counters that add up without
/// overflowing.
pub open spec fn stat_fits(ls: Seq<Seq<char>>) -> bool
    decreases ls.len(),
{
    if ls.len() == 0 {
        true
    } else {
        let f = words(ls[0]);
        if f.len() == 0 {
            stat_fits(ls.drop_first())
        } else if !starts_with(f[0], "cpu"@) {
            true
        } else {
            counters_fit(f.drop_first()) && stat_fits(ls.drop_first())
        }
    }
}

/// The running state of one read of `/proc/stat`.
struct Reading {
    previous_overall: Option<CpuTimes>,
    previous_cores: HashMap<usize, CpuTimes>,
    overall: Option<Interval>,
    per_core: Vec<(usize, Option<Interval>)>,
}

impl Reading {
    closed spec fn spec(&self) -> StatState {
        StatState {
            previous_overall: self.previous_overall,
            previous_cores: self.previous_cores@,
            overall: self.overall,
            per_core: self.per_core@,
        }
    }

    closed spec fn fits(&self) -> bool {
        &&& self.previous_overall matches Some(t) ==> t.total_fits()
        &&& forall|k: usize| #[trigger]
            self.previous_cores@.contains_key(k) ==> self.previous_cores@[k].total_fits()
    }

    /// Takes in one line of `/proc/stat`; returns whether reading stops.
    fn take_line(&mut self, line: &Vec<char>) -> (stop: bool)
        requires
            old(self).fits(),
            words(line@).len() > 0 && starts_with(words(line@)[0], "cpu"@) ==> counters_fit(
                words(line@).drop_first(),
            ),
        ensures
            final(self).fits(),
            (final(self).spec(), stop) == stat_line(old(self).spec(), line@),
    {
        let fields = split_words(line);
        let ghost f = views(fields@);
        if fields.len() == 0 {
            return false;
        }
        if !has_prefix(&fields[0], "cpu") {
            return true;
        }
        proof {
            reveal_strlit("cpu");
        }
        assert(f.drop_first() =~= f.skip(1));
        let times = match CpuTimes::parse_fields(&fields, 1) {
            None => return false,
            Some(t) => t,
        };
        let name = &fields[0];
        let which = slice_of(name, 3, name.len());
        assert(which@ =~= f[0].skip(3));
        if which.len() == 0 {
            match self.previous_overall {
                Some(p) => {
                    self.overall = times.usage_interval(p);
                    self.per_core = Vec::new();
                },
                None => {},
            }
            self.previous_overall = Some(times);
        } else {
            match parse_usize_chars(&which) {
                None => {},
                Some(index) => {
                    let old_times = self.previous_cores.insert(index, times);
                    match old_times {
                        Some(p) => {
                            self.per_core.push((index, times.usage_interval(p)));
                        },
                        None => {},
                    }
                },
            }
        }
        false
    }
}

/// Remembers the previous `/proc/stat` reading so the next one can be compared
/// against it.
pub struct UsageTracker {
    previous_overall: Option<CpuTimes>,
    previous_cores: HashMap<usize, CpuTimes>,
}

impl UsageTracker {
    #[verifier::type_invariant]
    closed spec fn counters_add_up(&self) -> bool {
        &&& self.previous_overall matches Some(t) ==> t.total_fits()
        &&& forall|k: usize| #[trigger]
            self.previous_cores@.contains_key(k) ==> self.previous_cores@[k].total_fits()
    }

    pub closed spec fn previous_overall(&self) -> Option<CpuTimes> {
        self.previous_overall
    }

    pub closed spec fn previous_cores(&self) -> Map<usize, CpuTimes> {
        self.previous_cores@
    }

    /// The state the next reading starts from.
    pub open spec fn start_state(&self) -> StatState {
        StatState {
            previous_overall: self.previous_overall(),
            previous_cores: self.previous_cores(),
            overall: None,
            per_core: seq![],
        }
    }

    /// A tracker that has seen no reading yet.
    pub fn new() -> (t: Self)
        ensures
            t.previous_overall() is None,
            t.previous_cores() == Map::<usize, CpuTimes>::empty(),
    {
        UsageTracker { previous_overall: None, previous_cores: HashMap::new() }
    }

    /// Compares the contents of `/proc/stat` (`None` when it could not be
    /// read) with the previous reading, and remembers it for the next one.
    ///
    /// `/proc/stat` opens with an aggregate line and then one line per CPU:
    ///
    /// ```text
    /// cpu   9432 118 3021 884301 512 88 61 0
    /// cpu0   612   9  201  55210  33  7  4 0
    /// cpu1   588  11  195  55402  29  6  3 0
    /// intr  ...          ← everything after the cpu lines is something else
    /// ```
    pub fn read(&mut self, stat: Option<&str>) -> (sample: StatSample)
        requires
            stat matches Some(s) ==> stat_fits(lines(trim(s@))),
        ensures
            match stat {
                None => {
                    &&& final(self).previous_overall() == old(self).previous_overall()
                    &&& final(self).previous_cores() == old(self).previous_cores()
                    &&& sample.overall is None
                    &&& sample.per_core@.len() == 0
                },
                Some(s) => {
                    let end = stat_lines(old(self).start_state(), lines(trim(s@)));
                    &&& final(self).previous_overall() == end.previous_overall
                    &&& final(self).previous_cores() == end.previous_cores
                    &&& sample.overall == end.overall
                    &&& sample.per_core@ == end.per_core
                },
            },
    {
        proof {
            use_type_invariant(&*self);
        }
        let ghost start = self.start_state();
        let Some(contents) = stat else {
            return StatSample { overall: None, per_core: Vec::new() };
        };
        let chars = chars_of(contents);
        let t = trimmed(&chars);
        let ls = split_lines(&t);
        let ghost all = views(ls@);
        assert(all == lines(trim(contents@)));
        let mut st = Reading {
            previous_overall: self.previous_overall,
            previous_cores: HashMap::new(),
            overall: None,
            per_core: Vec::new(),
        };
        std::mem::swap(&mut st.previous_cores, &mut self.previous_cores);
        assert(st.spec() == start);
        assert(all.skip(0) =~= all);
        let mut i: usize = 0;
        let mut stopped = false;
        while i < ls.len() && !stopped
            invariant
                i <= ls.len(),
                all == views(ls@),
                !stopped ==> stat_fits(all.skip(i as int)),
                st.fits(),
                stopped ==> stat_lines(start, all) == st.spec(),
                !stopped ==> stat_lines(start, all) == stat_lines(st.spec(), all.skip(i as int)),
            decreases ls.len() - i,
        {
            let ghost rest = all.skip(i as int);
            assert(rest[0] == all[i as int]);
            assert(rest.drop_first() =~= all.skip(i + 1));
            stopped = st.take_line(&ls[i]);
            i = i + 1;
        }
        proof {
            if !stopped {
                assert(all.skip(i as int) =~= Seq::<Seq<char>>::empty());
            }
        }
        self.previous_overall = st.previous_overall;
        self.previous_cores = st.previous_cores;
        StatSample { overall: st.overall, per_core: st.per_core }
    }
}

/// Whether `read` can take these `/proc/stat` contents: every cpu line it gets
/// to has counters that add up without overflowing.
pub fn stat_counters_fit(stat: &str) -> (ok: bool)
    ensures
        ok == stat_fits(lines(trim(stat@))),
{
    let chars = chars_of(stat);
    let t = trimmed(&chars);
    let ls = split_lines(&t);
    let ghost all = views(ls@);
    assert(all == lines(trim(stat@)));
    assert(all.skip(0) =~= all);
    let mut i: usize = 0;
    while i < ls.len()
        invariant
            i <= ls.len(),
            all == views(ls@),
            all == lines(trim(stat@)),
            stat_fits(all) == stat_fits(all.skip(i as int)),
        decreases ls.len() - i,
    {
        let ghost rest = all.skip(i as int);
        assert(rest[0] == all[i as int]);
        assert(rest.drop_first() =~= all.skip(i + 1));
        let fields = split_words(&ls[i]);
        let ghost f = views(fields@);
        if fields.len() > 0 {
            if !has_prefix(&fields[0], "cpu") {
                return true;
            }
            assert(f.drop_first() =~= f.skip(1));
            if !fields_fit(&fields, 1) {
                return false;
            }
        }
        i = i + 1;
    }
    assert(all.skip(i as int) =~= Seq::<Seq<char>>::empty());
    true
}

/// `counters_fit` on the fields from position `start` on.
fn fields_fit(fields: &Vec<Vec<char>>, start: usize) -> (ok: bool)
    requires
        start <= fields.len(),
    ensures
        ok == counters_fit(views(fields@).skip(start as int)),
{
    let ghost f = views(fields@).skip(start as int);
    if fields.len() - start < 4 {
        return true;
    }
    let mut sum: u128 = 0;
    let mut i: usize = 0;
    while i < 8
        invariant
            i <= 8,
            start <= fields.len(),
            f == views(fields@).skip(start as int),
            sum == (if i > 0 { counter(f, 0) } else { 0 }) + (if i > 1 { counter(f, 1) } else { 0 })
                + (if i > 2 { counter(f, 2) } else { 0 }) + (if i > 3 { counter(f, 3) } else { 0 })
                + (if i > 4 { counter(f, 4) } else { 0 }) + (if i > 5 { counter(f, 5) } else { 0 })
                + (if i > 6 { counter(f, 6) } else { 0 }) + (if i > 7 { counter(f, 7) } else { 0 }),
            sum <= i * 0xffff_ffff_ffff_ffff,
        decreases 8 - i,
    {
        let v = if i < fields.len() - start {
            match parse_u64_chars(&fields[start + i]) {
                Some(v) => v,
                None => 0,
            }
        } else {
            0
        };
        assert(v == counter(f, i as int));
        sum = sum + v as u128;
        i = i + 1;
    }
    sum <= u64::MAX as u128
}

/// Which counters a line of `/proc/stat` updates: `Some(None)` for the
/// machine-wide line, `Some(Some(i))` for CPU `i`, `None` for a line the
/// reading skips or stops at.
pub open spec fn cpu_key(line: Seq<char>) -> Option<Option<usize>> {
    let f = words(line);
    if f.len() == 0 || !starts_with(f[0], "cpu"@) {
        None
    } else if cpu_times_of(f.drop_first()) is None {
        None
    } else if f[0].skip(3).len() == 0 {
        Some(None)
    } else {
        match parse_usize(f[0].skip(3)) {
            None => None,
            Some(i) => Some(Some(i)),
        }
    }
}

/// No two lines update the same counters, as in any real `/proc/stat`.
pub open spec fn distinct_cpu_lines(ls: Seq<Seq<char>>) -> bool {
    forall|i: int, j: int|
        0 <= i < j < ls.len() && (#[trigger] cpu_key(ls[i])) is Some ==> cpu_key(ls[i])
            != #[trigger] cpu_key(ls[j])
}

/// A tracker that has seen no reading yet reports no load on its first read:
/// a rate needs two readings of the same counters.
pub proof fn first_reading_reports_no_load(ls: Seq<Seq<char>>)
    requires
        distinct_cpu_lines(ls),
    ensures
        stat_lines(
            StatState {
                previous_overall: None,
                previous_cores: Map::empty(),
                overall: None,
                per_core: seq![],
            },
            ls,
        ).overall is None,
        stat_lines(
            StatState {
                previous_overall: None,
                previous_cores: Map::empty(),
                overall: None,
                per_core: seq![],
            },
            ls,
        ).per_core.len() == 0,
{
    lemma_no_load_without_history(
        StatState {
            previous_overall: None,
            previous_cores: Map::empty(),
            overall: None,
            per_core: seq![],
        },
        ls,
    );
}

proof fn lemma_no_load_without_history(st: StatState, ls: Seq<Seq<char>>)
    requires
        st.overall is None,
        st.per_core.len() == 0,
        distinct_cpu_lines(ls),
        forall|j: int| 0 <= j < ls.len() && cpu_key(ls[j]) == Some(None::<usize>) ==> st.previous_overall is None,
        forall|j: int, k: usize| 0 <= j < ls.len() && cpu_key(ls[j]) == Some(Some(k)) ==> !st.previous_cores.contains_key(k),
    ensures
        stat_lines(st, ls).overall is None,
        stat_lines(st, ls).per_core.len() == 0,
    decreases ls.len(),
{
    if ls.len() > 0 {
        let (next, stop) = stat_line(st, ls[0]);
        if !stop {
            let rest = ls.drop_first();
            assert forall|i: int, j: int|
                0 <= i < j < rest.len() && (#[trigger] cpu_key(rest[i])) is Some implies cpu_key(rest[i])
                    != #[trigger] cpu_key(rest[j]) by {
                assert(rest[i] == ls[i + 1]);
                assert(rest[j] == ls[j + 1]);
            }
            assert forall|j: int| 0 <= j < rest.len() && cpu_key(rest[j]) == Some(None::<usize>) implies next.previous_overall is None by {
                assert(rest[j] == ls[j + 1]);
                assert(cpu_key(ls[0]) != cpu_key(ls[j + 1]) || cpu_key(ls[0]) is None);
            }
            assert forall|j: int, k: usize| 0 <= j < rest.len() && cpu_key(rest[j]) == Some(Some(k)) implies !next.previous_cores.contains_key(k) by {
                assert(rest[j] == ls[j + 1]);
                assert(cpu_key(ls[0]) != cpu_key(ls[j + 1]) || cpu_key(ls[0]) is None);
            }
            lemma_no_load_without_history(next, rest);
        }
    }
}

/// A cpu line's counters come in the kernel's order: user, nice, system,
/// idle, iowait, irq, softirq, steal. The reading groups them as user + nice,
/// system + irq + softirq + steal, and idle + iowait, each counter past the
/// eighth ignored and one that does not parse read as zero; a line with fewer
/// than four counters is no reading.
pub proof fn counters_are_grouped_by_position(fields: Seq<Seq<char>>)
    requires
        counters_fit(fields),
    ensures
        fields.len() < 4 ==> cpu_times_of(fields) is None,
        fields.len() >= 4 ==> ({
            let c = |i: int| if i < fields.len() {
                match parse_u64(fields[i]) {
                    Some(v) => v as nat,
                    None => 0nat,
                }
            } else {
                0nat
            };
            cpu_times_of(fields) == Some(
                CpuTimes {
                    user: (c(0) + c(1)) as u64,
                    system: (c(2) + c(5) + c(6) + c(7)) as u64,
                    idle: (c(3) + c(4)) as u64,
                },
            ) && c(0) + c(1) + c(2) + c(3) + c(4) + c(5) + c(6) + c(7) <= u64::MAX
        }),
{
}

/// A line named `cpu` followed by one or more ASCII digits, any number of
/// them, is the line of the CPU those digits number: when it holds a
/// reading, that reading is remembered for the CPU, and its growth since the
/// CPU's previous reading is reported when the CPU was seen before.
pub proof fn cpu_lines_of_any_index(st: StatState, line: Seq<char>, digits: Seq<char>)
    requires
        words(line).len() > 0,
        words(line)[0] == "cpu"@ + digits,
        digits.len() > 0,
        forall|i: int| 0 <= i < digits.len() ==> 0x30 <= (#[trigger] digits[i] as u32) <= 0x39,
        parse_usize(digits) is Some,
        cpu_times_of(words(line).drop_first()) is Some,
    ensures
        ({
            let n = parse_usize(digits)->0;
            let times = cpu_times_of(words(line).drop_first())->0;
            let (next, stop) = stat_line(st, line);
            &&& !stop
            &&& next.previous_cores == st.previous_cores.insert(n, times)
            &&& next.previous_overall == st.previous_overall
            &&& next.overall == st.overall
            &&& next.per_core == if st.previous_cores.contains_key(n) {
                st.per_core.push((n, times.interval_since(st.previous_cores[n])))
            } else {
                st.per_core
            }
        }),
{
    let name = words(line)[0];
    reveal_strlit("cpu");
    assert(name.len() == 3 + digits.len());
    assert(name.take(3) =~= "cpu"@);
    assert(name.skip(3) =~= digits);
}

/// Two identical readings describe no time passing.
pub proof fn identical_readings_show_no_interval(t: CpuTimes)
    ensures
        t.interval_since(t) is None,
{
}

/// When no counter went backwards, the growth in user, system and idle time
/// adds up to the growth of the total, so the three shares add up to the whole.
pub proof fn interval_shares_add_up(now: CpuTimes, previous: CpuTimes)
    requires
        now.total_fits(),
        previous.total_fits(),
        now.user >= previous.user,
        now.system >= previous.system,
        now.idle >= previous.idle,
        now.interval_since(previous) is Some,
    ensures
        ({
            let iv = now.interval_since(previous)->0;
            iv.user + iv.system + iv.idle == iv.elapsed
        }),
{
}

impl Default for UsageTracker {
    fn default() -> (t: Self)
        ensures
            t.previous_overall() is None,
            t.previous_cores() == Map::<usize, CpuTimes>::empty(),
    {
        UsageTracker::new()
    }
}

} // verus!
