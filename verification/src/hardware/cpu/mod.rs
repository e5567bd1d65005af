//! CPU model, temperatures, clocks and load.
//!
//! Utilisation is the one reading that needs history rather than a single
//! sample, so it lives in [`usage`].
pub mod usage;

use std::time::Instant;
use vstd::prelude::*;

use crate::order::{
    key_le, keyed, lemma_map_keeps_multiset, sort_by_key, sort_is_permutation, sort_keyed,
    sorted_by_key,
};
use crate::text::{
    chars_eq_str,
    chars_of,
    file_view,
    has_prefix,
    has_substr,
    is_ascii_digit,
    is_digit,
    lines,
    parse_u32,
    parse_u32_chars,
    parse_usize,
    parse_usize_chars,
    push_dec,
    push_str,
    read_trimmed,
    slice_of,
    split_lines,
    split_once,
    split_once_char,
    split_words,
    starts_with,
    contains,
    string_of,
    trim,
    trimmed,
    views,
    words,
    dec,
};
use usage::UsageTracker;

verus! {

/// `std::time::Instant`, carried through but never inspected here.
#[verifier::external_type_specification]
#[verifier::external_body]
pub struct ExInstant(Instant);

/// Fallback package temperature, in degrees Celsius, when no CPU sensor is
/// exposed at all.
pub const DEFAULT_PACKAGE_TEMP: u32 = 40;

/// hwmon drivers that expose CPU temperatures.
pub const CPU_CHIPS: [&'static str; 3] = ["k10temp", "zenpower", "coretemp"];

/// Whether a hwmon driver is one of [`CPU_CHIPS`].
pub open spec fn spec_is_cpu_chip(name: Seq<char>) -> bool {
    name == "k10temp"@ || name == "zenpower"@ || name == "coretemp"@
}

pub fn is_cpu_chip(name: &str) -> (b: bool)
    ensures
        b == spec_is_cpu_chip(name@),
{
    let n = chars_of(name);
    chars_eq_str(&n, "k10temp") || chars_eq_str(&n, "zenpower") || chars_eq_str(&n, "coretemp")
}

// ---------------------------------------------------------------------------
// Sensor labels
// ---------------------------------------------------------------------------

/// Number of ASCII digits `s` ends with.
pub open spec fn trailing_digit_count(s: Seq<char>) -> nat
    decreases s.len(),
{
    if s.len() > 0 && is_digit(s.last()) {
        1 + trailing_digit_count(s.drop_last())
    } else {
        0
    }
}

proof fn lemma_trailing_digits(s: Seq<char>, k: int)
    requires
        0 <= k <= s.len(),
        forall|j: int| s.len() - k <= j < s.len() ==> is_digit(s[j]),
        k == s.len() || !is_digit(s[s.len() - k - 1]),
    ensures
        trailing_digit_count(s) == k,
    decreases k,
{
    if k > 0 {
        lemma_trailing_digits(s.drop_last(), k - 1);
    }
}

/// The number a sensor label ends with, as `trailing_number` reads it.
pub open spec fn spec_trailing_number(label: Seq<char>) -> Option<u32> {
    parse_u32(label.skip(label.len() - trailing_digit_count(label)))
}

/// The number a sensor label ends with — `9` for `Tccd9`, `10` for `Core 10`.
///
/// Returns `None` for a label with no trailing number, such as `Tctl`, or
/// one too large for a `u32`.
pub fn trailing_number(label: &str) -> (n: Option<u32>)
    ensures
        n == spec_trailing_number(label@),
{
    let s = chars_of(label);
    let mut k: usize = 0;
    while k < s.len() && is_ascii_digit(s[s.len() - k - 1])
        invariant
            k <= s.len(),
            forall|j: int| s@.len() - k <= j < s@.len() ==> is_digit(s@[j]),
        decreases s.len() - k,
    {
        k = k + 1;
    }
    proof {
        lemma_trailing_digits(s@, k as int);
    }
    let digits = slice_of(&s, s.len() - k, s.len());
    assert(digits@ =~= s@.skip(s@.len() - k));
    parse_u32_chars(&digits)
}

/// Lexicographic order on strings, character by character (as `String`
/// compares, since UTF-8 preserves code point order).
pub open spec fn str_le(a: Seq<char>, b: Seq<char>) -> bool
    decreases a.len(),
{
    if a.len() == 0 {
        true
    } else if b.len() == 0 {
        false
    } else if (a[0] as u32) < (b[0] as u32) {
        true
    } else if (a[0] as u32) > (b[0] as u32) {
        false
    } else {
        str_le(a.drop_first(), b.drop_first())
    }
}

/// The order core sensors are listed in: by the number their label ends with
/// (labels without one first), then by label.
pub open spec fn core_label_le(a: Seq<char>, b: Seq<char>) -> bool {
    match (spec_trailing_number(a), spec_trailing_number(b)) {
        (None, Some(_)) => true,
        (Some(_), None) => false,
        (Some(x), Some(y)) => x < y || (x == y && str_le(a, b)),
        (None, None) => str_le(a, b),
    }
}

pub open spec fn char_codes(s: Seq<char>) -> Seq<u64> {
    s.map_values(|c: char| (c as u32) as u64)
}

/// The sort key of a core sensor label.
pub open spec fn label_key(label: Seq<char>) -> Seq<u64> {
    match spec_trailing_number(label) {
        None => seq![0u64, 0u64] + char_codes(label),
        Some(n) => seq![1u64, n as u64] + char_codes(label),
    }
}

proof fn lemma_codes_le(a: Seq<char>, b: Seq<char>)
    ensures
        key_le(char_codes(a), char_codes(b)) == str_le(a, b),
    decreases a.len(),
{
    if a.len() > 0 && b.len() > 0 {
        assert(char_codes(a).drop_first() =~= char_codes(a.drop_first()));
        assert(char_codes(b).drop_first() =~= char_codes(b.drop_first()));
        lemma_codes_le(a.drop_first(), b.drop_first());
    }
}

/// Comparing sort keys is comparing labels in the core sensor order.
pub proof fn label_key_orders_labels(a: Seq<char>, b: Seq<char>)
    ensures
        key_le(label_key(a), label_key(b)) == core_label_le(a, b),
{
    lemma_codes_le(a, b);
    let (ka, kb) = (label_key(a), label_key(b));
    assert(ka.drop_first().drop_first() =~= char_codes(a));
    assert(kb.drop_first().drop_first() =~= char_codes(b));
    reveal_with_fuel(key_le, 3);
}

fn label_key_of(label: &str) -> (k: Vec<u64>)
    ensures
        k@ == label_key(label@),
{
    let n = trailing_number(label);
    let mut k: Vec<u64> = Vec::new();
    match n {
        None => {
            k.push(0);
            k.push(0);
        },
        Some(v) => {
            k.push(1);
            k.push(v as u64);
        },
    }
    let s = chars_of(label);
    let mut i: usize = 0;
    while i < s.len()
        invariant
            i <= s.len(),
            k@.len() == 2 + i,
            k@.take(2) == (match n {
                None => seq![0u64, 0u64],
                Some(v) => seq![1u64, v as u64],
            }),
            k@.skip(2) == char_codes(s@.take(i as int)),
        decreases s.len() - i,
    {
        let ghost before = k@;
        let code = s[i] as u32 as u64;
        k.push(code);
        i = i + 1;
        assert(k@.take(2) =~= before.take(2));
        assert(k@.skip(2) =~= before.skip(2).push(code));
        assert(char_codes(s@.take(i as int)) =~= char_codes(s@.take(i - 1)).push(code));
    }
    assert(s@.take(i as int) =~= s@);
    assert(k@ =~= k@.take(2) + k@.skip(2));
    k
}

/// The key each sensor is ordered by, paired with the sensor.
pub open spec fn with_label_keys<T>(s: Seq<(String, T)>) -> Seq<(Seq<u64>, (String, T))> {
    s.map_values(|e: (String, T)| (label_key(e.0@), e))
}

/// The order core sensors are listed in.
pub open spec fn core_order<T>(sensors: Seq<(String, T)>) -> Seq<(String, T)> {
    sort_by_key(with_label_keys(sensors)).map_values(|e: (Seq<u64>, (String, T))| e.1)
}

/// Orders core sensors by the index in their label ("Core 2" before "Core 10",
/// which a plain string sort would invert), then by label; directory order is
/// arbitrary, so this is what makes the list stable between refreshes.
/// Sensors that compare equal keep their order.
pub fn sort_core_sensors<T>(sensors: Vec<(String, T)>) -> (sorted: Vec<(String, T)>)
    ensures
        sorted@ == core_order(sensors@),
{
    let ghost input = sensors@;
    let mut items: Vec<(Vec<u64>, (String, T))> = Vec::new();
    let mut sensors = sensors;
    let ghost mut i: int = 0;
    while sensors.len() > 0
        invariant
            0 <= i <= input.len(),
            sensors@ == input.skip(i),
            keyed(items@) == with_label_keys(input.take(i)),
        decreases sensors.len(),
    {
        let ghost before = sensors@;
        let e = sensors.remove(0);
        let k = label_key_of(e.0.as_str());
        proof {
            assert(before[0] == input[i]);
            assert(sensors@ =~= input.skip(i + 1));
        }
        let ghost old_items = keyed(items@);
        let ghost entry = (k@, e);
        assert(entry == (label_key(input[i].0@), input[i]));
        items.push((k, e));
        proof {
            assert(keyed(items@) =~= old_items.push(entry));
            assert(with_label_keys(input.take(i + 1)) =~= with_label_keys(input.take(i)).push(
                entry,
            ));
            i = i + 1;
        }
    }
    assert(input.take(i) =~= input);
    let sorted_items = sort_keyed(items);
    let ghost target = sort_by_key(with_label_keys(input));
    let mut out: Vec<(String, T)> = Vec::new();
    let mut rest = sorted_items;
    let ghost mut j: int = 0;
    assert(keyed(rest@) =~= target.skip(0));
    while rest.len() > 0
        invariant
            0 <= j <= target.len(),
            keyed(rest@) == target.skip(j),
            out@ == target.take(j).map_values(|e: (Seq<u64>, (String, T))| e.1),
        decreases rest.len(),
    {
        let ghost before = keyed(rest@);
        let ghost raw = rest@;
        let e = rest.remove(0);
        proof {
            assert(keyed(raw).len() == raw.len());
            assert(j < target.len());
            assert(before[0] == target.skip(j)[0]);
            assert(before[0] == target[j]);
            assert(keyed(rest@) =~= before.drop_first());
            assert(keyed(rest@) =~= target.skip(j + 1));
            assert(e == raw[0]);
            assert(e.1 == target[j].1);
        }
        out.push(e.1);
        proof {
            j = j + 1;
            assert(out@ =~= target.take(j).map_values(|e: (Seq<u64>, (String, T))| e.1));
        }
    }
    assert(target.take(j) =~= target);
    out
}

/// Core sensors are listed in label order: by the number their label ends
/// with, labels without one first, then by label; and the list holds exactly
/// the sensors given.
pub proof fn core_sensors_are_listed_in_order<T>(sensors: Seq<(String, T)>)
    ensures
        forall|i: int, j: int|
            0 <= i < j < core_order(sensors).len() ==> core_label_le(
                core_order(sensors)[i].0@,
                core_order(sensors)[j].0@,
            ),
        core_order(sensors).to_multiset() == sensors.to_multiset(),
{
    broadcast use vstd::seq_lib::group_to_multiset_ensures;

    let s = with_label_keys(sensors);
    let t = sort_by_key(s);
    sorted_by_key(s);
    sort_is_permutation(s);
    assert forall|k: int| 0 <= k < t.len() implies #[trigger] t[k].0 == label_key(t[k].1.0@) by {
        assert(t.to_multiset().count(t[k]) > 0);
        assert(s.contains(t[k]));
    }
    let g = |e: (Seq<u64>, (String, T))| e.1;
    lemma_map_keeps_multiset(t, s, g);
    assert(core_order(sensors) =~= t.map_values(g));
    assert(s.map_values(g) =~= sensors);
    assert forall|i: int, j: int| 0 <= i < j < core_order(sensors).len() implies core_label_le(
        core_order(sensors)[i].0@,
        core_order(sensors)[j].0@,
    ) by {
        assert(key_le(t[i].0, t[j].0));
        assert(t[i].0 == label_key(t[i].1.0@));
        assert(t[j].0 == label_key(t[j].1.0@));
        label_key_orders_labels(t[i].1.0@, t[j].1.0@);
    }
}

// ---------------------------------------------------------------------------
// Package and core temperatures
// ---------------------------------------------------------------------------

/// What a CPU sensor reports, judged by its label.
#[derive(Debug, Clone, Copy, PartialEq, Eq, Structural)]
pub enum SensorRole {
    /// The whole package: `Tctl`/`Tdie` on AMD, `Package id N` on Intel.
    Package,
    /// One die (`TccdN`) or core (`Core N`).
    Core,
    /// Anything else.
    Other,
}

/// The capital ASCII letters lowered; any other character unchanged.
pub open spec fn ascii_lower(c: char) -> char {
    if 0x41 <= (c as u32) <= 0x5a {
        ((c as u32) + 0x20) as char
    } else {
        c
    }
}

/// The lowercase form of a string, by the full Unicode case mapping.
pub uninterp spec fn lowercase(s: Seq<char>) -> Seq<char>;

/// `str::to_lowercase`: the result is the Unicode lowercase mapping of the
/// string; for an ASCII string that is each capital letter replaced by its
/// lowercase letter, every other character kept. Beyond ASCII the mapping is
/// left to the Unicode tables.
#[verifier::external_body]
pub(crate) fn to_lowercase(s: &str) -> (l: String)
    ensures
        l@ == lowercase(s@),
        (forall|i: int| 0 <= i < s@.len() ==> (s@[i] as u32) < 0x80) ==> l@ == s@.map_values(
            |c: char| ascii_lower(c),
        ),
{
    s.to_lowercase()
}

/// AMD (`k10temp`/`zenpower`) reports `Tctl`/`Tdie` plus one `Tccd` per die,
/// Intel (`coretemp`) reports `Package id 0` plus one `Core N` each; both are
/// told apart by label rather than by index.
pub open spec fn spec_sensor_role(label: Seq<char>) -> SensorRole {
    let key = lowercase(label);
    if starts_with(key, "tctl"@) || starts_with(key, "tdie"@) || contains(key, "package"@) {
        SensorRole::Package
    } else if contains(key, "tccd"@) || contains(key, "core"@) {
        SensorRole::Core
    } else {
        SensorRole::Other
    }
}

pub fn sensor_role(label: &str) -> (r: SensorRole)
    ensures
        r == spec_sensor_role(label@),
{
    let key = chars_of(to_lowercase(label).as_str());
    if has_prefix(&key, "tctl") || has_prefix(&key, "tdie") || has_substr(&key, "package") {
        SensorRole::Package
    } else if has_substr(&key, "tccd") || has_substr(&key, "core") {
        SensorRole::Core
    } else {
        SensorRole::Other
    }
}

/// The package reading and the per-core ones among CPU sensor readings taken
/// in order: the last package reading wins; cores keep their order.
pub open spec fn split_readings<T>(readings: Seq<(String, T)>) -> (Option<T>, Seq<(String, T)>)
    decreases readings.len(),
{
    if readings.len() == 0 {
        (None, seq![])
    } else {
        let (package, cores) = split_readings(readings.drop_last());
        let (label, temp) = readings.last();
        match spec_sensor_role(label@) {
            SensorRole::Package => (Some(temp), cores),
            SensorRole::Core => (package, cores.push((label, temp))),
            SensorRole::Other => (package, cores),
        }
    }
}

/// Splits CPU sensor readings into the package reading and the per-core ones,
/// the cores sorted as [`sort_core_sensors`] sorts them.
///
/// `readings` are the `(label, temperature)` pairs of every chip that is one
/// of [`CPU_CHIPS`], in the order they were read.
pub fn read_temps<T: Copy>(readings: &[(String, T)]) -> (r: (Option<T>, Vec<(String, T)>))
    ensures
        r.0 == split_readings(readings@).0,
        r.1@ == core_order(split_readings(readings@).1),
{
    let mut package: Option<T> = None;
    let mut cores: Vec<(String, T)> = Vec::new();
    let mut i: usize = 0;
    while i < readings.len()
        invariant
            i <= readings.len(),
            (package, cores@) == split_readings(readings@.take(i as int)),
        decreases readings.len() - i,
    {
        let label = &readings[i].0;
        let temp = readings[i].1;
        let ghost prefix = readings@.take(i + 1);
        assert(prefix.drop_last() =~= readings@.take(i as int));
        match sensor_role(label.as_str()) {
            SensorRole::Package => {
                package = Some(temp);
            },
            SensorRole::Core => {
                cores.push((label.clone(), temp));
            },
            SensorRole::Other => {},
        }
        i = i + 1;
    }
    assert(readings@.take(i as int) =~= readings@);
    (package, sort_core_sensors(cores))
}

// ---------------------------------------------------------------------------
// Per-core list
// ---------------------------------------------------------------------------

/// The label and temperature shown for each of `cpus` online CPUs.
///
/// Sensors rarely map one-to-one onto logical CPUs — AMD exposes one sensor
/// per die, not per thread — so a dedicated reading is only used when there
/// are at least as many sensors as CPUs. Otherwise every core shares the best
/// available temperature: the first sensor's, or the package's.
pub open spec fn core_entry<T>(temps: Seq<(String, T)>, cpus: nat, package_temp: T, idx: int) -> (
    Seq<char>,
    T,
) {
    if temps.len() >= cpus && idx < temps.len() {
        (temps[idx].0@, temps[idx].1)
    } else {
        (
            "Core "@ + dec(idx as nat),
            if temps.len() > 0 {
                temps[0].1
            } else {
                package_temp
            },
        )
    }
}

pub fn core_sensors<T: Copy>(temps: &[(String, T)], cpus: usize, package_temp: T) -> (cores: Vec<
    (String, T),
>)
    ensures
        cores@.len() == cpus,
        forall|i: int|
            0 <= i < cpus ==> (#[trigger] cores@[i].0@, cores@[i].1) == core_entry(
                temps@,
                cpus as nat,
                package_temp,
                i,
            ),
{
    let per_sensor = temps.len() >= cpus;
    let shared = if temps.len() > 0 {
        temps[0].1
    } else {
        package_temp
    };
    let mut cores: Vec<(String, T)> = Vec::new();
    let mut idx: usize = 0;
    while idx < cpus
        invariant
            idx <= cpus,
            per_sensor == (temps@.len() >= cpus),
            shared == (if temps@.len() > 0 {
                temps@[0].1
            } else {
                package_temp
            }),
            cores@.len() == idx,
            forall|i: int|
                0 <= i < idx ==> (#[trigger] cores@[i].0@, cores@[i].1) == core_entry(
                    temps@,
                    cpus as nat,
                    package_temp,
                    i,
                ),
        decreases cpus - idx,
    {
        if per_sensor && idx < temps.len() {
            cores.push((temps[idx].0.clone(), temps[idx].1));
        } else {
            let mut label: Vec<char> = Vec::new();
            push_str(&mut label, "Core ");
            push_dec(&mut label, idx as u64);
            cores.push((string_of(&label), shared));
        }
        idx = idx + 1;
    }
    cores
}

/// Sum of the clock speeds that are present.
pub open spec fn freq_sum(freqs: Seq<Option<u32>>) -> nat
    decreases freqs.len(),
{
    if freqs.len() == 0 {
        0
    } else {
        freq_sum(freqs.drop_last()) + match freqs.last() {
            Some(f) => f as nat,
            None => 0,
        }
    }
}

/// How many clock speeds are present.
pub open spec fn freq_count(freqs: Seq<Option<u32>>) -> nat
    decreases freqs.len(),
{
    if freqs.len() == 0 {
        0
    } else {
        freq_count(freqs.drop_last()) + if freqs.last() is Some {
            1nat
        } else {
            0nat
        }
    }
}

proof fn lemma_freq_sum_bound(freqs: Seq<Option<u32>>)
    ensures
        freq_sum(freqs) <= freq_count(freqs) * (u32::MAX as nat),
        freq_count(freqs) <= freqs.len(),
    decreases freqs.len(),
{
    if freqs.len() > 0 {
        lemma_freq_sum_bound(freqs.drop_last());
    }
}

/// Mean clock speed across the cores that report one, or 0 if none do.
pub open spec fn spec_average_frequency(freqs: Seq<Option<u32>>) -> u32 {
    if freq_count(freqs) == 0 {
        0
    } else {
        (freq_sum(freqs) / freq_count(freqs)) as u32
    }
}

/// Mean clock speed, in MHz, across the cores that report one (each core's
/// `freq_mhz`), or 0 if none do.
pub fn average_frequency(freqs: &[Option<u32>]) -> (mhz: u32)
    requires
        freq_sum(freqs@) <= u64::MAX,
    ensures
        mhz == spec_average_frequency(freqs@),
        freq_count(freqs@) > 0 ==> mhz as nat * freq_count(freqs@) <= freq_sum(freqs@),
{
    let mut total: u64 = 0;
    let mut count: u64 = 0;
    let mut i: usize = 0;
    while i < freqs.len()
        invariant
            i <= freqs.len(),
            freq_sum(freqs@) <= u64::MAX,
            total == freq_sum(freqs@.take(i as int)),
            count == freq_count(freqs@.take(i as int)),
            freq_sum(freqs@.take(i as int)) <= freq_sum(freqs@),
        decreases freqs.len() - i,
    {
        let ghost pre = freqs@.take(i + 1);
        assert(pre.drop_last() =~= freqs@.take(i as int));
        proof {
            lemma_freq_sum_bound(freqs@.take(i as int));
            lemma_freq_sum_prefix(freqs@, i + 1);
        }
        match freqs[i] {
            Some(f) => {
                total = total + f as u64;
                count = count + 1;
            },
            None => {},
        }
        i = i + 1;
    }
    assert(freqs@.take(i as int) =~= freqs@);
    if count == 0 {
        return 0;
    }
    proof {
        lemma_freq_sum_bound(freqs@);
        assert(total / count <= u32::MAX) by (nonlinear_arith)
            requires
                total <= count * (u32::MAX as nat),
                count > 0,
        ;
        assert((total / count) * count <= total) by (nonlinear_arith)
            requires
                count > 0,
        ;
    }
    (total / count) as u32
}

proof fn lemma_freq_sum_prefix(freqs: Seq<Option<u32>>, k: int)
    requires
        0 <= k <= freqs.len(),
    ensures
        freq_sum(freqs.take(k)) <= freq_sum(freqs),
        freq_count(freqs.take(k)) <= freq_count(freqs),
    decreases freqs.len(),
{
    if k < freqs.len() {
        assert(freqs.drop_last().take(k) =~= freqs.take(k));
        lemma_freq_sum_prefix(freqs.drop_last(), k);
    } else {
        assert(freqs.take(k) =~= freqs);
    }
}

// ---------------------------------------------------------------------------
// /proc/cpuinfo, /sys/devices/system/cpu, /proc/loadavg, /proc/sys/fs/file-nr
// ---------------------------------------------------------------------------

/// The model name when `/proc/cpuinfo` offers none.
pub const UNKNOWN_MODEL: &'static str = "Processor";

/// The first line of `ls` that starts with `model name`.
pub open spec fn first_model_line(ls: Seq<Seq<char>>) -> Option<Seq<char>>
    decreases ls.len(),
{
    if ls.len() == 0 {
        None
    } else if starts_with(ls[0], "model name"@) {
        Some(ls[0])
    } else {
        first_model_line(ls.drop_first())
    }
}

/// The CPU's marketing name, from the first `model name` line of
/// `/proc/cpuinfo` (every core repeats the same value).
pub open spec fn spec_read_model(cpuinfo: Option<Seq<char>>) -> Seq<char> {
    match read_trimmed(cpuinfo) {
        None => UNKNOWN_MODEL@,
        Some(contents) => model_in(lines(contents)),
    }
}

/// The model named by the first `model name` line among `ls`.
pub open spec fn model_in(ls: Seq<Seq<char>>) -> Seq<char> {
    match first_model_line(ls) {
        None => UNKNOWN_MODEL@,
        Some(line) => match split_once(line, ':') {
            Some((_key, model)) => trim(model),
            None => UNKNOWN_MODEL@,
        },
    }
}

fn model_in_text(contents: &[char]) -> (model: String)
    ensures
        model@ == model_in(lines(contents@)),
{
    let ls = split_lines(contents);
    let ghost all = views(ls@);
    assert(all.skip(0) =~= all);
    let mut i: usize = 0;
    while i < ls.len()
        invariant
            i <= ls.len(),
            all == views(ls@),
            all == lines(contents@),
            first_model_line(all) == first_model_line(all.skip(i as int)),
        decreases ls.len() - i,
    {
        let ghost rest = all.skip(i as int);
        assert(rest[0] == all[i as int]);
        assert(rest.drop_first() =~= all.skip(i + 1));
        if has_prefix(&ls[i], "model name") {
            assert(first_model_line(rest) == Some(all[i as int]));
            assert(all[i as int] == ls@[i as int]@);
            let split = split_once_char(&ls[i], ':');
            match split {
                Some((_key, model)) => {
                    let m = trimmed(&model);
                    return string_of(&m);
                },
                None => {
                    return String::from_str(UNKNOWN_MODEL);
                },
            }
        }
        i = i + 1;
    }
    String::from_str(UNKNOWN_MODEL)
}

/// The CPU's marketing name, from the contents of `/proc/cpuinfo` (`None` when
/// it could not be read), trimmed first as the applet's file reads are.
pub fn read_model(cpuinfo: Option<&str>) -> (model: String)
    ensures
        model@ == spec_read_model(file_view(cpuinfo)),
{
    let Some(raw) = cpuinfo else {
        return String::from_str(UNKNOWN_MODEL);
    };
    let chars = chars_of(raw);
    let contents = trimmed(&chars);
    model_in_text(&contents)
}

/// The CPU's marketing name as the single-pass reader finds it: in the
/// contents of `/proc/cpuinfo` as read, untrimmed.
pub fn parse_cpu_model(cpuinfo: Option<&str>) -> (model: String)
    ensures
        model@ == match cpuinfo {
            None => UNKNOWN_MODEL@,
            Some(s) => model_in(lines(s@)),
        },
{
    let Some(raw) = cpuinfo else {
        return String::from_str(UNKNOWN_MODEL);
    };
    let chars = chars_of(raw);
    model_in_text(&chars)
}

/// The highest online CPU index, from `/sys/devices/system/cpu/online`,
/// which holds a range like `0-15`; a single-CPU machine reports just `0`,
/// with no range, and so has none.
pub open spec fn spec_highest_online_index(online: Option<Seq<char>>) -> Option<usize> {
    match read_trimmed(online) {
        None => None,
        Some(range) => match split_once(range, '-') {
            None => None,
            Some((_first, last)) => parse_usize(last),
        },
    }
}

pub fn highest_online_index(online: Option<&str>) -> (h: Option<usize>)
    ensures
        h == spec_highest_online_index(file_view(online)),
{
    let raw = online?;
    let chars = chars_of(raw);
    let range = trimmed(&chars);
    match split_once_char(&range, '-') {
        None => None,
        Some((_first, last)) => parse_usize_chars(&last),
    }
}

/// How many logical CPUs are online: the highest index plus one, or 1 when
/// the file is missing or holds no range.
pub open spec fn spec_online_cpus(online: Option<Seq<char>>) -> nat {
    match spec_highest_online_index(online) {
        Some(h) => (h + 1) as nat,
        None => 1,
    }
}

pub fn online_cpus(online: Option<&str>) -> (n: usize)
    requires
        spec_highest_online_index(file_view(online)) != Some(usize::MAX),
    ensures
        n == spec_online_cpus(file_view(online)),
{
    match highest_online_index(online) {
        Some(highest_index) => highest_index + 1,
        None => 1,
    }
}

/// A core's current clock speed in MHz, from its `scaling_cur_freq` in kHz.
///
/// `None` when the kernel exposes no scaling driver for it, which is normal on
/// virtual machines.
pub open spec fn spec_core_freq(scaling_cur_freq: Option<Seq<char>>) -> Option<u32> {
    match read_trimmed(scaling_cur_freq) {
        None => None,
        Some(s) => match parse_u32(s) {
            Some(khz) => Some((khz / 1000) as u32),
            None => None,
        },
    }
}

pub fn read_core_freq(scaling_cur_freq: Option<&str>) -> (mhz: Option<u32>)
    ensures
        mhz == spec_core_freq(file_view(scaling_cur_freq)),
{
    let raw = scaling_cur_freq?;
    let chars = chars_of(raw);
    let t = trimmed(&chars);
    let kilohertz = parse_u32_chars(&t)?;
    Some(kilohertz / 1000)
}

/// Whether a `/proc` entry is a process: its name is a PID.
pub open spec fn spec_is_process_entry(name: Seq<char>) -> bool {
    parse_u32(name) is Some
}

pub fn is_process_entry(name: &str) -> (b: bool)
    ensures
        b == spec_is_process_entry(name@),
{
    let n = chars_of(name);
    parse_u32_chars(&n).is_some()
}

/// Total threads, from the `running/total` field of `/proc/loadavg`.
///
/// A line reads `3.52 2.27 1.89 2/2189 90312`, so the fourth field's second
/// half is what we want; 0 when it is missing or malformed.
pub open spec fn spec_thread_count(loadavg: Option<Seq<char>>) -> usize {
    match read_trimmed(loadavg) {
        None => 0,
        Some(contents) => {
            let fields = words(contents);
            if fields.len() <= 3 {
                0
            } else {
                match split_once(fields[3], '/') {
                    None => 0,
                    Some((_running, total)) => match parse_usize(total) {
                        Some(n) => n,
                        None => 0,
                    },
                }
            }
        },
    }
}

pub fn read_thread_count(loadavg: Option<&str>) -> (n: usize)
    ensures
        n == spec_thread_count(file_view(loadavg)),
{
    let Some(raw) = loadavg else {
        return 0;
    };
    let chars = chars_of(raw);
    let contents = trimmed(&chars);
    let fields = split_words(&contents);
    if fields.len() <= 3 {
        return 0;
    }
    let Some((_running, total)) = split_once_char(&fields[3], '/') else {
        return 0;
    };
    match parse_usize_chars(&total) {
        Some(n) => n,
        None => 0,
    }
}

/// Open file descriptors system-wide — Linux's equivalent of Windows handles.
///
/// `/proc/sys/fs/file-nr` holds `allocated  free  maximum`; 0 when it is
/// missing or malformed.
pub open spec fn spec_open_handles(file_nr: Option<Seq<char>>) -> usize {
    match read_trimmed(file_nr) {
        None => 0,
        Some(contents) => {
            let fields = words(contents);
            if fields.len() == 0 {
                0
            } else {
                match parse_usize(fields[0]) {
                    Some(n) => n,
                    None => 0,
                }
            }
        },
    }
}

pub fn read_open_handles(file_nr: Option<&str>) -> (n: usize)
    ensures
        n == spec_open_handles(file_view(file_nr)),
{
    let Some(raw) = file_nr else {
        return 0;
    };
    let chars = chars_of(raw);
    let contents = trimmed(&chars);
    let fields = split_words(&contents);
    if fields.len() == 0 {
        return 0;
    }
    match parse_usize_chars(&fields[0]) {
        Some(n) => n,
        None => 0,
    }
}

// ---------------------------------------------------------------------------
// The collector
// ---------------------------------------------------------------------------

/// Reads CPU state, holding on to whatever must survive between refreshes:
/// the utilisation counters, the energy counter, and the model name that is
/// only worth reading once.
pub struct CpuCollector {
    /// `/proc/cpuinfo` cannot change while we run, so it is parsed once.
    pub model: String,
    pub usage: UsageTracker,
    /// The last energy reading, in microjoules, and when it was taken.
    pub previous_energy: Option<(u64, Instant)>,
}

impl CpuCollector {
    /// A collector for a CPU whose `/proc/cpuinfo` holds `cpuinfo` (`None`
    /// when it could not be read).
    pub fn new(cpuinfo: Option<&str>) -> (c: Self)
        ensures
            c.model@ == spec_read_model(file_view(cpuinfo)),
            c.usage.previous_overall() is None,
            c.usage.previous_cores() == Map::<usize, usage::CpuTimes>::empty(),
            c.previous_energy is None,
    {
        CpuCollector { model: read_model(cpuinfo), usage: UsageTracker::new(), previous_energy: None }
    }

    /// Records a reading of the RAPL energy counter (`energy_uj`, in
    /// microjoules, taken at `now`) and returns the energy used since the
    /// previous reading with when that was taken, from which power is the
    /// quotient. The counter is finite and wraps back to zero, so a smaller
    /// reading counts as no energy used.
    pub fn record_energy(&mut self, energy_uj: u64, now: Instant) -> (since: Option<(u64, Instant)>)
        ensures
            final(self).previous_energy == Some((energy_uj, now)),
            final(self).model == old(self).model,
            final(self).usage == old(self).usage,
            match old(self).previous_energy {
                None => since is None,
                Some((previous_uj, previous_at)) => since == Some(
                    (
                        (if energy_uj >= previous_uj {
                            energy_uj - previous_uj
                        } else {
                            0
                        }) as u64,
                        previous_at,
                    ),
                ),
            },
    {
        let since = match self.previous_energy {
            None => None,
            Some((previous_uj, previous_at)) => Some(
                (energy_uj.saturating_sub(previous_uj), previous_at),
            ),
        };
        self.previous_energy = Some((energy_uj, now));
        since
    }
}

} // verus!
