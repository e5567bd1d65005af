//! GPU detection and the parsing of what AMD (sysfs), NVIDIA (`nvidia-smi`)
//! and Intel (hwmon) report.
//!
//! The three vendors expose completely different interfaces, so the
//! collector works out which one applies at start-up and then reads only
//! that one. That matters for more than tidiness: naming a GPU can mean
//! running `lspci`, and doing so on every refresh would spawn a process
//! twice a second.
use std::path::PathBuf;
use vstd::prelude::*;

use crate::hardware::sysfs::Hwmon;
use crate::text::{
    chars_eq_str,
    chars_of,
    contains,
    ends_with,
    file_u64,
    file_view,
    find,
    first_occurrence,
    has_substr,
    lines,
    occurs_at,
    parse_file_u64,
    parse_u32,
    parse_u32_chars,
    parse_u64,
    parse_u64_chars,
    push_str,
    read_trimmed,
    rsplit_once,
    rsplit_once_char,
    slice_of,
    split_lines,
    split_once,
    split_once_char,
    split_words,
    string_of,
    trim,
    trimmed,
    views,
    words,
    split_char,
    split_on,
};

verus! {

/// Shown, in degrees Celsius, when a GPU is present but exposes no
/// temperature sensor.
pub const DEFAULT_EDGE_TEMP: u32 = 35;

/// Whether a character has the Unicode `Alphabetic` property.
pub uninterp spec fn alphabetic(c: char) -> bool;

/// `char::is_alphabetic`: the result is the character's Unicode
/// `Alphabetic` property, which among ASCII characters holds exactly for the
/// letters. What it is for other characters is left to the Unicode tables.
pub assume_specification[ char::is_alphabetic ](c: char) -> (b: bool)
    ensures
        b == alphabetic(c),
        (c as u32) < 0x80 ==> (b <==> (0x41 <= (c as u32) <= 0x5a || 0x61 <= (c as u32) <= 0x7a)),
;

/// The GPU vendors with a hwmon driver to look for.
#[derive(Debug, Clone, Copy, PartialEq, Eq, Structural)]
pub enum Vendor {
    Amd,
    Intel,
}

pub open spec fn spec_is_amd(driver: Seq<char>) -> bool {
    driver == "amdgpu"@
}

/// `i915` drives older Intel graphics, `xe` the newer ones.
pub open spec fn spec_is_intel(driver: Seq<char>) -> bool {
    contains(driver, "i915"@) || contains(driver, "xe"@)
}

pub open spec fn spec_matches(vendor: Vendor, driver: Seq<char>) -> bool {
    match vendor {
        Vendor::Amd => spec_is_amd(driver),
        Vendor::Intel => spec_is_intel(driver),
    }
}

pub fn is_amd(driver: &str) -> (b: bool)
    ensures
        b == spec_is_amd(driver@),
{
    let d = chars_of(driver);
    chars_eq_str(&d, "amdgpu")
}

pub fn is_intel(driver: &str) -> (b: bool)
    ensures
        b == spec_is_intel(driver@),
{
    let d = chars_of(driver);
    has_substr(&d, "i915") || has_substr(&d, "xe")
}

/// The first chip driven by the given vendor's driver.
pub fn find_chip<'a>(chips: &'a [Hwmon], vendor: Vendor) -> (chip: Option<&'a Hwmon>)
    ensures
        chip is None <==> forall|i: int| 0 <= i < chips@.len() ==> !spec_matches(vendor, #[trigger] chips@[i].name@),
        chip matches Some(c) ==> exists|i: int|
            0 <= i < chips@.len() && chips@[i] == *c && spec_matches(vendor, c.name@) && forall|j: int|
                0 <= j < i ==> !spec_matches(vendor, #[trigger] chips@[j].name@),
{
    let mut i: usize = 0;
    while i < chips.len()
        invariant
            i <= chips.len(),
            forall|j: int| 0 <= j < i ==> !spec_matches(vendor, #[trigger] chips@[j].name@),
        decreases chips.len() - i,
    {
        let name = chips[i].name.as_str();
        let found = match vendor {
            Vendor::Amd => is_amd(name),
            Vendor::Intel => is_intel(name),
        };
        if found {
            return Some(&chips[i]);
        }
        i = i + 1;
    }
    None
}

/// Parses value `index` of an `nvidia-smi` row; a field the card doesn't
/// support reads "N/A" and so parses to `None`.
pub fn reading(readings: &[String], index: usize) -> (v: Option<u64>)
    ensures
        v == (if index < readings@.len() {
            parse_u64(readings@[index as int]@)
        } else {
            None
        }),
{
    if index >= readings.len() {
        return None;
    }
    let s = chars_of(readings[index].as_str());
    parse_u64_chars(&s)
}

/// Value `index` of an `nvidia-smi` row as a `u32`.
pub fn reading_u32(readings: &[String], index: usize) -> (v: Option<u32>)
    ensures
        v == (if index < readings@.len() {
            parse_u32(readings@[index as int]@)
        } else {
            None
        }),
{
    if index >= readings.len() {
        return None;
    }
    let s = chars_of(readings[index].as_str());
    parse_u32_chars(&s)
}

/// Video memory reported in MiB, in bytes; an absent reading counts as none.
pub fn vram_bytes(readings: &[String], index: usize) -> (bytes: u64)
    requires
        index < readings@.len() ==> match parse_u64(readings@[index as int]@) {
            Some(mb) => mb * 1024 * 1024 <= u64::MAX,
            None => true,
        },
    ensures
        bytes == match (if index < readings@.len() {
            parse_u64(readings@[index as int]@)
        } else {
            None
        }) {
            Some(mb) => mb * 1024 * 1024,
            None => 0,
        },
{
    let mb = match reading(readings, index) {
        Some(v) => v,
        None => 0,
    };
    mb * 1024 * 1024
}

/// AMD shader clock in MHz, from hwmon's `freq1_input` in hertz.
pub open spec fn spec_amd_clock_mhz(freq1_input: Option<Seq<char>>) -> Option<u32> {
    match file_u64(freq1_input) {
        Some(hertz) => Some((hertz / 1_000_000) as u32),
        None => None,
    }
}

pub fn amd_clock_mhz(freq1_input: Option<&str>) -> (mhz: Option<u32>)
    ensures
        mhz == spec_amd_clock_mhz(file_view(freq1_input)),
{
    let hertz = parse_file_u64(freq1_input)?;
    Some((hertz / 1_000_000) as u32)
}

/// A DRM device attribute holding one number.
pub fn read_drm_value(file: Option<&str>) -> (v: Option<u64>)
    ensures
        v == file_u64(file_view(file)),
{
    parse_file_u64(file)
}

/// GPU load in percent from `gpu_busy_percent`, capped at 100; 0 when it
/// could not be read.
pub fn utilization_percent(busy: Option<u64>) -> (p: u32)
    ensures
        p == match busy {
            Some(b) => if b <= 100 {
                b
            } else {
                100
            },
            None => 0,
        },
{
    let b = match busy {
        Some(b) => b,
        None => 0,
    };
    (if b < 100 {
        b
    } else {
        100
    }) as u32
}

// ---------------------------------------------------------------------------
// The shader clock table
// ---------------------------------------------------------------------------

/// Number of alphabetic characters `s` ends with.
pub open spec fn trailing_alpha_count(s: Seq<char>) -> nat
    decreases s.len(),
{
    if s.len() > 0 && alphabetic(s.last()) {
        1 + trailing_alpha_count(s.drop_last())
    } else {
        0
    }
}

proof fn lemma_trailing_alpha(s: Seq<char>, k: int)
    requires
        0 <= k <= s.len(),
        forall|j: int| s.len() - k <= j < s.len() ==> alphabetic(s[j]),
        k == s.len() || !alphabetic(s[s.len() - k - 1]),
    ensures
        trailing_alpha_count(s) == k,
    decreases k,
{
    if k > 0 {
        lemma_trailing_alpha(s.drop_last(), k - 1);
    }
}

/// The first line of `ls` that ends with `*`.
pub open spec fn first_starred(ls: Seq<Seq<char>>) -> Option<Seq<char>>
    decreases ls.len(),
{
    if ls.len() == 0 {
        None
    } else if ends_with(ls[0], "*"@) {
        Some(ls[0])
    } else {
        first_starred(ls.drop_first())
    }
}

/// The active clock from AMD's `pp_dpm_sclk`, which lists every clock state
/// with the current one marked:
///
/// ```text
/// 0: 500Mhz
/// 1: 897Mhz *
/// 2: 2970Mhz
/// ```
///
/// The speed is the second field, with its "Mhz" suffix stripped (its
/// capitalisation varies by driver version).
pub open spec fn spec_current_sclk(table: Option<Seq<char>>) -> Option<u32> {
    match read_trimmed(table) {
        None => None,
        Some(t) => match first_starred(lines(t)) {
            None => None,
            Some(line) => {
                let fields = words(line);
                if fields.len() < 2 {
                    None
                } else {
                    parse_u32(fields[1].take(fields[1].len() - trailing_alpha_count(fields[1])))
                }
            },
        },
    }
}

pub fn current_sclk(table: Option<&str>) -> (mhz: Option<u32>)
    ensures
        mhz == spec_current_sclk(file_view(table)),
{
    let raw = table?;
    let chars = chars_of(raw);
    let t = trimmed(&chars);
    let ls = split_lines(&t);
    let ghost all = views(ls@);
    assert(all.skip(0) =~= all);
    let mut i: usize = 0;
    while i < ls.len()
        invariant
            i <= ls.len(),
            all == views(ls@),
            all == lines(trim(raw@)),
            read_trimmed(file_view(table)) == Some(trim(raw@)),
            first_starred(all) == first_starred(all.skip(i as int)),
        decreases ls.len() - i,
    {
        let ghost rest = all.skip(i as int);
        assert(rest[0] == all[i as int]);
        assert(rest.drop_first() =~= all.skip(i + 1));
        assert(all[i as int] == ls@[i as int]@);
        let line = &ls[i];
        if line.len() > 0 && line[line.len() - 1] == '*' {
            proof {
                reveal_strlit("*");
                assert(line@.skip(line@.len() - 1) =~= "*"@);
            }
            let fields = split_words(line);
            if fields.len() < 2 {
                return None;
            }
            let speed = &fields[1];
            let mut k: usize = 0;
            while k < speed.len() && speed[speed.len() - k - 1].is_alphabetic()
                invariant
                    k <= speed.len(),
                    forall|j: int| speed@.len() - k <= j < speed@.len() ==> alphabetic(speed@[j]),
                decreases speed.len() - k,
            {
                k = k + 1;
            }
            proof {
                lemma_trailing_alpha(speed@, k as int);
            }
            let digits = slice_of(speed, 0, speed.len() - k);
            assert(digits@ =~= speed@.take(speed@.len() - k));
            return parse_u32_chars(&digits);
        }
        proof {
            reveal_strlit("*");
            if ends_with(line@, "*"@) {
                assert(line@.skip(line@.len() - 1)[0] == line@[line@.len() - 1]);
            }
        }
        i = i + 1;
    }
    None
}

// ---------------------------------------------------------------------------
// Names
// ---------------------------------------------------------------------------

/// The name the AMD driver advertises in `product_name`, unless it is empty.
pub open spec fn spec_driver_product_name(product_name: Option<Seq<char>>) -> Option<Seq<char>> {
    match read_trimmed(product_name) {
        Some(name) => if name.len() > 0 {
            Some(name)
        } else {
            None
        },
        None => None,
    }
}

pub fn driver_product_name(product_name: Option<&str>) -> (name: Option<String>)
    ensures
        name matches Some(n) ==> spec_driver_product_name(file_view(product_name)) == Some(n@),
        name is None <==> spec_driver_product_name(file_view(product_name)) is None,
{
    let raw = product_name?;
    let chars = chars_of(raw);
    let t = trimmed(&chars);
    if t.len() == 0 {
        return None;
    }
    Some(string_of(&t))
}

/// Reduces an `lspci` description to the name a person would recognise.
///
/// Descriptions are verbose:
///
/// ```text
/// Advanced Micro Devices, Inc. [AMD/ATI] Navi 48 [Radeon RX 9070 XT] (rev c0)
///                                                 ^ the retail name
/// ```
///
/// The retail name is the last bracketed group. Where there isn't one, the
/// revision suffix is the only part worth dropping.
pub open spec fn spec_marketing_name(description: Seq<char>) -> Seq<char> {
    let bracketed = match rsplit_once(description, '[') {
        Some((_before, tail)) => match split_once(tail, ']') {
            Some((name, _after)) => Some(name),
            None => None,
        },
        None => None,
    };
    match bracketed {
        Some(name) => trim(name),
        None => match split_once_pat(description, " (rev "@) {
            Some((name, _revision)) => trim(name),
            None => trim(description),
        },
    }
}

/// The parts before and after the first occurrence of `pat` in `s`.
pub open spec fn split_once_pat(s: Seq<char>, pat: Seq<char>) -> Option<(Seq<char>, Seq<char>)> {
    match first_occurrence(s, pat) {
        Some(i) => Some((s.take(i), s.skip(i + pat.len()))),
        None => None,
    }
}

/// `str::split_once` with a string pattern.
pub fn split_once_str(s: &[char], pat: &str) -> (r: Option<(Vec<char>, Vec<char>)>)
    ensures
        r is Some <==> split_once_pat(s@, pat@) is Some,
        r matches Some(p) ==> split_once_pat(s@, pat@) == Some((p.0@, p.1@)),
{
    let p = chars_of(pat);
    match find(s, &p) {
        None => None,
        Some(i) => {
            assert(occurs_at(s@, p@, i as int));
            let ghost j = choose|j: int|
                occurs_at(s@, p@, j) && forall|k: int| 0 <= k < j ==> !occurs_at(s@, p@, k);
            assert(j == i) by {
                if j < i {
                    assert(!occurs_at(s@, p@, j));
                } else if j > i {
                    assert(!occurs_at(s@, p@, i as int));
                }
            }
            assert(i + p@.len() <= s@.len());
            let n = s.len();
            let m = p.len();
            assert(i + m <= n);
            let end = i + m;
            Some((slice_of(s, 0, i), slice_of(s, end, s.len())))
        },
    }
}

pub fn marketing_name(description: &str) -> (name: String)
    ensures
        name@ == spec_marketing_name(description@),
{
    let d = chars_of(description);
    match rsplit_once_char(&d, '[') {
        Some((_before, tail)) => {
            match split_once_char(&tail, ']') {
                Some((name, _after)) => {
                    return string_of(&trimmed(&name));
                },
                None => {},
            }
        },
        None => {},
    }
    match split_once_str(&d, " (rev ") {
        Some((name, _revision)) => string_of(&trimmed(&name)),
        None => string_of(&trimmed(&d)),
    }
}

/// Whether an `lspci` line describes a display controller.
pub open spec fn is_gpu_line(line: Seq<char>) -> bool {
    contains(line, "VGA compatible controller"@) || contains(line, "3D controller"@)
}

/// The first display controller line of `ls` that mentions `vendor`.
pub open spec fn first_gpu_line(ls: Seq<Seq<char>>, vendor: Seq<char>) -> Option<Seq<char>>
    decreases ls.len(),
{
    if ls.len() == 0 {
        None
    } else if is_gpu_line(ls[0]) && contains(ls[0], vendor) {
        Some(ls[0])
    } else {
        first_gpu_line(ls.drop_first(), vendor)
    }
}

/// A readable name for `vendor`'s GPU from an `lspci` listing: the
/// marketing name of the description after the bus address.
pub open spec fn spec_lspci_name(listing: Seq<char>, vendor: Seq<char>) -> Option<Seq<char>> {
    match first_gpu_line(lines(listing), vendor) {
        None => None,
        Some(line) => match split_once_pat(line, ": "@) {
            None => None,
            Some((_address, description)) => Some(spec_marketing_name(trim(description))),
        },
    }
}

proof fn lemma_first_gpu_line(ls: Seq<Seq<char>>, vendor: Seq<char>, k: int)
    requires
        0 <= k < ls.len(),
        contains(ls[k], "VGA compatible controller"@) || contains(ls[k], "3D controller"@),
        contains(ls[k], vendor),
        forall|j: int|
            0 <= j < k ==> !((contains(#[trigger] ls[j], "VGA compatible controller"@) || contains(
                ls[j],
                "3D controller"@,
            )) && contains(ls[j], vendor)),
    ensures
        first_gpu_line(ls, vendor) == Some(ls[k]),
    decreases k,
{
    if k > 0 {
        let rest = ls.drop_first();
        assert(!((contains(ls[0], "VGA compatible controller"@) || contains(ls[0], "3D controller"@))
            && contains(ls[0], vendor)));
        assert forall|j: int| 0 <= j < k - 1 implies !((contains(
            #[trigger] rest[j],
            "VGA compatible controller"@,
        ) || contains(rest[j], "3D controller"@)) && contains(rest[j], vendor)) by {
            assert(rest[j] == ls[j + 1]);
        }
        assert(rest[k - 1] == ls[k]);
        lemma_first_gpu_line(rest, vendor, k - 1);
    }
}

/// `lspci` names the vendor's card from the first line of the listing that
/// mentions the vendor and describes a display controller, whether a
/// "VGA compatible controller" or a "3D controller" (as discrete and hybrid
/// cards are listed): the marketing name of what follows the bus address.
pub proof fn lspci_names_the_first_display_controller(listing: Seq<char>, vendor: Seq<char>, k: int)
    requires
        0 <= k < lines(listing).len(),
        contains(lines(listing)[k], "VGA compatible controller"@) || contains(
            lines(listing)[k],
            "3D controller"@,
        ),
        contains(lines(listing)[k], vendor),
        forall|j: int|
            0 <= j < k ==> !((contains(#[trigger] lines(listing)[j], "VGA compatible controller"@)
                || contains(lines(listing)[j], "3D controller"@)) && contains(
                lines(listing)[j],
                vendor,
            )),
    ensures
        spec_lspci_name(listing, vendor) == match split_once_pat(lines(listing)[k], ": "@) {
            None => None,
            Some((_address, description)) => Some(spec_marketing_name(trim(description))),
        },
{
    lemma_first_gpu_line(lines(listing), vendor, k);
}

pub fn lspci_name(listing: &str, vendor: &str) -> (name: Option<String>)
    ensures
        name matches Some(n) ==> spec_lspci_name(listing@, vendor@) == Some(n@),
        name is None <==> spec_lspci_name(listing@, vendor@) is None,
{
    let chars = chars_of(listing);
    let ls = split_lines(&chars);
    let ghost all = views(ls@);
    assert(all.skip(0) =~= all);
    let mut i: usize = 0;
    while i < ls.len()
        invariant
            i <= ls.len(),
            all == views(ls@),
            all == lines(listing@),
            first_gpu_line(all, vendor@) == first_gpu_line(all.skip(i as int), vendor@),
        decreases ls.len() - i,
    {
        let ghost rest = all.skip(i as int);
        assert(rest[0] == all[i as int]);
        assert(rest.drop_first() =~= all.skip(i + 1));
        assert(all[i as int] == ls@[i as int]@);
        let line = &ls[i];
        if (has_substr(line, "VGA compatible controller") || has_substr(line, "3D controller"))
            && has_substr(line, vendor) {
            return match split_once_str(line, ": ") {
                None => None,
                Some((_address, description)) => {
                    let d = string_of(&trimmed(&description));
                    Some(marketing_name(d.as_str()))
                },
            };
        }
        i = i + 1;
    }
    None
}

// ---------------------------------------------------------------------------
// nvidia-smi
// ---------------------------------------------------------------------------

/// `fields` joined with `,`.
pub open spec fn joined(fields: Seq<Seq<char>>) -> Seq<char>
    decreases fields.len(),
{
    if fields.len() == 0 {
        seq![]
    } else if fields.len() == 1 {
        fields[0]
    } else {
        joined(fields.drop_last()) + seq![','] + fields.last()
    }
}

/// The `--query-gpu` argument asking `nvidia-smi` for `fields`.
pub fn nvidia_query_arg(fields: &[&str]) -> (arg: String)
    ensures
        arg@ == "--query-gpu="@ + joined(fields@.map_values(|f: &str| f@)),
{
    let mut out: Vec<char> = Vec::new();
    push_str(&mut out, "--query-gpu=");
    let ghost head = out@;
    let ghost fs = fields@.map_values(|f: &str| f@);
    let mut i: usize = 0;
    while i < fields.len()
        invariant
            i <= fields.len(),
            fs == fields@.map_values(|f: &str| f@),
            out@ == head + joined(fs.take(i as int)),
        decreases fields.len() - i,
    {
        if i > 0 {
            out.push(',');
        }
        push_str(&mut out, fields[i]);
        i = i + 1;
        assert(fs.take(i as int).drop_last() =~= fs.take(i - 1));
        assert(out@ =~= head + joined(fs.take(i as int)));
    }
    assert(fs.take(i as int) =~= fs);
    string_of(&out)
}

/// The values of the first line of `nvidia-smi`'s csv output (queried with
/// `noheader` and `nounits`), trimmed; `None` when there is no line, or when
/// the row is short: the driver didn't understand a field we asked for.
pub open spec fn spec_nvidia_row(stdout: Seq<char>, count: nat) -> Option<Seq<Seq<char>>> {
    let ls = lines(stdout);
    if ls.len() == 0 {
        None
    } else {
        let values = split_on(ls[0], ',').map_values(|v: Seq<char>| trim(v));
        if values.len() != count {
            None
        } else {
            Some(values)
        }
    }
}

pub fn nvidia_row(stdout: &str, count: usize) -> (values: Option<Vec<String>>)
    ensures
        values is None <==> spec_nvidia_row(stdout@, count as nat) is None,
        values matches Some(v) ==> spec_nvidia_row(stdout@, count as nat) == Some(
            v@.map_values(|s: String| s@),
        ),
{
    let chars = chars_of(stdout);
    let ls = split_lines(&chars);
    if ls.len() == 0 {
        return None;
    }
    let pieces = split_char(&ls[0], ',');
    let mut values: Vec<String> = Vec::new();
    let mut i: usize = 0;
    while i < pieces.len()
        invariant
            i <= pieces.len(),
            values@.map_values(|s: String| s@) == views(pieces@).take(i as int).map_values(
                |v: Seq<char>| trim(v),
            ),
        decreases pieces.len() - i,
    {
        let v = trimmed(&pieces[i]);
        let ghost before = values@;
        let sv = string_of(&v);
        values.push(sv);
        proof {
            let ps = views(pieces@);
            assert(values@ =~= before.push(sv));
            assert(values@.map_values(|s: String| s@) =~= before.map_values(|s: String| s@).push(
                sv@,
            ));
            assert(ps.take(i + 1) =~= ps.take(i as int).push(ps[i as int]));
            assert(ps[i as int] == pieces@[i as int]@);
            assert(ps.take(i + 1).map_values(|v: Seq<char>| trim(v)) =~= ps.take(
                i as int,
            ).map_values(|v: Seq<char>| trim(v)).push(trim(ps[i as int])));
        }
        i = i + 1;
    }
    assert(views(pieces@).take(i as int) =~= views(pieces@));
    if values.len() != count {
        return None;
    }
    Some(values)
}

// ---------------------------------------------------------------------------
// Detection
// ---------------------------------------------------------------------------

/// The outside work GPU detection needs: finding the card's DRM device,
/// reading what its driver advertises, and running the vendor tools.
pub trait GpuProbe {
    /// `/sys/class/drm/card*/device` of the card that publishes a load
    /// counter, if any.
    fn drm_device(&mut self) -> Option<PathBuf>;

    /// The contents of the device's `product_name`, if readable.
    fn product_name(&mut self, drm: &PathBuf) -> Option<String>;

    /// The output of `nvidia-smi` run with the given `--query-gpu` argument
    /// and `--format=csv,noheader,nounits`, if it ran and succeeded.
    fn nvidia_smi(&mut self, query: &str) -> Option<String>;

    /// The output of `lspci`, if it ran and succeeded.
    fn lspci(&mut self) -> Option<String>;
}

/// The interface this machine's GPU is read through, chosen once at start-up.
pub enum Source {
    /// AMD reports temperatures through hwmon, and load and VRAM through the
    /// card's DRM device directory (if a card exposing load was found).
    Amd { drm: Option<PathBuf> },
    /// NVIDIA publishes nothing useful through sysfs; `nvidia-smi`, which
    /// ships with the proprietary driver, is the supported interface.
    Nvidia,
    /// Intel integrated graphics expose a temperature and nothing else.
    Intel,
}

/// The AMD GPU's name: what the driver advertises in `product_name`, else
/// the name `lspci` gives it, else "AMD Radeon GPU".
pub open spec fn spec_amd_name(product_name: Option<Seq<char>>, listing: Option<Seq<char>>) -> Seq<
    char,
> {
    match spec_driver_product_name(product_name) {
        Some(name) => name,
        None => match listing {
            Some(l) => match spec_lspci_name(l, "AMD"@) {
                Some(name) => name,
                None => "AMD Radeon GPU"@,
            },
            None => "AMD Radeon GPU"@,
        },
    }
}

pub fn amd_name(product_name: Option<&str>, listing: Option<&str>) -> (name: String)
    ensures
        name@ == spec_amd_name(file_view(product_name), file_view(listing)),
{
    if let Some(n) = driver_product_name(product_name) {
        return n;
    }
    let from_lspci = match listing {
        Some(l) => lspci_name(l, "AMD"),
        None => None,
    };
    match from_lspci {
        Some(n) => n,
        None => String::from_str("AMD Radeon GPU"),
    }
}

pub struct GpuCollector {
    /// `None` when no supported GPU was found; the GPU tab then says so.
    pub source: Option<Source>,
    /// Resolved once, because it cannot change while the applet runs.
    pub name: String,
}

pub open spec fn has_chip(chips: Seq<Hwmon>, vendor: Vendor) -> bool {
    exists|i: int| 0 <= i < chips.len() && spec_matches(vendor, #[trigger] chips[i].name@)
}

/// The name for an NVIDIA GPU from the output of `nvidia-smi
/// --query-gpu=name`: the first value of the row.
pub fn nvidia_name(stdout: &str) -> (name: Option<String>)
    ensures
        name is Some <==> spec_nvidia_row(stdout@, 1) is Some,
        name matches Some(n) ==> spec_nvidia_row(stdout@, 1)->0[0] == n@,
{
    let row = nvidia_row(stdout, 1)?;
    let mut row = row;
    assert(row@.map_values(|s: String| s@)[0] == row@[0]@);
    Some(row.remove(0))
}

/// Which interface detection settled on, without the DRM path it carries.
#[derive(Debug, Clone, Copy, PartialEq, Eq, Structural)]
pub enum GpuChoice {
    Amd,
    Nvidia,
    Intel,
    NoGpu,
}

/// The interface a collector reads through.
pub open spec fn choice_of(source: Option<Source>) -> GpuChoice {
    match source {
        Some(Source::Amd { .. }) => GpuChoice::Amd,
        Some(Source::Nvidia) => GpuChoice::Nvidia,
        Some(Source::Intel) => GpuChoice::Intel,
        None => GpuChoice::NoGpu,
    }
}

/// The Intel GPU's name: the name `lspci` gives it, else "Intel Graphics".
pub open spec fn spec_intel_name(listing: Option<Seq<char>>) -> Seq<char> {
    match listing {
        Some(l) => match spec_lspci_name(l, "Intel"@) {
            Some(name) => name,
            None => "Intel Graphics"@,
        },
        None => "Intel Graphics"@,
    }
}

/// Discrete-first detection from what the machine answered: AMD whenever an
/// `amdgpu` chip is present, named by [`spec_amd_name`]; otherwise NVIDIA
/// when `nvidia-smi --query-gpu=name` gave a row, named by its value;
/// otherwise Intel when an `i915`/`xe` chip is present, named by
/// [`spec_intel_name`]; otherwise no GPU and no name.
pub open spec fn spec_choose_gpu(
    has_amd: bool,
    product_name: Option<Seq<char>>,
    amd_listing: Option<Seq<char>>,
    nvidia_out: Option<Seq<char>>,
    has_intel: bool,
    intel_listing: Option<Seq<char>>,
) -> (GpuChoice, Seq<char>) {
    if has_amd {
        (GpuChoice::Amd, spec_amd_name(product_name, amd_listing))
    } else {
        match nvidia_out {
            Some(out) if spec_nvidia_row(out, 1) is Some => (
                GpuChoice::Nvidia,
                spec_nvidia_row(out, 1)->0[0],
            ),
            _ => if has_intel {
                (GpuChoice::Intel, spec_intel_name(intel_listing))
            } else {
                (GpuChoice::NoGpu, Seq::<char>::empty())
            },
        }
    }
}

/// The collector detection settles on, given what the machine answered:
/// whether an `amdgpu` chip is present, the AMD card's DRM device, its
/// `product_name` contents and the `lspci` listing used to name it, the
/// output of `nvidia-smi --query-gpu=name`, whether an `i915`/`xe` chip is
/// present, and the `lspci` listing used to name it (each `None` when it
/// could not be had or was not asked for).
pub fn choose_gpu(
    has_amd: bool,
    drm: Option<PathBuf>,
    product_name: Option<&str>,
    amd_listing: Option<&str>,
    nvidia_out: Option<&str>,
    has_intel: bool,
    intel_listing: Option<&str>,
) -> (c: GpuCollector)
    ensures
        (choice_of(c.source), c.name@) == spec_choose_gpu(
            has_amd,
            file_view(product_name),
            file_view(amd_listing),
            file_view(nvidia_out),
            has_intel,
            file_view(intel_listing),
        ),
        c.source matches Some(Source::Amd { drm: d }) ==> d == drm,
{
    if has_amd {
        return GpuCollector { source: Some(Source::Amd { drm }), name: amd_name(product_name, amd_listing) };
    }
    match nvidia_out {
        Some(out) => match nvidia_name(out) {
            Some(name) => {
                return GpuCollector { source: Some(Source::Nvidia), name };
            },
            None => {},
        },
        None => {},
    }
    if has_intel {
        let from_lspci = match intel_listing {
            Some(l) => lspci_name(l, "Intel"),
            None => None,
        };
        let name = match from_lspci {
            Some(n) => n,
            None => String::from_str("Intel Graphics"),
        };
        return GpuCollector { source: Some(Source::Intel), name };
    }
    GpuCollector { source: None, name: String::new() }
}

/// The text of an answer from the machine, if one came back.
pub open spec fn answer_view(answer: Option<String>) -> Option<Seq<char>> {
    match answer {
        Some(s) => Some(s@),
        None => None,
    }
}

/// A borrowed view of an owned answer.
fn as_text(answer: &Option<String>) -> (text: Option<&str>)
    ensures
        file_view(text) == answer_view(*answer),
{
    match answer {
        Some(s) => Some(s.as_str()),
        None => None,
    }
}

impl GpuCollector {
    /// Detects the GPU. Vendors are tried discrete-first, since a machine with
    /// both will want the card that does the work: AMD whenever an `amdgpu`
    /// chip is present, then NVIDIA if `nvidia-smi` names a card, then Intel
    /// if an `i915`/`xe` chip is present. The machine is only asked what the
    /// decision needs: `lspci` runs only when the driver does not name the
    /// card, and `nvidia-smi` only when there is no AMD chip.
    ///
    /// The result is what [`choose_gpu`] makes of the answers that came back.
    pub fn new<P: GpuProbe>(chips: &[Hwmon], probe: &mut P) -> (c: Self)
        ensures
            exists|
                product_name: Option<Seq<char>>,
                amd_listing: Option<Seq<char>>,
                nvidia_out: Option<Seq<char>>,
                intel_listing: Option<Seq<char>>,
            |
                (choice_of(c.source), c.name@) == spec_choose_gpu(
                    has_chip(chips@, Vendor::Amd),
                    product_name,
                    amd_listing,
                    nvidia_out,
                    has_chip(chips@, Vendor::Intel),
                    intel_listing,
                ),
            (c.source matches Some(Source::Amd { .. })) <==> has_chip(chips@, Vendor::Amd),
            (c.source matches Some(Source::Intel)) ==> !has_chip(chips@, Vendor::Amd) && has_chip(
                chips@,
                Vendor::Intel,
            ),
            (c.source matches Some(Source::Nvidia)) ==> !has_chip(chips@, Vendor::Amd),
            c.source is None ==> !has_chip(chips@, Vendor::Amd) && !has_chip(chips@, Vendor::Intel)
                && c.name@ == Seq::<char>::empty(),
    {
        let has_amd = find_chip(chips, Vendor::Amd).is_some();
        let has_intel = find_chip(chips, Vendor::Intel).is_some();
        assert(has_amd == has_chip(chips@, Vendor::Amd));
        assert(has_intel == has_chip(chips@, Vendor::Intel));
        if has_amd {
            let drm = probe.drm_device();
            let product = match &drm {
                Some(d) => probe.product_name(d),
                None => None,
            };
            // lspci is only run when the driver does not name the card.
            let listing = match driver_product_name(as_text(&product)) {
                Some(_) => None,
                None => probe.lspci(),
            };
            let c = choose_gpu(
                true,
                drm,
                as_text(&product),
                as_text(&listing),
                None,
                has_intel,
                None,
            );
            assert((choice_of(c.source), c.name@) == spec_choose_gpu(
                has_amd,
                answer_view(product),
                answer_view(listing),
                None,
                has_intel,
                None,
            ));
            return c;
        }
        let query = nvidia_query_arg(&["name"]);
        let nvidia_out = probe.nvidia_smi(query.as_str());
        let named = match &nvidia_out {
            Some(out) => nvidia_name(out.as_str()).is_some(),
            None => false,
        };
        // lspci is only run when it could name the card detection settles on.
        let intel_listing = if !named && has_intel {
            probe.lspci()
        } else {
            None
        };
        let c = choose_gpu(
            false,
            None,
            None,
            None,
            as_text(&nvidia_out),
            has_intel,
            as_text(&intel_listing),
        );
        assert((choice_of(c.source), c.name@) == spec_choose_gpu(
            has_amd,
            None,
            None,
            answer_view(nvidia_out),
            has_intel,
            answer_view(intel_listing),
        ));
        c
    }
}

} // verus!
