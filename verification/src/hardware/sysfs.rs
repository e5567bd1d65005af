//! What the applet does with the text it reads from `sysfs` and `procfs`.
//!
//! Every value the applet shows comes from a plain text file under `/sys` or
//! `/proc`. All reads are best-effort: a missing or malformed file yields
//! `None` rather than an error, because sensor availability varies wildly
//! between machines and a missing sensor is not a failure. The reads
//! themselves happen in the applet; these functions take what they returned.
use std::path::PathBuf;
use std::time::Instant;
use vstd::prelude::*;

use crate::text::{
    chars_of, ends_with, file_u64, file_view, has_prefix, has_suffix, parse_file_u64,
    read_trimmed, slice_of, starts_with, string_of, trimmed,
};

verus! {

/// `std::path::PathBuf`, carried through but never inspected here.
#[verifier::external_type_specification]
#[verifier::external_body]
pub struct ExPathBuf(PathBuf);

/// Parses a file containing a single value: its trimmed contents as a `u64`,
/// `None` when it could not be read (`file` is `None`) or does not parse.
pub fn parse(file: Option<&str>) -> (v: Option<u64>)
    ensures
        v == file_u64(file_view(file)),
{
    parse_file_u64(file)
}

/// A single sensor chip exposed under `/sys/class/hwmon`.
pub struct Hwmon {
    /// Driver name, e.g. `k10temp`, `amdgpu`, `nvme`.
    pub name: String,
    pub dir: PathBuf,
}

/// The `<kind>N` prefix of a sensor file named `<kind>N_input`, such as
/// `temp1` for `temp1_input` or `fan2` for `fan2_input`.
pub open spec fn spec_input_prefix(file: Seq<char>, kind: Seq<char>) -> Option<Seq<char>> {
    if ends_with(file, "_input"@) && starts_with(file.take(file.len() - 6), kind) {
        Some(file.take(file.len() - 6))
    } else {
        None
    }
}

/// The prefix of a sensor input file of the given kind (`temp`, `fan`, ...),
/// or `None` for any other file; the label file is the prefix plus `_label`.
pub fn input_prefix(file: &str, kind: &str) -> (prefix: Option<String>)
    ensures
        prefix matches Some(p) ==> spec_input_prefix(file@, kind@) == Some(p@),
        prefix is None <==> spec_input_prefix(file@, kind@) is None,
{
    let f = chars_of(file);
    if !has_suffix(&f, "_input") {
        return None;
    }
    proof {
        reveal_strlit("_input");
    }
    let p = slice_of(&f, 0, f.len() - 6);
    assert(p@ =~= f@.take(f@.len() - 6));
    if !has_prefix(&p, kind) {
        return None;
    }
    Some(string_of(&p))
}

/// A temperature's label: the trimmed contents of its `temp*_label` file
/// when the driver provides one, otherwise the bare `tempN` prefix.
pub open spec fn spec_temp_label(prefix: Seq<char>, label_file: Option<Seq<char>>) -> Seq<char> {
    match read_trimmed(label_file) {
        Some(label) => label,
        None => prefix,
    }
}

pub fn temp_label(prefix: &str, label_file: Option<&str>) -> (label: String)
    ensures
        label@ == spec_temp_label(prefix@, file_view(label_file)),
{
    match label_file {
        Some(raw) => string_of(&trimmed(&chars_of(raw))),
        None => String::from_str(prefix),
    }
}

/// Turns a pair of monotonically increasing byte counters into rates.
///
/// Kernel counters are cumulative, so a rate only exists once there are two
/// samples; the first one yields nothing.
pub struct RateMeter {
    pub last: (u64, u64),
    pub at: Option<Instant>,
}

impl RateMeter {
    /// A meter that has seen no sample.
    pub fn new() -> (m: Self)
        ensures
            m.last == (0u64, 0u64),
            m.at is None,
    {
        RateMeter { last: (0, 0), at: None }
    }

    /// Records the counters `a` and `b` as read at `now`, returning when the
    /// previous sample was taken and how far each counter advanced since (a
    /// counter that went backwards advanced by zero). The rate is the advance
    /// over the time between the two.
    pub fn sample_counts(&mut self, a: u64, b: u64, now: Instant) -> (since: Option<
        (Instant, u64, u64),
    >)
        ensures
            final(self).last == (a, b),
            final(self).at == Some(now),
            match old(self).at {
                None => since is None,
                Some(prev) => since == Some(
                    (
                        prev,
                        (if a >= old(self).last.0 {
                            a - old(self).last.0
                        } else {
                            0
                        }) as u64,
                        (if b >= old(self).last.1 {
                            b - old(self).last.1
                        } else {
                            0
                        }) as u64,
                    ),
                ),
            },
    {
        let since = match self.at {
            None => None,
            Some(prev) => Some((prev, a.saturating_sub(self.last.0), b.saturating_sub(self.last.1))),
        };
        self.last = (a, b);
        self.at = Some(now);
        since
    }
}

impl Default for RateMeter {
    fn default() -> (m: Self)
        ensures
            m.last == (0u64, 0u64),
            m.at is None,
    {
        RateMeter::new()
    }
}

} // verus!
