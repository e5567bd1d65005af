//! Fan tachometers exposed by hwmon chips.
use vstd::prelude::*;

use crate::hardware::types::FanInfo;
use crate::order::{
    key_le, keyed, lemma_map_keeps_multiset, sort_by_key, sort_is_permutation, sort_keyed,
    sorted_by_key,
};
use crate::text::{
    chars_of, contains, file_view, has_substr, parse_u32, parse_u32_chars, push_chars, push_str,
    read_trimmed, string_of, trim, trimmed,
};

verus! {

/// The capital of an ASCII lowercase letter; any other character unchanged.
pub open spec fn ascii_upper(c: char) -> char {
    if 0x61 <= (c as u32) <= 0x7a {
        ((c as u32) - 0x20) as char
    } else {
        c
    }
}

/// The uppercase form of a string, by the full Unicode case mapping.
pub uninterp spec fn uppercase(s: Seq<char>) -> Seq<char>;

/// `str::to_uppercase`: the result is the Unicode uppercase mapping of the
/// string; for an ASCII string that is each lowercase letter replaced by its
/// capital, every other character kept. Beyond ASCII the mapping is left to
/// the Unicode tables.
#[verifier::external_body]
fn to_uppercase(s: &str) -> (u: String)
    ensures
        u@ == uppercase(s@),
        (forall|i: int| 0 <= i < s@.len() ==> (s@[i] as u32) < 0x80) ==> u@ == s@.map_values(
            |c: char| ascii_upper(c),
        ),
{
    s.to_uppercase()
}

/// The name of a hwmon chip, from its `name` file (`None` when unreadable).
pub open spec fn spec_chip_name(name_file: Option<Seq<char>>) -> Seq<char> {
    match name_file {
        Some(n) => trim(n),
        None => "Unknown"@,
    }
}

pub fn chip_name(name_file: Option<&str>) -> (name: String)
    ensures
        name@ == spec_chip_name(file_view(name_file)),
{
    match name_file {
        Some(raw) => {
            let chars = chars_of(raw);
            string_of(&trimmed(&chars))
        },
        None => String::from_str("Unknown"),
    }
}

/// A fan's label: its `fanN_label` file when there is one, else "GPU Fan"
/// on a GPU's chip, else the chip name and the fan's `FANN` prefix.
pub open spec fn spec_fan_label(chip: Seq<char>, prefix: Seq<char>, label_file: Option<Seq<char>>) -> Seq<
    char,
> {
    match label_file {
        Some(l) => trim(l),
        None => if contains(chip, "gpu"@) {
            "GPU Fan"@
        } else {
            trim(chip + " "@ + uppercase(prefix))
        },
    }
}

pub fn fan_label(chip: &str, prefix: &str, label_file: Option<&str>) -> (label: String)
    ensures
        label@ == spec_fan_label(chip@, prefix@, file_view(label_file)),
{
    match label_file {
        Some(raw) => {
            let chars = chars_of(raw);
            string_of(&trimmed(&chars))
        },
        None => {
            let c = chars_of(chip);
            if has_substr(&c, "gpu") {
                return String::from_str("GPU Fan");
            }
            let upper = to_uppercase(prefix);
            let mut out: Vec<char> = Vec::new();
            push_chars(&mut out, &c);
            push_str(&mut out, " ");
            push_str(&mut out, upper.as_str());
            string_of(&trimmed(&out))
        },
    }
}

/// A fan reading from its `fanN_input` contents (`None` when unreadable):
/// present when they parse as a speed in RPM; a fan at 0 RPM is idle.
pub open spec fn spec_fan_reading(chip: Seq<char>, label: Seq<char>, rpm_file: Option<Seq<char>>) -> Option<
    (Seq<char>, Seq<char>, u32, bool),
> {
    match read_trimmed(rpm_file) {
        None => None,
        Some(t) => match parse_u32(t) {
            Some(rpm) => Some((chip, label, rpm, rpm > 0)),
            None => None,
        },
    }
}

pub fn fan_reading(chip: &str, label: String, rpm_file: Option<&str>) -> (fan: Option<FanInfo>)
    ensures
        fan is Some <==> spec_fan_reading(chip@, label@, file_view(rpm_file)) is Some,
        fan matches Some(f) ==> spec_fan_reading(chip@, label@, file_view(rpm_file)) == Some(
            (f.chip@, f.name@, f.rpm, f.is_active),
        ),
{
    let raw = rpm_file?;
    let chars = chars_of(raw);
    let t = trimmed(&chars);
    let rpm = parse_u32_chars(&t)?;
    Some(FanInfo { chip: String::from_str(chip), name: label, rpm, is_active: rpm > 0 })
}

/// The sort key of a fan: faster fans have smaller keys.
pub open spec fn fan_key(rpm: u32) -> Seq<u64> {
    seq![(u32::MAX - rpm) as u64]
}

pub open spec fn with_fan_keys(s: Seq<FanInfo>) -> Seq<(Seq<u64>, FanInfo)> {
    s.map_values(|f: FanInfo| (fan_key(f.rpm), f))
}

/// The order the fans are listed in.
pub open spec fn fan_order(fans: Seq<FanInfo>) -> Seq<FanInfo> {
    sort_by_key(with_fan_keys(fans)).map_values(|e: (Seq<u64>, FanInfo)| e.1)
}

/// Lists fans fastest first; fans at the same speed keep their order.
pub fn sort_fans(fans: Vec<FanInfo>) -> (sorted: Vec<FanInfo>)
    ensures
        sorted@ == fan_order(fans@),
{
    let ghost input = fans@;
    let mut items: Vec<(Vec<u64>, FanInfo)> = Vec::new();
    let mut rest = fans;
    let ghost mut i: int = 0;
    while rest.len() > 0
        invariant
            0 <= i <= input.len(),
            rest@ == input.skip(i),
            keyed(items@) == with_fan_keys(input.take(i)),
        decreases rest.len(),
    {
        let ghost before = rest@;
        let f = rest.remove(0);
        proof {
            assert(before[0] == input[i]);
            assert(rest@ =~= input.skip(i + 1));
        }
        let mut k: Vec<u64> = Vec::new();
        k.push((u32::MAX - f.rpm) as u64);
        assert(k@ =~= fan_key(f.rpm));
        let ghost old_items = keyed(items@);
        let ghost entry = (k@, f);
        items.push((k, f));
        proof {
            assert(keyed(items@) =~= old_items.push(entry));
            assert(with_fan_keys(input.take(i + 1)) =~= with_fan_keys(input.take(i)).push(entry));
            i = i + 1;
        }
    }
    assert(input.take(i) =~= input);
    let sorted_items = sort_keyed(items);
    let ghost target = sort_by_key(with_fan_keys(input));
    let mut out: Vec<FanInfo> = Vec::new();
    let mut rest = sorted_items;
    let ghost mut j: int = 0;
    assert(keyed(rest@) =~= target.skip(0));
    while rest.len() > 0
        invariant
            0 <= j <= target.len(),
            keyed(rest@) == target.skip(j),
            out@ == target.take(j).map_values(|e: (Seq<u64>, FanInfo)| e.1),
        decreases rest.len(),
    {
        let ghost before = keyed(rest@);
        let ghost raw = rest@;
        let e = rest.remove(0);
        proof {
            assert(keyed(raw).len() == raw.len());
            assert(j < target.len());
            assert(before[0] == target.skip(j)[0]);
            assert(keyed(rest@) =~= before.drop_first());
            assert(keyed(rest@) =~= target.skip(j + 1));
            assert(e.1 == target[j].1);
        }
        out.push(e.1);
        proof {
            j = j + 1;
            assert(out@ =~= target.take(j).map_values(|e: (Seq<u64>, FanInfo)| e.1));
        }
    }
    assert(target.take(j) =~= target);
    out
}

/// How many of the fans are spinning.
pub open spec fn active_count(fans: Seq<FanInfo>) -> nat
    decreases fans.len(),
{
    if fans.len() == 0 {
        0
    } else {
        active_count(fans.drop_last()) + if fans.last().is_active {
            1nat
        } else {
            0nat
        }
    }
}

pub fn active_fans_count(fans: &[FanInfo]) -> (n: usize)
    ensures
        n == active_count(fans@),
{
    let mut n: usize = 0;
    let mut i: usize = 0;
    while i < fans.len()
        invariant
            i <= fans.len(),
            n == active_count(fans@.take(i as int)),
            n <= i,
        decreases fans.len() - i,
    {
        assert(fans@.take(i + 1).drop_last() =~= fans@.take(i as int));
        if fans[i].is_active {
            n = n + 1;
        }
        i = i + 1;
    }
    assert(fans@.take(i as int) =~= fans@);
    n
}

/// Fans are listed fastest first, and the list holds exactly the fans that
/// were read, none added and none lost.
pub proof fn fans_are_listed_fastest_first(fans: Seq<FanInfo>)
    ensures
        forall|i: int, j: int|
            0 <= i < j < fan_order(fans).len() ==> fan_order(fans)[i].rpm >= fan_order(fans)[j].rpm,
        fan_order(fans).to_multiset() == fans.to_multiset(),
{
    broadcast use vstd::seq_lib::group_to_multiset_ensures;

    let s = with_fan_keys(fans);
    let t = sort_by_key(s);
    sorted_by_key(s);
    sort_is_permutation(s);
    assert forall|k: int| 0 <= k < t.len() implies #[trigger] t[k].0 == fan_key(t[k].1.rpm) by {
        assert(t.to_multiset().count(t[k]) > 0);
        assert(s.contains(t[k]));
    }
    assert forall|i: int, j: int| 0 <= i < j < fan_order(fans).len() implies fan_order(fans)[i].rpm
        >= fan_order(fans)[j].rpm by {
        assert(key_le(t[i].0, t[j].0));
        assert(t[i].0 == fan_key(t[i].1.rpm));
        assert(t[j].0 == fan_key(t[j].1.rpm));
        assert(t[i].0.drop_first() =~= Seq::<u64>::empty());
    }
    let g = |e: (Seq<u64>, FanInfo)| e.1;
    lemma_map_keeps_multiset(t, s, g);
    assert(fan_order(fans) =~= t.map_values(g));
    assert(s.map_values(g) =~= fans);
}

} // verus!
