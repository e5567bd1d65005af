//! Text primitives the parsers are built from.
//!
//! Everything here works on sequences of `char`s and is specified against
//! the behaviour of the standard library operations it stands in for:
//! `char::is_whitespace`, `str::trim`, `str::split_whitespace`, `str::lines`,
//! and `FromStr` for unsigned integers.
use vstd::prelude::*;

verus! {

// ---------------------------------------------------------------------------
// Character classes
// ---------------------------------------------------------------------------

/// Unicode `White_Space`, the set `char::is_whitespace` tests for.
pub open spec fn is_ws(c: char) -> bool {
    let n = c as u32;
    ||| 0x09 <= n <= 0x0d
    ||| n == 0x20
    ||| n == 0x85
    ||| n == 0xa0
    ||| n == 0x1680
    ||| 0x2000 <= n <= 0x200a
    ||| n == 0x2028
    ||| n == 0x2029
    ||| n == 0x202f
    ||| n == 0x205f
    ||| n == 0x3000
}

pub open spec fn is_digit(c: char) -> bool {
    0x30 <= (c as u32) <= 0x39
}

pub open spec fn digit_val(c: char) -> nat {
    ((c as u32) - 0x30) as nat
}

pub open spec fn digit_char(d: nat) -> char {
    (0x30 + d) as char
}

/// `char::is_whitespace`.
pub fn is_whitespace(c: char) -> (b: bool)
    ensures
        b == is_ws(c),
{
    let n = c as u32;
    (0x09 <= n && n <= 0x0d) || n == 0x20 || n == 0x85 || n == 0xa0 || n == 0x1680 || (0x2000
        <= n && n <= 0x200a) || n == 0x2028 || n == 0x2029 || n == 0x202f || n == 0x205f || n
        == 0x3000
}

/// `char::is_ascii_digit`.
pub fn is_ascii_digit(c: char) -> (b: bool)
    ensures
        b == is_digit(c),
{
    let n = c as u32;
    0x30 <= n && n <= 0x39
}

// ---------------------------------------------------------------------------
// Conversions between `str`, `String` and `Vec<char>`
// ---------------------------------------------------------------------------

/// The characters of a string slice.
pub fn chars_of(s: &str) -> (v: Vec<char>)
    ensures
        v@ == s@,
{
    let mut v: Vec<char> = Vec::new();
    for c in it: s.chars()
        invariant
            v@ == it.seq().take(it.index() as int),
    {
        v.push(c);
    }
    v
}

/// `String::push`: the standard library documents that it appends the
/// character to the end of the string, which is all this claims of it.
#[verifier::external_body]
fn push_char(s: &mut String, c: char)
    ensures
        final(s)@ == old(s)@.push(c),
{
    s.push(c);
}

/// A `String` holding exactly the given characters.
pub fn string_of(v: &[char]) -> (s: String)
    ensures
        s@ == v@,
{
    let mut s = String::new();
    let mut i: usize = 0;
    while i < v.len()
        invariant
            i <= v.len(),
            s@ == v@.take(i as int),
        decreases v.len() - i,
    {
        push_char(&mut s, v[i]);
        i = i + 1;
        assert(v@.take(i as int) =~= v@.take(i - 1).push(v@[i - 1]));
    }
    assert(v@.take(v.len() as int) =~= v@);
    s
}

/// Appends the characters of `s` to `out`.
pub fn push_str(out: &mut Vec<char>, s: &str)
    ensures
        final(out)@ == old(out)@ + s@,
{
    let cs = chars_of(s);
    push_chars(out, &cs);
}

/// Appends `v` to `out`.
pub fn push_chars(out: &mut Vec<char>, v: &[char])
    ensures
        final(out)@ == old(out)@ + v@,
{
    let ghost start = out@;
    let mut i: usize = 0;
    while i < v.len()
        invariant
            i <= v.len(),
            out@ == start + v@.take(i as int),
        decreases v.len() - i,
    {
        out.push(v[i]);
        i = i + 1;
        assert(start + v@.take(i as int) =~= (start + v@.take(i - 1)).push(v@[i - 1]));
    }
    assert(v@.take(v.len() as int) =~= v@);
}

/// The characters `v[lo..hi]`, copied.
pub fn slice_of(v: &[char], lo: usize, hi: usize) -> (r: Vec<char>)
    requires
        lo <= hi <= v.len(),
    ensures
        r@ == v@.subrange(lo as int, hi as int),
{
    let mut r: Vec<char> = Vec::new();
    let mut i = lo;
    while i < hi
        invariant
            lo <= i <= hi <= v.len(),
            r@ == v@.subrange(lo as int, i as int),
        decreases hi - i,
    {
        r.push(v[i]);
        i = i + 1;
        assert(v@.subrange(lo as int, i as int) =~= v@.subrange(lo as int, i - 1).push(
            v@[i - 1],
        ));
    }
    r
}

/// Whether two character sequences are equal.
pub fn chars_eq(a: &[char], b: &[char]) -> (r: bool)
    ensures
        r == (a@ == b@),
{
    if a.len() != b.len() {
        return false;
    }
    let mut i: usize = 0;
    while i < a.len()
        invariant
            a.len() == b.len(),
            i <= a.len(),
            forall|k: int| 0 <= k < i ==> a@[k] == b@[k],
        decreases a.len() - i,
    {
        if a[i] != b[i] {
            return false;
        }
        i = i + 1;
    }
    assert(a@ =~= b@);
    true
}

/// Whether `a` equals the string slice `b`.
pub fn chars_eq_str(a: &[char], b: &str) -> (r: bool)
    ensures
        r == (a@ == b@),
{
    let bv = chars_of(b);
    chars_eq(a, &bv)
}

// ---------------------------------------------------------------------------
// Prefixes, suffixes and substrings
// ---------------------------------------------------------------------------

pub open spec fn starts_with(s: Seq<char>, p: Seq<char>) -> bool {
    p.len() <= s.len() && s.take(p.len() as int) == p
}

pub open spec fn ends_with(s: Seq<char>, p: Seq<char>) -> bool {
    p.len() <= s.len() && s.skip(s.len() - p.len()) == p
}

/// `p` occurs in `s` starting at position `i`.
pub open spec fn occurs_at(s: Seq<char>, p: Seq<char>, i: int) -> bool {
    0 <= i && i + p.len() <= s.len() && s.subrange(i, i + p.len()) == p
}

pub open spec fn contains(s: Seq<char>, p: Seq<char>) -> bool {
    exists|i: int| occurs_at(s, p, i)
}

/// Whether `p` occurs in `s` at position `at`, checked character by character.
fn matches_at(s: &[char], p: &[char], at: usize) -> (r: bool)
    requires
        at <= s.len(),
    ensures
        r == occurs_at(s@, p@, at as int),
{
    if p.len() > s.len() - at {
        return false;
    }
    let mut k: usize = 0;
    while k < p.len()
        invariant
            at + p.len() <= s.len(),
            k <= p.len(),
            forall|j: int| 0 <= j < k ==> s@[at + j] == p@[j],
        decreases p.len() - k,
    {
        if s[at + k] != p[k] {
            assert(s@.subrange(at as int, at + p.len())[k as int] != p@[k as int]);
            return false;
        }
        k = k + 1;
    }
    assert(s@.subrange(at as int, at + p.len()) =~= p@);
    true
}

/// `str::starts_with`.
pub fn has_prefix(s: &[char], p: &str) -> (r: bool)
    ensures
        r == starts_with(s@, p@),
{
    let pv = chars_of(p);
    let r = matches_at(s, &pv, 0);
    proof {
        if p@.len() <= s@.len() {
            assert(s@.subrange(0, p@.len() as int) =~= s@.take(p@.len() as int));
        }
    }
    r
}

/// `str::ends_with`.
pub fn has_suffix(s: &[char], p: &str) -> (r: bool)
    ensures
        r == ends_with(s@, p@),
{
    let pv = chars_of(p);
    if pv.len() > s.len() {
        return false;
    }
    let r = matches_at(s, &pv, s.len() - pv.len());
    assert(s@.subrange(s@.len() - p@.len(), s@.len() as int) =~= s@.skip(
        s@.len() - p@.len(),
    ));
    r
}

/// The first position at which `p` occurs in `s`, if any.
pub open spec fn first_occurrence(s: Seq<char>, p: Seq<char>) -> Option<int> {
    if contains(s, p) {
        Some(choose|i: int| occurs_at(s, p, i) && forall|j: int| 0 <= j < i ==> !occurs_at(s, p, j))
    } else {
        None
    }
}

/// Finds the first occurrence of `p` in `s`.
pub fn find(s: &[char], p: &[char]) -> (r: Option<usize>)
    ensures
        r is None <==> !contains(s@, p@),
        r matches Some(i) ==> occurs_at(s@, p@, i as int) && forall|j: int|
            0 <= j < i ==> !occurs_at(s@, p@, j),
{
    let mut at: usize = 0;
    while at < s.len()
        invariant
            at <= s.len(),
            forall|j: int| 0 <= j < at ==> !occurs_at(s@, p@, j),
        decreases s.len() - at,
    {
        if matches_at(s, p, at) {
            return Some(at);
        }
        at = at + 1;
    }
    if matches_at(s, p, at) {
        return Some(at);
    }
    assert forall|j: int| !occurs_at(s@, p@, j) by {
        if 0 <= j && j + p@.len() <= s@.len() {
            assert(j <= at);
        }
    }
    None
}

/// Whether `p` occurs anywhere in `s` (`str::contains`).
pub fn has_substr(s: &[char], p: &str) -> (r: bool)
    ensures
        r == contains(s@, p@),
{
    let pv = chars_of(p);
    find(s, &pv).is_some()
}

/// First index of `c` in `s`.
pub open spec fn first_index_of(s: Seq<char>, c: char) -> Option<int> {
    if s.contains(c) {
        Some(choose|i: int| 0 <= i < s.len() && s[i] == c && forall|j: int| 0 <= j < i ==> s[j] != c)
    } else {
        None
    }
}

/// The position of the first `c` in `s`.
pub fn find_char(s: &[char], c: char) -> (r: Option<usize>)
    ensures
        r is None <==> !s@.contains(c),
        r matches Some(i) ==> i < s.len() && s@[i as int] == c && forall|j: int|
            0 <= j < i ==> s@[j] != c,
{
    let mut i: usize = 0;
    while i < s.len()
        invariant
            i <= s.len(),
            forall|j: int| 0 <= j < i ==> s@[j] != c,
        decreases s.len() - i,
    {
        if s[i] == c {
            return Some(i);
        }
        i = i + 1;
    }
    None
}

/// The position of the last `c` in `s`.
pub fn rfind_char(s: &[char], c: char) -> (r: Option<usize>)
    ensures
        r is None <==> !s@.contains(c),
        r matches Some(i) ==> i < s.len() && s@[i as int] == c && forall|j: int|
            i < j < s.len() ==> s@[j] != c,
{
    let mut i: usize = s.len();
    while i > 0
        invariant
            i <= s.len(),
            forall|j: int| i <= j < s.len() ==> s@[j] != c,
        decreases i,
    {
        if s[i - 1] == c {
            return Some(i - 1);
        }
        i = i - 1;
    }
    None
}

// ---------------------------------------------------------------------------
// Trimming
// ---------------------------------------------------------------------------

pub open spec fn trim_start(s: Seq<char>) -> Seq<char>
    decreases s.len(),
{
    if s.len() > 0 && is_ws(s[0]) {
        trim_start(s.drop_first())
    } else {
        s
    }
}

pub open spec fn trim_end(s: Seq<char>) -> Seq<char>
    decreases s.len(),
{
    if s.len() > 0 && is_ws(s.last()) {
        trim_end(s.drop_last())
    } else {
        s
    }
}

/// `str::trim`.
pub open spec fn trim(s: Seq<char>) -> Seq<char> {
    trim_end(trim_start(s))
}

/// `str::trim`.
pub fn trimmed(s: &[char]) -> (r: Vec<char>)
    ensures
        r@ == trim(s@),
{
    let mut lo: usize = 0;
    assert(s@.skip(0) =~= s@);
    while lo < s.len() && is_whitespace(s[lo])
        invariant
            lo <= s.len(),
            trim_start(s@) == trim_start(s@.skip(lo as int)),
        decreases s.len() - lo,
    {
        assert(s@.skip(lo as int).drop_first() =~= s@.skip(lo + 1));
        lo = lo + 1;
    }
    let ghost t = s@.skip(lo as int);
    assert(trim_start(t) == t);
    let mut hi: usize = s.len();
    while hi > lo && is_whitespace(s[hi - 1])
        invariant
            lo <= hi <= s.len(),
            trim_end(t) == trim_end(s@.subrange(lo as int, hi as int)),
        decreases hi,
    {
        assert(s@.subrange(lo as int, hi as int).drop_last() =~= s@.subrange(
            lo as int,
            hi - 1,
        ));
        hi = hi - 1;
    }
    assert(s@.skip(lo as int) =~= s@.subrange(lo as int, s@.len() as int));
    slice_of(s, lo, hi)
}

/// The character sequences held by a vector of character vectors.
pub open spec fn views(v: Seq<Vec<char>>) -> Seq<Seq<char>> {
    v.map_values(|w: Vec<char>| w@)
}

pub proof fn lemma_views_push(v: Seq<Vec<char>>, w: Vec<char>)
    ensures
        views(v.push(w)) == views(v).push(w@),
{
    assert(views(v.push(w)) =~= views(v).push(w@));
}

/// Whether `s[start..]` is all ASCII digits.
pub fn digits_from(s: &[char], start: usize) -> (b: bool)
    ensures
        b == (forall|i: int| start <= i < s@.len() ==> is_digit(s@[i])),
{
    let mut k = start;
    while k < s.len()
        invariant
            start <= k,
            k <= s.len() || start > s.len(),
            forall|i: int| start <= i < k && i < s@.len() ==> is_digit(s@[i]),
        decreases s.len() - k,
    {
        if !is_ascii_digit(s[k]) {
            return false;
        }
        k = k + 1;
    }
    true
}

// ---------------------------------------------------------------------------
// Words (`str::split_whitespace`)
// ---------------------------------------------------------------------------

/// Length of the run of non-whitespace characters that `s` starts with.
pub open spec fn word_len(s: Seq<char>) -> nat
    decreases s.len(),
{
    if s.len() == 0 || is_ws(s[0]) {
        0
    } else {
        1 + word_len(s.drop_first())
    }
}

pub proof fn lemma_word_len(s: Seq<char>)
    ensures
        word_len(s) <= s.len(),
        s.len() > 0 && !is_ws(s[0]) ==> word_len(s) >= 1,
    decreases s.len(),
{
    if s.len() > 0 && !is_ws(s[0]) {
        lemma_word_len(s.drop_first());
    }
}

/// The whitespace-separated words of `s`.
pub open spec fn words(s: Seq<char>) -> Seq<Seq<char>>
    decreases s.len(),
{
    if s.len() == 0 {
        seq![]
    } else if is_ws(s[0]) {
        words(s.drop_first())
    } else {
        proof {
            lemma_word_len(s);
        }
        seq![s.take(word_len(s) as int)] + words(s.skip(word_len(s) as int))
    }
}

proof fn lemma_word_len_exact(s: Seq<char>, k: int)
    requires
        0 <= k <= s.len(),
        forall|j: int| 0 <= j < k ==> !is_ws(s[j]),
        k == s.len() || is_ws(s[k]),
    ensures
        word_len(s) == k,
    decreases k,
{
    if k > 0 {
        lemma_word_len_exact(s.drop_first(), k - 1);
    }
}

/// `str::split_whitespace`, collected.
pub fn split_words(s: &[char]) -> (r: Vec<Vec<char>>)
    ensures
        views(r@) == words(s@),
{
    let mut r: Vec<Vec<char>> = Vec::new();
    let mut i: usize = 0;
    assert(s@.skip(0) =~= s@);
    while i < s.len()
        invariant
            i <= s.len(),
            views(r@) + words(s@.skip(i as int)) == words(s@),
        decreases s.len() - i,
    {
        if is_whitespace(s[i]) {
            assert(s@.skip(i as int).drop_first() =~= s@.skip(i + 1));
            assert(s@.skip(i as int)[0] == s@[i as int]);
            assert(words(s@.skip(i as int)) == words(s@.skip(i + 1)));
            i = i + 1;
        } else {
            let mut j = i;
            while j < s.len() && !is_whitespace(s[j])
                invariant
                    i <= j <= s.len(),
                    forall|k: int| i <= k < j ==> !is_ws(s@[k]),
                decreases s.len() - j,
            {
                j = j + 1;
            }
            let w = slice_of(s, i, j);
            proof {
                let t = s@.skip(i as int);
                assert(t[0] == s@[i as int]);
                lemma_word_len_exact(t, j - i);
                assert(words(t) == seq![t.take(j - i)] + words(t.skip(j - i)));
                lemma_views_push(r@, w);
                assert(t.take(j - i) =~= s@.subrange(i as int, j as int));
                assert(t.skip(j - i) =~= s@.skip(j as int));
                assert(views(r@).push(w@) + words(s@.skip(j as int)) =~= views(r@)
                    + words(t));
            }
            r.push(w);
            i = j;
        }
    }
    assert(words(s@.skip(i as int)) == Seq::<Seq<char>>::empty());
    assert(views(r@) + Seq::<Seq<char>>::empty() =~= views(r@));
    r
}

// ---------------------------------------------------------------------------
// Lines (`str::lines`)
// ---------------------------------------------------------------------------

/// Position of the first `'\n'` in `s`, or its length when there is none.
pub open spec fn line_end(s: Seq<char>) -> nat
    decreases s.len(),
{
    if s.len() == 0 || s[0] == '\n' {
        0
    } else {
        1 + line_end(s.drop_first())
    }
}

pub proof fn lemma_line_end(s: Seq<char>)
    ensures
        line_end(s) <= s.len(),
        line_end(s) < s.len() ==> s[line_end(s) as int] == '\n',
        forall|j: int| 0 <= j < line_end(s) ==> s[j] != '\n',
    decreases s.len(),
{
    if s.len() > 0 && s[0] != '\n' {
        lemma_line_end(s.drop_first());
        assert forall|j: int| 0 <= j < line_end(s) implies s[j] != '\n' by {
            if j > 0 {
                assert(s[j] == s.drop_first()[j - 1]);
            }
        }
    }
}

proof fn lemma_line_end_exact(s: Seq<char>, k: int)
    requires
        0 <= k <= s.len(),
        forall|j: int| 0 <= j < k ==> s[j] != '\n',
        k == s.len() || s[k] == '\n',
    ensures
        line_end(s) == k,
    decreases k,
{
    if k > 0 {
        lemma_line_end_exact(s.drop_first(), k - 1);
    }
}

/// A line as `str::lines` yields it once its `'\n'` is gone: one trailing
/// `'\r'` goes with it.
pub open spec fn strip_cr(l: Seq<char>) -> Seq<char> {
    if l.len() > 0 && l.last() == '\r' {
        l.drop_last()
    } else {
        l
    }
}

/// The lines of `s`, as `str::lines` yields them.
pub open spec fn lines(s: Seq<char>) -> Seq<Seq<char>>
    decreases s.len(),
{
    if s.len() == 0 {
        seq![]
    } else {
        proof {
            lemma_line_end(s);
        }
        let n = line_end(s) as int;
        if n < s.len() {
            seq![strip_cr(s.take(n))] + lines(s.skip(n + 1))
        } else {
            seq![s]
        }
    }
}

/// `str::lines`, collected.
pub fn split_lines(s: &[char]) -> (r: Vec<Vec<char>>)
    ensures
        views(r@) == lines(s@),
{
    let mut r: Vec<Vec<char>> = Vec::new();
    let mut i: usize = 0;
    assert(s@.skip(0) =~= s@);
    while i < s.len()
        invariant
            i <= s.len(),
            views(r@) + lines(s@.skip(i as int)) == lines(s@),
        decreases s.len() - i,
    {
        let mut j = i;
        while j < s.len() && s[j] != '\n'
            invariant
                i <= j <= s.len(),
                forall|k: int| i <= k < j ==> s@[k] != '\n',
            decreases s.len() - j,
        {
            j = j + 1;
        }
        let ghost t = s@.skip(i as int);
        proof {
            lemma_line_end_exact(t, j - i);
        }
        if j < s.len() {
            let hi = if j > i && s[j - 1] == '\r' {
                j - 1
            } else {
                j
            };
            let line = slice_of(s, i, hi);
            proof {
                lemma_views_push(r@, line);
                assert(t.take(j - i) =~= s@.subrange(i as int, j as int));
                assert(strip_cr(t.take(j - i)) =~= s@.subrange(i as int, hi as int));
                assert(t.skip(j - i + 1) =~= s@.skip(j + 1));
                assert(views(r@).push(line@) + lines(s@.skip(j + 1)) =~= views(r@)
                    + lines(t));
            }
            r.push(line);
            i = j + 1;
        } else {
            let line = slice_of(s, i, j);
            proof {
                lemma_views_push(r@, line);
                assert(t =~= s@.subrange(i as int, j as int));
                assert(views(r@).push(line@) =~= views(r@) + lines(t));
                assert(s@.skip(j as int) =~= Seq::<char>::empty());
                assert(lines(s@.skip(j as int)) == Seq::<Seq<char>>::empty());
                assert(views(r@).push(line@) + lines(s@.skip(j as int)) =~= views(r@)
                    .push(line@));
            }
            r.push(line);
            i = j;
        }
    }
    assert(s@.skip(i as int) =~= Seq::<char>::empty());
    assert(views(r@) + Seq::<Seq<char>>::empty() =~= views(r@));
    r
}

// ---------------------------------------------------------------------------
// Unsigned integers: parsing (`FromStr`) and decimal rendering (`Display`)
// ---------------------------------------------------------------------------

pub open spec fn all_digits(s: Seq<char>) -> bool {
    forall|i: int| 0 <= i < s.len() ==> is_digit(s[i])
}

/// The value of a string of decimal digits.
pub open spec fn digits_value(s: Seq<char>) -> nat
    decreases s.len(),
{
    if s.len() == 0 {
        0
    } else {
        digits_value(s.drop_last()) * 10 + digit_val(s.last())
    }
}

/// The number `s` spells, in the syntax `FromStr` accepts for unsigned
/// integers: an optional `+`, then at least one ASCII digit, nothing else.
pub open spec fn parse_nat(s: Seq<char>) -> Option<nat> {
    let t = if s.len() > 0 && s[0] == '+' {
        s.drop_first()
    } else {
        s
    };
    if t.len() > 0 && all_digits(t) {
        Some(digits_value(t))
    } else {
        None
    }
}

/// `u64::from_str`, which also fails on values that do not fit.
pub open spec fn parse_u64(s: Seq<char>) -> Option<u64> {
    match parse_nat(s) {
        Some(v) => if v <= u64::MAX {
            Some(v as u64)
        } else {
            None
        },
        None => None,
    }
}

/// `u32::from_str`.
pub open spec fn parse_u32(s: Seq<char>) -> Option<u32> {
    match parse_nat(s) {
        Some(v) => if v <= u32::MAX {
            Some(v as u32)
        } else {
            None
        },
        None => None,
    }
}

/// `usize::from_str`.
pub open spec fn parse_usize(s: Seq<char>) -> Option<usize> {
    match parse_nat(s) {
        Some(v) => if v <= usize::MAX {
            Some(v as usize)
        } else {
            None
        },
        None => None,
    }
}

proof fn lemma_digits_value_prefix(s: Seq<char>, k: int)
    requires
        0 <= k <= s.len(),
        all_digits(s),
    ensures
        digits_value(s.take(k)) <= digits_value(s),
    decreases s.len(),
{
    if k < s.len() {
        assert(s.drop_last().take(k) =~= s.take(k));
        lemma_digits_value_prefix(s.drop_last(), k);
    } else {
        assert(s.take(k) =~= s);
    }
}

/// `u64::from_str`.
pub fn parse_u64_chars(s: &[char]) -> (r: Option<u64>)
    ensures
        r == parse_u64(s@),
{
    let start: usize = if s.len() > 0 && s[0] == '+' {
        1
    } else {
        0
    };
    let ghost t = if s@.len() > 0 && s@[0] == '+' {
        s@.drop_first()
    } else {
        s@
    };
    assert(t =~= s@.skip(start as int));
    assert(parse_nat(s@) == (if t.len() > 0 && all_digits(t) {
        Some(digits_value(t))
    } else {
        None::<nat>
    }));
    if start == s.len() {
        return None;
    }
    let mut acc: u64 = 0;
    let mut i = start;
    while i < s.len()
        invariant
            start <= i <= s.len(),
            t == s@.skip(start as int),
            parse_nat(s@) == (if t.len() > 0 && all_digits(t) {
                Some(digits_value(t))
            } else {
                None::<nat>
            }),
            all_digits(s@.subrange(start as int, i as int)),
            acc == digits_value(s@.subrange(start as int, i as int)),
        decreases s.len() - i,
    {
        let c = s[i];
        if !is_ascii_digit(c) {
            assert(!is_digit(t[i - start]));
            assert(!all_digits(t));
            return None;
        }
        let d = (c as u32 - 0x30) as u64;
        let ghost pre = s@.subrange(start as int, i + 1);
        assert(pre.drop_last() =~= s@.subrange(start as int, i as int));
        if acc > (u64::MAX - d) / 10 {
            proof {
                assert(digits_value(pre) > u64::MAX) by (nonlinear_arith)
                    requires
                        digits_value(pre) == acc * 10 + d,
                        acc > (u64::MAX - d) / 10,
                        d <= 9,
                ;
                if all_digits(t) {
                    assert(t.take(i + 1 - start) =~= pre);
                    lemma_digits_value_prefix(t, i + 1 - start);
                    assert(digits_value(t) > u64::MAX);
                }
            }
            return None;
        }
        assert(acc * 10 + d <= u64::MAX) by (nonlinear_arith)
            requires
                acc <= (u64::MAX - d) / 10,
                d <= 9,
        ;
        acc = acc * 10 + d;
        i = i + 1;
    }
    assert(s@.subrange(start as int, s.len() as int) =~= t);
    Some(acc)
}

/// `u32::from_str`.
pub fn parse_u32_chars(s: &[char]) -> (r: Option<u32>)
    ensures
        r == parse_u32(s@),
{
    match parse_u64_chars(s) {
        Some(v) => if v <= u32::MAX as u64 {
            Some(v as u32)
        } else {
            None
        },
        None => None,
    }
}

/// `usize::from_str`.
pub fn parse_usize_chars(s: &[char]) -> (r: Option<usize>)
    ensures
        r == parse_usize(s@),
{
    match parse_u64_chars(s) {
        Some(v) => if v <= usize::MAX as u64 {
            Some(v as usize)
        } else {
            None
        },
        None => None,
    }
}

/// Decimal digits of `n`, as `Display` writes them for unsigned integers.
pub open spec fn dec(n: nat) -> Seq<char>
    decreases n,
{
    if n < 10 {
        seq![digit_char(n)]
    } else {
        dec(n / 10).push(digit_char(n % 10))
    }
}

fn digit(d: u64) -> (c: char)
    requires
        d < 10,
    ensures
        c == digit_char(d as nat),
{
    let b: u8 = 0x30u8 + d as u8;
    b as char
}

/// Appends the decimal digits of `n` to `out`.
pub fn push_dec(out: &mut Vec<char>, n: u64)
    ensures
        final(out)@ == old(out)@ + dec(n as nat),
    decreases n,
{
    if n >= 10 {
        push_dec(out, n / 10);
    }
    out.push(digit(n % 10));
    assert(old(out)@ + dec(n as nat) =~= (old(out)@ + (if n >= 10 {
        dec((n / 10) as nat)
    } else {
        Seq::<char>::empty()
    })).push(digit_char((n % 10) as nat)));
}

// ---------------------------------------------------------------------------
// Splitting at a character (`str::split_once`, `str::rsplit_once`)
// ---------------------------------------------------------------------------

/// The parts before and after the first `c` in `s`.
pub open spec fn split_once(s: Seq<char>, c: char) -> Option<(Seq<char>, Seq<char>)> {
    match first_index_of(s, c) {
        Some(i) => Some((s.take(i), s.skip(i + 1))),
        None => None,
    }
}

/// The parts before and after the last `c` in `s`.
pub open spec fn rsplit_once(s: Seq<char>, c: char) -> Option<(Seq<char>, Seq<char>)> {
    if s.contains(c) {
        let i = choose|i: int| 0 <= i < s.len() && s[i] == c && forall|j: int| i < j < s.len() ==> s[j] != c;
        Some((s.take(i), s.skip(i + 1)))
    } else {
        None
    }
}

/// `str::split_once` with a `char` pattern.
pub fn split_once_char(s: &[char], c: char) -> (r: Option<(Vec<char>, Vec<char>)>)
    ensures
        r is Some <==> split_once(s@, c) is Some,
        r matches Some(p) ==> split_once(s@, c) == Some((p.0@, p.1@)),
{
    match find_char(s, c) {
        None => None,
        Some(i) => {
            let ghost j = choose|i: int| 0 <= i < s@.len() && s@[i] == c && forall|j: int| 0 <= j < i ==> s@[j] != c;
            assert(j == i) by {
                if j < i {
                    assert(s@[j] != c);
                } else if j > i {
                    assert(s@[i as int] != c);
                }
            }
            Some((slice_of(s, 0, i), slice_of(s, i + 1, s.len())))
        },
    }
}

/// `str::rsplit_once` with a `char` pattern.
pub fn rsplit_once_char(s: &[char], c: char) -> (r: Option<(Vec<char>, Vec<char>)>)
    ensures
        r is Some <==> rsplit_once(s@, c) is Some,
        r matches Some(p) ==> rsplit_once(s@, c) == Some((p.0@, p.1@)),
{
    match rfind_char(s, c) {
        None => None,
        Some(i) => {
            let ghost j = choose|i: int| 0 <= i < s@.len() && s@[i] == c && forall|j: int| i < j < s@.len() ==> s@[j] != c;
            assert(j == i) by {
                if j < i {
                    assert(s@[i as int] != c);
                } else if j > i {
                    assert(s@[j] != c);
                }
            }
            Some((slice_of(s, 0, i), slice_of(s, i + 1, s.len())))
        },
    }
}

/// The characters of a file's contents, if it could be read.
pub open spec fn file_view(file: Option<&str>) -> Option<Seq<char>> {
    match file {
        Some(s) => Some(s@),
        None => None,
    }
}

/// Trimmed contents of a file that may not have been readable, as the
/// applet's `read` helper hands them over.
pub open spec fn read_trimmed(file: Option<Seq<char>>) -> Option<Seq<char>> {
    match file {
        Some(s) => Some(trim(s)),
        None => None,
    }
}

/// A file holding a single unsigned value: `None` when it could not be read
/// or does not parse.
pub open spec fn file_u64(file: Option<Seq<char>>) -> Option<u64> {
    match file {
        Some(s) => parse_u64(trim(s)),
        None => None,
    }
}

/// Parses a whole file's trimmed contents as a `u64`.
pub fn parse_file_u64(file: Option<&str>) -> (r: Option<u64>)
    ensures
        r == file_u64(file_view(file)),
{
    match file {
        None => None,
        Some(s) => {
            let chars = chars_of(s);
            let t = trimmed(&chars);
            parse_u64_chars(&t)
        },
    }
}

// ---------------------------------------------------------------------------
// Splitting at every occurrence of a character (`str::split`)
// ---------------------------------------------------------------------------

/// Position of the first `c` in `s`, or its length when there is none.
pub open spec fn pos_of(s: Seq<char>, c: char) -> nat
    decreases s.len(),
{
    if s.len() == 0 || s[0] == c {
        0
    } else {
        1 + pos_of(s.drop_first(), c)
    }
}

pub proof fn lemma_pos_of(s: Seq<char>, c: char)
    ensures
        pos_of(s, c) <= s.len(),
    decreases s.len(),
{
    if s.len() > 0 && s[0] != c {
        lemma_pos_of(s.drop_first(), c);
    }
}

proof fn lemma_pos_of_exact(s: Seq<char>, c: char, k: int)
    requires
        0 <= k <= s.len(),
        forall|j: int| 0 <= j < k ==> s[j] != c,
        k == s.len() || s[k] == c,
    ensures
        pos_of(s, c) == k,
    decreases k,
{
    if k > 0 {
        lemma_pos_of_exact(s.drop_first(), c, k - 1);
    }
}

/// The pieces of `s` between occurrences of `c`, as `str::split` yields
/// them (there is always at least one).
pub open spec fn split_on(s: Seq<char>, c: char) -> Seq<Seq<char>>
    decreases s.len(),
{
    proof {
        lemma_pos_of(s, c);
    }
    let n = pos_of(s, c) as int;
    if n < s.len() {
        seq![s.take(n)] + split_on(s.skip(n + 1), c)
    } else {
        seq![s]
    }
}

/// `str::split` with a `char` pattern, collected.
pub fn split_char(s: &[char], c: char) -> (r: Vec<Vec<char>>)
    ensures
        views(r@) == split_on(s@, c),
{
    let mut r: Vec<Vec<char>> = Vec::new();
    let mut i: usize = 0;
    assert(s@.skip(0) =~= s@);
    loop
        invariant
            i <= s.len(),
            views(r@) + split_on(s@.skip(i as int), c) == split_on(s@, c),
        decreases s.len() - i,
    {
        let mut j = i;
        while j < s.len() && s[j] != c
            invariant
                i <= j <= s.len(),
                forall|k: int| i <= k < j ==> s@[k] != c,
            decreases s.len() - j,
        {
            j = j + 1;
        }
        let ghost t = s@.skip(i as int);
        proof {
            lemma_pos_of_exact(t, c, j - i);
        }
        let piece = slice_of(s, i, j);
        proof {
            lemma_views_push(r@, piece);
            assert(t.take(j - i) =~= piece@);
        }
        if j < s.len() {
            proof {
                assert(t.skip(j - i + 1) =~= s@.skip(j + 1));
                assert(views(r@).push(piece@) + split_on(s@.skip(j + 1), c) =~= views(r@)
                    + split_on(t, c));
            }
            r.push(piece);
            i = j + 1;
        } else {
            proof {
                assert(t =~= piece@);
                assert(views(r@).push(piece@) =~= views(r@) + split_on(t, c));
            }
            r.push(piece);
            return r;
        }
    }
}

} // verus!
