//! Formatting shared by the views, so the same quantity always reads the same
//! way wherever it appears.
use vstd::prelude::*;

use crate::text::{dec, digit_char, push_dec, push_str, string_of};

verus! {

pub open spec fn pow2(e: nat) -> nat
    decreases e,
{
    if e == 0 {
        1
    } else {
        2 * pow2((e - 1) as nat)
    }
}

/// Spacing between the `f64` values near `b`: 1 below 2^53, doubling with
/// every further binade.
pub open spec fn f64_ulp(b: nat) -> nat
    decreases b,
{
    if b < 0x20_0000_0000_0000 {
        1
    } else {
        2 * f64_ulp(b / 2)
    }
}

/// `n / d` rounded to the nearest integer, ties to the even one.
pub open spec fn round_half_even(n: nat, d: nat) -> nat
    recommends
        d > 0,
{
    let q = n / d;
    let r = n % d;
    if 2 * r < d {
        q
    } else if 2 * r > d {
        q + 1
    } else if q % 2 == 0 {
        q
    } else {
        q + 1
    }
}

/// The value of `b as f64`: `b` rounded to 53 significant bits, ties to even.
pub open spec fn f64_of(b: nat) -> nat {
    round_half_even(b, f64_ulp(b)) * f64_ulp(b)
}

/// `n` with exactly two decimals, for `n` hundredths.
pub open spec fn hundredths(n: nat) -> Seq<char> {
    dec(n / 100) + seq!['.', digit_char((n % 100) / 10), digit_char(n % 10)]
}

pub const GIB: u64 = 0x4000_0000;

pub const MIB: u64 = 0x10_0000;

/// How `fmt::bytes` writes a byte count: whole mebibytes below a gibibyte,
/// gibibytes to two decimals from there on, each rounded as `{:.N}` rounds
/// the `f64` the count converts to.
pub open spec fn bytes_text(b: nat) -> Seq<char> {
    let x = f64_of(b);
    if x >= GIB {
        hundredths(round_half_even(x * 100, GIB as nat)) + " GB"@
    } else {
        dec(round_half_even(x, MIB as nat)) + " MB"@
    }
}

/// `round_half_even` on machine integers.
fn round_half_even_u128(n: u128, d: u128) -> (q: u128)
    requires
        d > 0,
        n / d < u128::MAX,
    ensures
        q == round_half_even(n as nat, d as nat),
{
    let q = n / d;
    let r = n % d;
    if r < d - r {
        assert(2 * r < d);
        q
    } else if r > d - r {
        q + 1
    } else if q % 2 == 0 {
        q
    } else {
        q + 1
    }
}

/// The value of `b as f64`, computed with integers.
fn f64_value(b: u64) -> (x: u128)
    ensures
        x == f64_of(b as nat),
        x <= 0x2_0000_0000_0000_0000,
{
    let mut u: u64 = 1;
    let mut t: u64 = b;
    while t >= 0x20_0000_0000_0000
        invariant
            f64_ulp(b as nat) == u * f64_ulp(t as nat),
            u * t <= b,
            1 <= u <= 0x1000,
        decreases t,
    {
        assert(u < 0x800) by (nonlinear_arith)
            requires
                u * t <= b,
                t >= 0x20_0000_0000_0000,
                b <= u64::MAX,
        ;
        assert((u * 2) * (t / 2) <= u * t) by (nonlinear_arith)
            requires
                u >= 1,
        ;
        assert(f64_ulp(t as nat) == 2 * f64_ulp((t / 2) as nat));
        assert(u * (2 * f64_ulp((t / 2) as nat)) == (u * 2) * f64_ulp((t / 2) as nat))
            by (nonlinear_arith);
        u = u * 2;
        t = t / 2;
    }
    assert(f64_ulp(t as nat) == 1);
    assert(f64_ulp(b as nat) == u) by (nonlinear_arith)
        requires
            f64_ulp(b as nat) == u * f64_ulp(t as nat),
            f64_ulp(t as nat) == 1,
    ;
    let q = round_half_even_u128(b as u128, u as u128);
    assert(q <= (b as u128) / (u as u128) + 1);
    assert(q * (u as u128) <= 0x2_0000_0000_0000_0000) by (nonlinear_arith)
        requires
            q <= (b as u128) / (u as u128) + 1,
            u >= 1,
            u <= 0x1000,
            b <= u64::MAX,
    ;
    q * (u as u128)
}

/// Byte counts as MB below a gibibyte, GB above it.
pub fn bytes(count: u64) -> (text: String)
    ensures
        text@ == bytes_text(count as nat),
{
    let x = f64_value(count);
    let mut out: Vec<char> = Vec::new();
    if x >= GIB as u128 {
        let c = round_half_even_u128(x * 100, GIB as u128);
        assert(c as int <= (x as int * 100) / 0x4000_0000 + 1);
        let c = c as u64;
        push_dec(&mut out, c / 100);
        out.push('.');
        out.push(digit_from((c % 100) / 10));
        out.push(digit_from(c % 10));
        push_str(&mut out, " GB");
        assert(out@ =~= hundredths(c as nat) + " GB"@);
    } else {
        let m = round_half_even_u128(x, MIB as u128);
        assert(m as int <= (x as int) / 0x10_0000 + 1);
        push_dec(&mut out, m as u64);
        push_str(&mut out, " MB");
        assert(out@ =~= dec(m as nat) + " MB"@);
    }
    string_of(&out)
}

fn digit_from(d: u64) -> (c: char)
    requires
        d < 10,
    ensures
        c == digit_char(d as nat),
{
    let b: u8 = 0x30u8 + d as u8;
    b as char
}

/// How `fmt::uptime` writes a duration: the coarsest unit that still says
/// something.
pub open spec fn uptime_text(seconds: nat) -> Seq<char> {
    let days = seconds / 86400;
    let hours = (seconds % 86400) / 3600;
    let minutes = (seconds % 3600) / 60;
    if days == 0 && hours == 0 {
        dec(minutes) + " minutes"@
    } else if days == 0 {
        dec(hours) + " hours, "@ + dec(minutes) + " minutes"@
    } else {
        dec(days) + "d, "@ + dec(hours) + "h, "@ + dec(minutes) + "m"@
    }
}

/// Uptime at the coarsest granularity that still says something useful.
pub fn uptime(seconds: u64) -> (text: String)
    ensures
        text@ == uptime_text(seconds as nat),
{
    let days = seconds / 86400;
    let hours = (seconds % 86400) / 3600;
    let minutes = (seconds % 3600) / 60;
    let mut out: Vec<char> = Vec::new();
    if days == 0 && hours == 0 {
        push_dec(&mut out, minutes);
        push_str(&mut out, " minutes");
    } else if days == 0 {
        push_dec(&mut out, hours);
        push_str(&mut out, " hours, ");
        push_dec(&mut out, minutes);
        push_str(&mut out, " minutes");
    } else {
        push_dec(&mut out, days);
        push_str(&mut out, "d, ");
        push_dec(&mut out, hours);
        push_str(&mut out, "h, ");
        push_dec(&mut out, minutes);
        push_str(&mut out, "m");
    }
    assert(out@ =~= uptime_text(seconds as nat));
    string_of(&out)
}

} // verus!
