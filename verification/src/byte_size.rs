//! Byte counts in binary units, for display.
//!
//! A count below one KiB is written as it is. A larger one is written in the
//! largest unit that it reaches, with two decimals. The text is the one that
//! results from converting the count to double precision, dividing by the
//! unit and rounding to two decimals, ties going to the even digit; the
//! arithmetic here is in integers throughout.

use vstd::prelude::*;
use vstd::string::StringExecFns;

verus! {

pub const KIB: u64 = 0x400;

pub const MIB: u64 = 0x10_0000;

pub const GIB: u64 = 0x4000_0000;

/// The first count that double precision cannot always hold exactly.
pub const DOUBLE_EXACT_LIMIT: u64 = 0x20_0000_0000_0000;

/// `num / den`, rounded to the nearest whole number, a tie to the even one.
pub open spec fn round_half_even(num: nat, den: nat) -> nat
    recommends
        den > 0,
{
    let q = num / den;
    let r = num % den;
    if 2 * r > den || (2 * r == den && q % 2 == 1) {
        q + 1
    } else {
        q
    }
}

/// The distance between neighbouring double-precision numbers around `n`:
/// one up to 2^53, and twice as much from each further power of two on.
pub open spec fn double_spacing(n: u64) -> nat {
    if n < 0x20_0000_0000_0000 {
        1
    } else if n < 0x40_0000_0000_0000 {
        2
    } else if n < 0x80_0000_0000_0000 {
        4
    } else if n < 0x100_0000_0000_0000 {
        8
    } else if n < 0x200_0000_0000_0000 {
        0x10
    } else if n < 0x400_0000_0000_0000 {
        0x20
    } else if n < 0x800_0000_0000_0000 {
        0x40
    } else if n < 0x1000_0000_0000_0000 {
        0x80
    } else if n < 0x2000_0000_0000_0000 {
        0x100
    } else if n < 0x4000_0000_0000_0000 {
        0x200
    } else if n < 0x8000_0000_0000_0000 {
        0x400
    } else {
        0x800
    }
}

/// The double-precision number nearest to `n`, a tie going to the one with
/// the even significand.
pub open spec fn nearest_double(n: u64) -> nat {
    round_half_even(n as nat, double_spacing(n)) * double_spacing(n)
}

/// `bytes` in hundredths of `unit`, after the passage through double
/// precision.
pub open spec fn hundredths(bytes: u64, unit: u64) -> nat
    recommends
        unit > 0,
{
    round_half_even(nearest_double(bytes) * 100, unit as nat)
}

pub open spec fn digit(d: nat) -> char
    recommends
        d < 10,
{
    if d == 0 {
        '0'
    } else if d == 1 {
        '1'
    } else if d == 2 {
        '2'
    } else if d == 3 {
        '3'
    } else if d == 4 {
        '4'
    } else if d == 5 {
        '5'
    } else if d == 6 {
        '6'
    } else if d == 7 {
        '7'
    } else if d == 8 {
        '8'
    } else {
        '9'
    }
}

/// `n` in decimal, without leading zeros.
pub open spec fn decimal(n: nat) -> Seq<char>
    decreases n,
{
    if n < 10 {
        seq![digit(n)]
    } else {
        decimal(n / 10).push(digit(n % 10))
    }
}

/// A number of hundredths as a decimal fraction with two decimals.
pub open spec fn two_decimals(h: nat) -> Seq<char> {
    decimal(h / 100) + "."@ + seq![digit(h % 100 / 10), digit(h % 10)]
}

/// The display text of a byte count.
pub open spec fn spec_format_bytes(bytes: u64) -> Seq<char> {
    if bytes >= GIB {
        two_decimals(hundredths(bytes, GIB)) + " GiB"@
    } else if bytes >= MIB {
        two_decimals(hundredths(bytes, MIB)) + " MiB"@
    } else if bytes >= KIB {
        two_decimals(hundredths(bytes, KIB)) + " KiB"@
    } else {
        decimal(bytes as nat) + " B"@
    }
}

/// `num / den`, rounded to the nearest whole number, a tie to the even one.
pub fn div_round_half_even(num: u128, den: u128) -> (r: u128)
    requires
        0 < den <= u64::MAX,
        num / den < u128::MAX,
    ensures
        r == round_half_even(num as nat, den as nat),
{
    let q = num / den;
    let r = num % den;
    if 2 * r > den || (2 * r == den && q % 2 == 1) {
        q + 1
    } else {
        q
    }
}

/// The distance between neighbouring double-precision numbers around `n`.
pub fn spacing_of(n: u64) -> (unit: u64)
    ensures
        unit == double_spacing(n),
        1 <= unit <= 0x800,
{
    let mut unit: u64 = 1;
    while unit < 0x800 && n / unit >= DOUBLE_EXACT_LIMIT
        invariant
            unit == 1 || unit == 2 || unit == 4 || unit == 8 || unit == 0x10 || unit == 0x20
                || unit == 0x40 || unit == 0x80 || unit == 0x100 || unit == 0x200 || unit == 0x400
                || unit == 0x800,
            unit > 1 ==> n >= (unit / 2) * DOUBLE_EXACT_LIMIT,
        decreases 0x800 - unit,
    {
        unit = unit * 2;
    }
    unit
}

/// The double-precision number nearest to `n`.
pub fn nearest_double_of(n: u64) -> (m: u128)
    ensures
        m == nearest_double(n),
        m <= 0x1_0000_0000_0000_0800,
{
    let unit = spacing_of(n) as u128;
    let steps = div_round_half_even(n as u128, unit);
    assert(steps * unit <= 0x1_0000_0000_0000_0800) by (nonlinear_arith)
        requires
            steps <= (n as u128) / unit + 1,
            n <= 0xffff_ffff_ffff_ffff,
            1 <= unit <= 0x800,
    ;
    steps * unit
}

/// The text of one decimal digit.
fn digit_str(d: u128) -> (s: &'static str)
    requires
        d < 10,
    ensures
        s@ == seq![digit(d as nat)],
{
    proof {
        reveal_strlit("0");
        reveal_strlit("1");
        reveal_strlit("2");
        reveal_strlit("3");
        reveal_strlit("4");
        reveal_strlit("5");
        reveal_strlit("6");
        reveal_strlit("7");
        reveal_strlit("8");
        reveal_strlit("9");
    }
    let s = if d == 0 {
        "0"
    } else if d == 1 {
        "1"
    } else if d == 2 {
        "2"
    } else if d == 3 {
        "3"
    } else if d == 4 {
        "4"
    } else if d == 5 {
        "5"
    } else if d == 6 {
        "6"
    } else if d == 7 {
        "7"
    } else if d == 8 {
        "8"
    } else {
        "9"
    };
    assert(s@ =~= seq![digit(d as nat)]);
    s
}

/// Appends `n` in decimal to `out`.
fn push_decimal(out: &mut String, n: u128)
    ensures
        final(out)@ == old(out)@ + decimal(n as nat),
    decreases n,
{
    if n >= 10 {
        push_decimal(out, n / 10);
    }
    out.append(digit_str(n % 10));
    assert(out@ =~= old(out)@ + decimal(n as nat));
}

/// Appends a number of hundredths as a decimal fraction to `out`.
fn push_two_decimals(out: &mut String, h: u128)
    ensures
        final(out)@ == old(out)@ + two_decimals(h as nat),
{
    push_decimal(out, h / 100);
    out.append(".");
    out.append(digit_str(h % 100 / 10));
    out.append(digit_str(h % 10));
    assert(out@ =~= old(out)@ + two_decimals(h as nat));
}

/// `bytes` in hundredths of `unit`.
pub fn hundredths_of(bytes: u64, unit: u64) -> (h: u128)
    requires
        unit > 0,
    ensures
        h == hundredths(bytes, unit),
{
    let m = nearest_double_of(bytes);
    div_round_half_even(m * 100, unit as u128)
}

/// Renders a byte count for display: below one KiB as `"<n> B"`, above it in
/// the largest of KiB, MiB and GiB that it reaches, with two decimals.
pub fn format_bytes(bytes: u64) -> (text: String)
    ensures
        text@ == spec_format_bytes(bytes),
{
    let mut text = String::new();
    if bytes >= GIB {
        push_two_decimals(&mut text, hundredths_of(bytes, GIB));
        text.append(" GiB");
    } else if bytes >= MIB {
        push_two_decimals(&mut text, hundredths_of(bytes, MIB));
        text.append(" MiB");
    } else if bytes >= KIB {
        push_two_decimals(&mut text, hundredths_of(bytes, KIB));
        text.append(" KiB");
    } else {
        push_decimal(&mut text, bytes as u128);
        text.append(" B");
    }
    assert(text@ =~= spec_format_bytes(bytes));
    text
}

} // verus!
