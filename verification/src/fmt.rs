//! Canonical display strings for cell values.
//!
//! Every representable cell maps to a string; formatting never fails. The
//! mathematical form of each rendering is given by spec functions over
//! character sequences, and each executable builder is proved to produce
//! exactly that sequence.

use vstd::prelude::*;

verus! {

/// The decimal digit character for `n` (last decimal digit when `n > 9`).
pub open spec fn digit_char(n: int) -> char {
    if n == 0 {
        '0'
    } else if n == 1 {
        '1'
    } else if n == 2 {
        '2'
    } else if n == 3 {
        '3'
    } else if n == 4 {
        '4'
    } else if n == 5 {
        '5'
    } else if n == 6 {
        '6'
    } else if n == 7 {
        '7'
    } else if n == 8 {
        '8'
    } else {
        '9'
    }
}

/// The decimal rendering of a non-negative integer.
pub open spec fn dec_digits(n: nat) -> Seq<char>
    decreases n,
{
    if n < 10 {
        seq![digit_char(n as int)]
    } else {
        dec_digits(n / 10).push(digit_char((n % 10) as int))
    }
}

/// The decimal rendering of an integer, `-`-prefixed when negative.
pub open spec fn dec_int(i: int) -> Seq<char> {
    if i < 0 {
        seq!['-'] + dec_digits((-i) as nat)
    } else {
        dec_digits(i as nat)
    }
}

/// `n` rendered in decimal and left-padded with zeros to `width` digits
/// (wider than `width` when `n` needs more digits).
pub open spec fn padded_digits(n: nat, width: nat) -> Seq<char>
    decreases width,
{
    if width <= 1 {
        dec_digits(n)
    } else if n < 10 {
        padded_digits(0, (width - 1) as nat).push(digit_char(n as int))
    } else {
        padded_digits(n / 10, (width - 1) as nat).push(digit_char((n % 10) as int))
    }
}

/// Drops trailing `'0'` characters, keeping at least one character.
pub open spec fn trim_zeros(s: Seq<char>) -> Seq<char>
    decreases s.len(),
{
    if s.len() <= 1 {
        s
    } else if s.last() == '0' {
        trim_zeros(s.drop_last())
    } else {
        s
    }
}

/// The canonical rendering of a fixed-point number counted in millionths:
/// integer part, a dot, and the fraction with trailing zeros trimmed.
pub open spec fn fx_str(m: int) -> Seq<char> {
    let mag = if m < 0 {
        -m
    } else {
        m
    };
    let sign: Seq<char> = if m < 0 {
        seq!['-']
    } else {
        Seq::empty()
    };
    sign + dec_digits((mag / 1000000) as nat) + seq!['.'] + trim_zeros(
        padded_digits((mag % 1000000) as nat, 6),
    )
}

/// The fixed-precision rendering of a fixed-point number: always exactly
/// six fraction digits. Used inside list and struct cells.
pub open spec fn fx_str_fixed(m: int) -> Seq<char> {
    let mag = if m < 0 {
        -m
    } else {
        m
    };
    let sign: Seq<char> = if m < 0 {
        seq!['-']
    } else {
        Seq::empty()
    };
    sign + dec_digits((mag / 1000000) as nat) + seq!['.'] + padded_digits((mag % 1000000) as nat, 6)
}

/// The rendering of a duration of `us` microseconds: `D days HH:MM:SS`
/// with the days segment omitted when zero, `-`-prefixed when negative.
/// Sub-second microseconds are truncated.
pub open spec fn duration_str(us: int) -> Seq<char> {
    if us < 0 {
        seq!['-'] + duration_str_abs((-us) as nat)
    } else {
        duration_str_abs(us as nat)
    }
}

/// The rendering of a non-negative duration.
pub open spec fn duration_str_abs(us: nat) -> Seq<char> {
    let secs = us / 1000000;
    let days = secs / 86400;
    let rest = hms_str((secs % 86400) as nat);
    if days > 0 {
        dec_digits(days) + seq![' ', 'd', 'a', 'y', 's', ' '] + rest
    } else {
        rest
    }
}

/// `HH:MM:SS` for a second count below one day.
pub open spec fn hms_str(secs: nat) -> Seq<char> {
    padded_digits(secs / 3600, 2) + seq![':'] + padded_digits(secs / 60 % 60, 2) + seq![':']
        + padded_digits(secs % 60, 2)
}

/// A single decimal digit as a string slice.
pub fn digit_str(d: u8) -> (r: &'static str)
    requires
        d < 10,
    ensures
        r@.len() == 1,
        r@[0] == digit_char(d as int),
{
    proof {
        reveal_strlit("0");
        reveal_strlit("1");
        reveal_strlit("2");
        reveal_strlit("3");
        reveal_strlit("4");
        reveal_strlit("5");
        reveal_strlit("6");
        reveal_strlit("7");
        reveal_strlit("8");
        reveal_strlit("9");
    }
    if d == 0 {
        "0"
    } else if d == 1 {
        "1"
    } else if d == 2 {
        "2"
    } else if d == 3 {
        "3"
    } else if d == 4 {
        "4"
    } else if d == 5 {
        "5"
    } else if d == 6 {
        "6"
    } else if d == 7 {
        "7"
    } else if d == 8 {
        "8"
    } else {
        "9"
    }
}

/// Renders a non-negative integer in decimal.
pub fn u128_to_string(n: u128) -> (r: String)
    ensures
        r@ == dec_digits(n as nat),
    decreases n,
{
    if n < 10 {
        let r = String::from_str(digit_str(n as u8));
        proof {
            assert(r@ =~= dec_digits(n as nat));
        }
        r
    } else {
        let mut r = u128_to_string(n / 10);
        r.append(digit_str((n % 10) as u8));
        proof {
            assert(r@ =~= dec_digits(n as nat));
        }
        r
    }
}

/// Renders a non-negative integer left-padded with zeros to `width` digits.
pub fn padded_to_string(n: u128, width: usize) -> (r: String)
    ensures
        r@ == padded_digits(n as nat, width as nat),
    decreases width,
{
    if width <= 1 {
        u128_to_string(n)
    } else if n < 10 {
        let mut r = padded_to_string(0, width - 1);
        r.append(digit_str(n as u8));
        proof {
            assert(r@ =~= padded_digits(n as nat, width as nat));
        }
        r
    } else {
        let mut r = padded_to_string(n / 10, width - 1);
        r.append(digit_str((n % 10) as u8));
        proof {
            assert(r@ =~= padded_digits(n as nat, width as nat));
        }
        r
    }
}

/// The magnitude of an `i128` as a `u128`.
fn abs_u128(i: i128) -> (r: u128)
    ensures
        r as int == if i < 0 {
            -(i as int)
        } else {
            i as int
        },
{
    if i < 0 {
        if i == i128::MIN {
            170141183460469231731687303715884105728u128
        } else {
            (-i) as u128
        }
    } else {
        i as u128
    }
}

/// Renders an integer in decimal, `-`-prefixed when negative.
pub fn i128_to_string(i: i128) -> (r: String)
    ensures
        r@ == dec_int(i as int),
{
    let mag = abs_u128(i);
    if i < 0 {
        let mut r = String::from_str("-");
        let digits = u128_to_string(mag);
        r.append(digits.as_str());
        proof {
            reveal_strlit("-");
            assert(r@ =~= dec_int(i as int));
        }
        r
    } else {
        u128_to_string(mag)
    }
}

/// Trims trailing zeros from a string, keeping at least one character.
fn trim_zeros_string(s: &str) -> (r: String)
    ensures
        r@ == trim_zeros(s@),
{
    let n = s.unicode_len();
    let mut keep: usize = n;
    proof {
        assert(s@.subrange(0, s@.len() as int) =~= s@);
    }
    while keep > 1 && s.get_char(keep - 1) == '0'
        invariant
            1 <= keep <= n || (n == 0 && keep == 0),
            n == s@.len(),
            trim_zeros(s@) == trim_zeros(s@.subrange(0, keep as int)),
        decreases keep,
    {
        proof {
            assert(s@.subrange(0, keep as int).drop_last() =~= s@.subrange(0, keep - 1));
        }
        keep = keep - 1;
    }
    let r = s.substring_char(0, keep);
    let out = String::from_str(r);
    proof {
        if keep > 0 {
            assert(trim_zeros(s@.subrange(0, keep as int)) == s@.subrange(0, keep as int));
        } else {
            assert(s@.subrange(0, 0) =~= s@);
        }
    }
    out
}

/// Renders a fixed-point number in millionths, trailing zeros trimmed.
pub fn fx_to_string(m: i128) -> (r: String)
    ensures
        r@ == fx_str(m as int),
{
    let mag = abs_u128(m);
    let frac = padded_to_string(mag % 1000000, 6);
    let frac_trimmed = trim_zeros_string(frac.as_str());
    let mut r = if m < 0 {
        let s = String::from_str("-");
        proof {
            reveal_strlit("-");
        }
        s
    } else {
        String::new()
    };
    let ip = u128_to_string(mag / 1000000);
    r.append(ip.as_str());
    r.append(".");
    r.append(frac_trimmed.as_str());
    proof {
        reveal_strlit(".");
        assert(r@ =~= fx_str(m as int));
    }
    r
}

/// Renders a fixed-point number in millionths with exactly six fraction
/// digits.
pub fn fx_to_string_fixed(m: i128) -> (r: String)
    ensures
        r@ == fx_str_fixed(m as int),
{
    let mag = abs_u128(m);
    let frac = padded_to_string(mag % 1000000, 6);
    let mut r = if m < 0 {
        let s = String::from_str("-");
        proof {
            reveal_strlit("-");
        }
        s
    } else {
        String::new()
    };
    let ip = u128_to_string(mag / 1000000);
    r.append(ip.as_str());
    r.append(".");
    r.append(frac.as_str());
    proof {
        reveal_strlit(".");
        assert(r@ =~= fx_str_fixed(m as int));
    }
    r
}

/// The magnitude of an `i64` as a `u64`.
fn abs_u64(i: i64) -> (r: u64)
    ensures
        r as int == if i < 0 {
            -(i as int)
        } else {
            i as int
        },
{
    if i < 0 {
        if i == i64::MIN {
            9223372036854775808u64
        } else {
            (-i) as u64
        }
    } else {
        i as u64
    }
}

/// Renders `HH:MM:SS` for a second count below one day.
fn hms_to_string(secs: u64) -> (r: String)
    requires
        secs < 86400,
    ensures
        r@ == hms_str(secs as nat),
{
    let mut r = padded_to_string((secs / 3600) as u128, 2);
    r.append(":");
    let m = padded_to_string((secs / 60 % 60) as u128, 2);
    r.append(m.as_str());
    r.append(":");
    let s = padded_to_string((secs % 60) as u128, 2);
    r.append(s.as_str());
    proof {
        reveal_strlit(":");
        assert(r@ =~= hms_str(secs as nat));
    }
    r
}

/// Renders a duration of `us` microseconds as `D days HH:MM:SS`, the days
/// segment omitted when zero, `-`-prefixed when negative.
pub fn duration_to_string(us: i64) -> (r: String)
    ensures
        r@ == duration_str(us as int),
{
    let mag = abs_u64(us);
    let secs = mag / 1000000;
    let days = secs / 86400;
    let rest = hms_to_string(secs % 86400);
    let mut r = if us < 0 {
        let s = String::from_str("-");
        proof {
            reveal_strlit("-");
        }
        s
    } else {
        String::new()
    };
    if days > 0 {
        let d = u128_to_string(days as u128);
        r.append(d.as_str());
        r.append(" days ");
        r.append(rest.as_str());
        proof {
            reveal_strlit(" days ");
            assert(" days "@ =~= seq![' ', 'd', 'a', 'y', 's', ' ']);
            assert(r@ =~= duration_str(us as int));
        }
    } else {
        r.append(rest.as_str());
        proof {
            assert(r@ =~= duration_str(us as int));
        }
    }
    r
}

} // verus!

verus! {

/// The lowercase hexadecimal digit character for `n` below 16.
pub open spec fn hex_char(n: int) -> char {
    if n < 10 {
        digit_char(n)
    } else if n == 10 {
        'a'
    } else if n == 11 {
        'b'
    } else if n == 12 {
        'c'
    } else if n == 13 {
        'd'
    } else if n == 14 {
        'e'
    } else {
        'f'
    }
}

/// Two lowercase hexadecimal digits for each byte, in order.
pub open spec fn hex_digits(b: Seq<u8>) -> Seq<char>
    decreases b.len(),
{
    if b.len() == 0 {
        Seq::empty()
    } else {
        hex_digits(b.drop_last()) + seq![
            hex_char((b.last() / 16) as int),
            hex_char((b.last() % 16) as int),
        ]
    }
}

/// The rendering of a binary cell: `0x` followed by lowercase hex.
pub open spec fn bin_str(b: Seq<u8>) -> Seq<char> {
    seq!['0', 'x'] + hex_digits(b)
}

/// A single lowercase hexadecimal digit as a string slice.
fn hex_digit_str(d: u8) -> (r: &'static str)
    requires
        d < 16,
    ensures
        r@.len() == 1,
        r@[0] == hex_char(d as int),
{
    if d < 10 {
        digit_str(d)
    } else {
        proof {
            reveal_strlit("a");
            reveal_strlit("b");
            reveal_strlit("c");
            reveal_strlit("d");
            reveal_strlit("e");
            reveal_strlit("f");
        }
        if d == 10 {
            "a"
        } else if d == 11 {
            "b"
        } else if d == 12 {
            "c"
        } else if d == 13 {
            "d"
        } else if d == 14 {
            "e"
        } else {
            "f"
        }
    }
}

/// Renders a binary value as `0x`-prefixed lowercase hex.
pub fn bin_to_string(b: &Vec<u8>) -> (r: String)
    ensures
        r@ == bin_str(b@),
{
    let mut r = String::from_str("0x");
    let mut i: usize = 0;
    proof {
        reveal_strlit("0x");
        assert(r@ =~= seq!['0', 'x'] + hex_digits(b@.subrange(0, 0)));
    }
    while i < b.len()
        invariant
            i <= b@.len(),
            r@ == seq!['0', 'x'] + hex_digits(b@.subrange(0, i as int)),
        decreases b@.len() - i,
    {
        let byte = b[i];
        r.append(hex_digit_str(byte / 16));
        r.append(hex_digit_str(byte % 16));
        proof {
            assert(b@.subrange(0, i + 1).drop_last() =~= b@.subrange(0, i as int));
            assert(r@ =~= seq!['0', 'x'] + hex_digits(b@.subrange(0, i + 1)));
        }
        i = i + 1;
    }
    proof {
        assert(b@.subrange(0, b@.len() as int) =~= b@);
    }
    r
}

/// `a - b`, or zero when `b` exceeds `a`.
pub open spec fn sub0(a: int, b: int) -> int {
    if b <= a {
        a - b
    } else {
        0
    }
}

/// The proleptic Gregorian calendar date `(year, month, day)` for a count
/// of days since 1970-01-01.
pub open spec fn date_ymd(days: int) -> (int, int, int) {
    let z = days + 719468 + 2921940000;
    let era = z / 146097;
    let doe = z % 146097;
    let yoe = sub0(doe + doe / 36524, doe / 1460 + doe / 146096) / 365;
    let doy = sub0(doe, 365 * yoe + yoe / 4 - yoe / 100);
    let mp = (5 * doy + 2) / 153;
    let d = sub0(doy + 1, (153 * mp + 2) / 5);
    let m = if mp < 10 {
        mp + 3
    } else {
        mp - 9
    };
    let y = yoe + era * 400 - 8000000 + if m <= 2 {
        1int
    } else {
        0int
    };
    (y, m, d)
}

/// The rendering of a year: zero-padded to four digits when it fits.
pub open spec fn year_str(y: int) -> Seq<char> {
    if 0 <= y < 10000 {
        padded_digits(y as nat, 4)
    } else {
        dec_int(y)
    }
}

/// The rendering of a date cell: `YYYY-MM-DD`.
pub open spec fn date_str(days: int) -> Seq<char> {
    let (y, m, d) = date_ymd(days);
    year_str(y) + seq!['-'] + padded_digits(m as nat, 2) + seq!['-'] + padded_digits(d as nat, 2)
}

/// Guarded subtraction on `u64`.
fn sub0_u64(a: u64, b: u64) -> (r: u64)
    ensures
        r as int == sub0(a as int, b as int),
{
    if b <= a {
        a - b
    } else {
        0
    }
}

/// Computes the calendar date for a count of days since 1970-01-01.
pub fn civil_from_days(days: i32) -> (r: (i64, u64, u64))
    ensures
        r.0 as int == date_ymd(days as int).0,
        r.1 as int == date_ymd(days as int).1,
        r.2 as int == date_ymd(days as int).2,
{
    let z: u64 = ((days as i64) + 719468 + 2921940000) as u64;
    let era: u64 = z / 146097;
    let doe: u64 = z % 146097;
    let yoe: u64 = sub0_u64(doe + doe / 36524, doe / 1460 + doe / 146096) / 365;
    let doy: u64 = sub0_u64(doe, 365 * yoe + yoe / 4 - yoe / 100);
    let mp: u64 = (5 * doy + 2) / 153;
    let d: u64 = sub0_u64(doy + 1, (153 * mp + 2) / 5);
    let m: u64 = if mp < 10 {
        mp + 3
    } else {
        mp - 9
    };
    let y: i64 = (yoe as i64) + (era as i64) * 400 - 8000000 + if m <= 2 {
        1
    } else {
        0
    };
    (y, m, d)
}

/// Renders a year, zero-padded to four digits when it fits.
fn year_to_string(y: i64) -> (r: String)
    ensures
        r@ == year_str(y as int),
{
    if 0 <= y && y < 10000 {
        padded_to_string(y as u128, 4)
    } else {
        i128_to_string(y as i128)
    }
}

/// Renders a date cell as `YYYY-MM-DD`.
pub fn date_to_string(days: i32) -> (r: String)
    ensures
        r@ == date_str(days as int),
{
    let (y, m, d) = civil_from_days(days);
    let mut r = year_to_string(y);
    r.append("-");
    let ms = padded_to_string(m as u128, 2);
    r.append(ms.as_str());
    r.append("-");
    let ds = padded_to_string(d as u128, 2);
    r.append(ds.as_str());
    proof {
        reveal_strlit("-");
        assert(r@ =~= date_str(days as int));
    }
    r
}

/// The day count and in-day microsecond remainder of a datetime cell.
pub open spec fn datetime_parts(us: int) -> (int, int) {
    let z = us + 17280000000000000000;
    (z / 86400000000 - 200000000, z % 86400000000)
}

/// The rendering of a datetime cell: the date, a space, `HH:MM:SS`, and
/// a trimmed fraction when the microsecond remainder is not zero.
pub open spec fn datetime_str(us: int) -> Seq<char> {
    let (days, rem) = datetime_parts(us);
    let secs = rem / 1000000;
    let frac = rem % 1000000;
    let head = date_str(days) + seq![' '] + hms_str(secs as nat);
    if frac == 0 {
        head
    } else {
        head + seq!['.'] + trim_zeros(padded_digits(frac as nat, 6))
    }
}

/// Renders a datetime cell.
pub fn datetime_to_string(us: i64) -> (r: String)
    ensures
        r@ == datetime_str(us as int),
{
    let z: u128 = ((us as i128) + 17280000000000000000i128) as u128;
    let days128: u128 = z / 86400000000;
    let rem: u64 = (z % 86400000000) as u64;
    let days: i64 = (days128 as i64) - 200000000;
    let secs: u64 = rem / 1000000;
    let frac: u64 = rem % 1000000;
    let days32: i32 = if days < -2147483648 {
        -2147483648
    } else if days > 2147483647 {
        2147483647
    } else {
        days as i32
    };
    assert(days32 as int == datetime_parts(us as int).0);
    let mut r = date_to_string(days32);
    r.append(" ");
    let t = hms_to_string(secs % 86400);
    r.append(t.as_str());
    if frac != 0 {
        r.append(".");
        let fs = padded_to_string(frac as u128, 6);
        let ft = trim_zeros_string(fs.as_str());
        r.append(ft.as_str());
        proof {
            reveal_strlit(" ");
            reveal_strlit(".");
            assert(r@ =~= datetime_str(us as int));
        }
    } else {
        proof {
            reveal_strlit(" ");
            assert(r@ =~= datetime_str(us as int));
        }
    }
    r
}

/// The rendering of a time cell counted in nanoseconds since midnight:
/// `HH:MM:SS` with a trimmed nanosecond fraction when not zero, wrapped
/// into one day, `-`-prefixed when negative.
pub open spec fn time_str(ns: int) -> Seq<char> {
    if ns < 0 {
        seq!['-'] + time_str_abs((-ns) as nat)
    } else {
        time_str_abs(ns as nat)
    }
}

/// The rendering of a non-negative time of day.
pub open spec fn time_str_abs(ns: nat) -> Seq<char> {
    let secs = ns / 1000000000 % 86400;
    let frac = ns % 1000000000;
    if frac == 0 {
        hms_str(secs)
    } else {
        hms_str(secs) + seq!['.'] + trim_zeros(padded_digits(frac, 9))
    }
}

/// Renders a time cell.
pub fn time_to_string(ns: i64) -> (r: String)
    ensures
        r@ == time_str(ns as int),
{
    let mag = abs_u64(ns);
    let secs = mag / 1000000000 % 86400;
    let frac = mag % 1000000000;
    let mut r = if ns < 0 {
        let s = String::from_str("-");
        proof {
            reveal_strlit("-");
        }
        s
    } else {
        String::new()
    };
    let h = hms_to_string(secs);
    r.append(h.as_str());
    if frac != 0 {
        r.append(".");
        let fs = padded_to_string(frac as u128, 9);
        let ft = trim_zeros_string(fs.as_str());
        r.append(ft.as_str());
        proof {
            reveal_strlit(".");
            assert(r@ =~= time_str(ns as int));
        }
    } else {
        proof {
            assert(r@ =~= time_str(ns as int));
        }
    }
    r
}

} // verus!

verus! {

use crate::value::{Scalar, ScalarV, Cell, CellV, Field};

/// The views of a column dictionary's labels.
pub open spec fn dict_views(d: Seq<String>) -> Seq<Seq<char>> {
    d.map_values(|s: String| s@)
}

/// The display string of a scalar cell at the top level of a column.
/// Null renders as the empty string; categorical codes resolve through
/// the dictionary; a nested composite renders as a marker.
pub open spec fn scalar_display(s: ScalarV, dict: Seq<Seq<char>>) -> Seq<char> {
    match s {
        ScalarV::Null => Seq::empty(),
        ScalarV::Bool(b) => if b {
            seq!['t', 'r', 'u', 'e']
        } else {
            seq!['f', 'a', 'l', 's', 'e']
        },
        ScalarV::Int(i) => dec_int(i),
        ScalarV::UInt(u) => dec_int(u),
        ScalarV::Num(m) => fx_str(m),
        ScalarV::Str(t) => t,
        ScalarV::Bin(b) => bin_str(b),
        ScalarV::Date(d) => date_str(d),
        ScalarV::Datetime(t) => datetime_str(t),
        ScalarV::Time(t) => time_str(t),
        ScalarV::Duration(t) => duration_str(t),
        ScalarV::Cat(c) => if 0 <= c < dict.len() {
            dict[c]
        } else {
            Seq::empty()
        },
        ScalarV::Nested => seq!['.', '.', '.'],
    }
}

/// The display string of a scalar inside a list or struct cell: strings
/// are double-quoted, numbers take exactly six fraction digits, null is
/// spelled out, and categorical codes render as their raw code.
pub open spec fn elem_display(s: ScalarV) -> Seq<char> {
    match s {
        ScalarV::Null => seq!['n', 'u', 'l', 'l'],
        ScalarV::Str(t) => seq!['"'] + t + seq!['"'],
        ScalarV::Num(m) => fx_str_fixed(m),
        ScalarV::Cat(c) => dec_int(c),
        _ => scalar_display(s, Seq::empty()),
    }
}

/// The comma-joined renderings of list elements.
pub open spec fn list_items(s: Seq<ScalarV>) -> Seq<char>
    decreases s.len(),
{
    if s.len() == 0 {
        Seq::empty()
    } else if s.len() == 1 {
        elem_display(s[0])
    } else {
        list_items(s.drop_last()) + seq![',', ' '] + elem_display(s.last())
    }
}

/// The display string of a list cell.
pub open spec fn list_display(s: Seq<ScalarV>) -> Seq<char> {
    seq!['['] + list_items(s) + seq![']']
}

/// The rendering of one struct field: name, colon, value.
pub open spec fn field_display(f: (Seq<char>, ScalarV)) -> Seq<char> {
    f.0 + seq![':', ' '] + elem_display(f.1)
}

/// The comma-joined renderings of struct fields.
pub open spec fn record_items(s: Seq<(Seq<char>, ScalarV)>) -> Seq<char>
    decreases s.len(),
{
    if s.len() == 0 {
        Seq::empty()
    } else if s.len() == 1 {
        field_display(s[0])
    } else {
        record_items(s.drop_last()) + seq![',', ' '] + field_display(s.last())
    }
}

/// The display string of a struct cell.
pub open spec fn record_display(s: Seq<(Seq<char>, ScalarV)>) -> Seq<char> {
    seq!['{'] + record_items(s) + seq!['}']
}

/// The display string of any cell.
pub open spec fn cell_display(c: CellV, dict: Seq<Seq<char>>) -> Seq<char> {
    match c {
        CellV::S(s) => scalar_display(s, dict),
        CellV::List(v) => list_display(v),
        CellV::Record(v) => record_display(v),
    }
}

/// Renders a scalar cell at the top level of a column.
pub fn format_scalar(s: &Scalar, dict: &Vec<String>) -> (r: String)
    ensures
        r@ == scalar_display(s@, dict_views(dict@)),
{
    match s {
        Scalar::Null => String::new(),
        Scalar::Bool(b) => {
            proof {
                reveal_strlit("true");
                reveal_strlit("false");
                assert("true"@ =~= seq!['t', 'r', 'u', 'e']);
                assert("false"@ =~= seq!['f', 'a', 'l', 's', 'e']);
            }
            if *b {
                String::from_str("true")
            } else {
                String::from_str("false")
            }
        },
        Scalar::Int(i) => i128_to_string(*i as i128),
        Scalar::UInt(u) => u128_to_string(*u as u128),
        Scalar::Num(m) => fx_to_string(*m),
        Scalar::Str(t) => t.clone(),
        Scalar::Bin(b) => bin_to_string(b),
        Scalar::Date(d) => date_to_string(*d),
        Scalar::Datetime(t) => datetime_to_string(*t),
        Scalar::Time(t) => time_to_string(*t),
        Scalar::Duration(t) => duration_to_string(*t),
        Scalar::Cat(c) => {
            if (*c as usize) < dict.len() {
                dict[*c as usize].clone()
            } else {
                String::new()
            }
        },
        Scalar::Nested => {
            proof {
                reveal_strlit("...");
                assert("..."@ =~= seq!['.', '.', '.']);
            }
            String::from_str("...")
        },
    }
}

/// Renders a scalar inside a list or struct cell.
pub fn format_elem(s: &Scalar) -> (r: String)
    ensures
        r@ == elem_display(s@),
{
    match s {
        Scalar::Null => {
            proof {
                reveal_strlit("null");
                assert("null"@ =~= seq!['n', 'u', 'l', 'l']);
            }
            String::from_str("null")
        },
        Scalar::Str(t) => {
            let mut r = String::from_str("\"");
            r.append(t.as_str());
            r.append("\"");
            proof {
                reveal_strlit("\"");
                assert(r@ =~= elem_display(s@));
            }
            r
        },
        Scalar::Num(m) => fx_to_string_fixed(*m),
        Scalar::Cat(c) => u128_to_string(*c as u128),
        _ => {
            let empty_dict: Vec<String> = Vec::new();
            let r = format_scalar(s, &empty_dict);
            proof {
                assert(dict_views(Seq::<String>::empty()) =~= Seq::<Seq<char>>::empty());
            }
            r
        },
    }
}

/// Renders any cell to its display string.
pub fn format_cell(c: &Cell, dict: &Vec<String>) -> (r: String)
    ensures
        r@ == cell_display(c@, dict_views(dict@)),
{
    match c {
        Cell::S(s) => format_scalar(s, dict),
        Cell::List(v) => {
            let ghost vw = v@.map_values(|x: Scalar| x@);
            let mut items = String::new();
            let mut i: usize = 0;
            proof {
                assert(vw.subrange(0, 0) =~= Seq::<ScalarV>::empty());
            }
            while i < v.len()
                invariant
                    i <= v@.len(),
                    vw == v@.map_values(|x: Scalar| x@),
                    items@ == list_items(vw.subrange(0, i as int)),
                decreases v@.len() - i,
            {
                if i > 0 {
                    items.append(", ");
                }
                let e = format_elem(&v[i]);
                items.append(e.as_str());
                proof {
                    reveal_strlit(", ");
                    assert(vw.subrange(0, i + 1).drop_last() =~= vw.subrange(0, i as int));
                    assert(", "@ =~= seq![',', ' ']);
                    assert(items@ =~= list_items(vw.subrange(0, i + 1)));
                }
                i = i + 1;
            }
            let mut r = String::from_str("[");
            r.append(items.as_str());
            r.append("]");
            proof {
                reveal_strlit("[");
                reveal_strlit("]");
                assert(vw.subrange(0, vw.len() as int) =~= vw);
                assert(r@ =~= cell_display(c@, dict_views(dict@)));
            }
            r
        },
        Cell::Record(v) => {
            let ghost vw = v@.map_values(|x: Field| x@);
            let mut items = String::new();
            let mut i: usize = 0;
            proof {
                assert(vw.subrange(0, 0) =~= Seq::<(Seq<char>, ScalarV)>::empty());
            }
            while i < v.len()
                invariant
                    i <= v@.len(),
                    vw == v@.map_values(|x: Field| x@),
                    items@ == record_items(vw.subrange(0, i as int)),
                decreases v@.len() - i,
            {
                if i > 0 {
                    items.append(", ");
                }
                items.append(v[i].name.as_str());
                items.append(": ");
                let e = format_elem(&v[i].value);
                items.append(e.as_str());
                proof {
                    reveal_strlit(", ");
                    reveal_strlit(": ");
                    assert(vw.subrange(0, i + 1).drop_last() =~= vw.subrange(0, i as int));
                    assert(", "@ =~= seq![',', ' ']);
                    assert(": "@ =~= seq![':', ' ']);
                    assert(items@ =~= record_items(vw.subrange(0, i + 1)));
                }
                i = i + 1;
            }
            let mut r = String::from_str("{");
            r.append(items.as_str());
            r.append("}");
            proof {
                reveal_strlit("{");
                reveal_strlit("}");
                assert(vw.subrange(0, vw.len() as int) =~= vw);
                assert(r@ =~= cell_display(c@, dict_views(dict@)));
            }
            r
        },
    }
}

} // verus!

verus! {

use crate::strutil::str_eq;

/// Whether a character is a decimal digit.
pub open spec fn is_digit(c: char) -> bool {
    '0' <= c && c <= '9'
}

/// The value of a digit character.
pub open spec fn digit_of(c: char) -> int {
    c as int - 48
}

/// Whether every character is a decimal digit.
pub open spec fn all_digits(s: Seq<char>) -> bool {
    forall|i: int| 0 <= i < s.len() ==> is_digit(#[trigger] s[i])
}

/// The number a digit sequence denotes.
pub open spec fn digits_val(s: Seq<char>) -> int
    decreases s.len(),
{
    if s.len() == 0 {
        0
    } else {
        digits_val(s.drop_last()) * 10 + digit_of(s.last())
    }
}

/// The canonical parse of an integer: an optional minus sign and a
/// non-empty run of digits.
pub open spec fn parse_int_spec(s: Seq<char>) -> Option<int> {
    if s.len() > 0 && s[0] == '-' {
        let t = s.drop_first();
        if t.len() > 0 && all_digits(t) {
            Some(-digits_val(t))
        } else {
            None
        }
    } else if s.len() > 0 && all_digits(s) {
        Some(digits_val(s))
    } else {
        None
    }
}

/// The canonical parse of a boolean.
pub open spec fn parse_bool_spec(s: Seq<char>) -> Option<bool> {
    if s == seq!['t', 'r', 'u', 'e'] {
        Some(true)
    } else if s == seq!['f', 'a', 'l', 's', 'e'] {
        Some(false)
    } else {
        None
    }
}

/// The position of the first dot at or after `i`.
pub open spec fn dot_pos(s: Seq<char>, i: int) -> Option<int>
    decreases s.len() - i,
{
    if i < 0 || i >= s.len() {
        None
    } else if s[i] == '.' {
        Some(i)
    } else {
        dot_pos(s, i + 1)
    }
}

/// Ten to the `k`.
pub open spec fn pow10(k: nat) -> int
    decreases k,
{
    if k == 0 {
        1
    } else {
        10 * pow10((k - 1) as nat)
    }
}

/// The canonical parse of a fixed-point number in millionths: an optional
/// minus sign, a non-empty integer part, a dot, and one to six fraction
/// digits.
pub open spec fn parse_fx_spec(s: Seq<char>) -> Option<int> {
    let neg = s.len() > 0 && s[0] == '-';
    let t = if neg {
        s.drop_first()
    } else {
        s
    };
    match dot_pos(t, 0) {
        Some(d) => {
            let ip = t.subrange(0, d);
            let fp = t.subrange(d + 1, t.len() as int);
            if ip.len() > 0 && all_digits(ip) && 1 <= fp.len() <= 6 && all_digits(fp) && dot_pos(
                t,
                d + 1,
            ) is None {
                let v = digits_val(ip) * 1000000 + digits_val(fp) * pow10((6 - fp.len()) as nat);
                Some(
                    if neg {
                        -v
                    } else {
                        v
                    },
                )
            } else {
                None
            }
        },
        None => None,
    }
}

/// Decimal renderings are digit runs that read back to their number.
pub proof fn lemma_digits_roundtrip(n: nat)
    ensures
        all_digits(dec_digits(n)),
        digits_val(dec_digits(n)) == n,
        dec_digits(n).len() >= 1,
        is_digit(dec_digits(n)[0]),
    decreases n,
{
    if n < 10 {
        assert(dec_digits(n) == seq![digit_char(n as int)]);
        assert(digit_of(digit_char(n as int)) == n);
        assert(seq![digit_char(n as int)].drop_last() =~= Seq::<char>::empty());
        assert(digits_val(Seq::<char>::empty()) == 0);
        assert(is_digit(dec_digits(n)[0]));
    } else {
        lemma_digits_roundtrip(n / 10);
        let pre = dec_digits(n / 10);
        let s = pre.push(digit_char((n % 10) as int));
        assert(s.drop_last() =~= pre);
        assert(s[0] == pre[0]);
        assert(s.last() == digit_char((n % 10) as int));
        assert(digit_of(digit_char((n % 10) as int)) == n % 10);
        assert(digits_val(s) == digits_val(pre) * 10 + n % 10);
        assert(all_digits(s)) by {
            assert(forall|i: int| 0 <= i < pre.len() ==> s[i] == pre[i]);
        }
    }
}

/// Formatting an integer and parsing it back recovers the integer.
pub proof fn lemma_parse_int_roundtrip(i: int)
    ensures
        parse_int_spec(dec_int(i)) == Some(i),
{
    if i < 0 {
        lemma_digits_roundtrip((-i) as nat);
        let s = dec_int(i);
        assert(s[0] == '-');
        assert(s.drop_first() =~= dec_digits((-i) as nat));
    } else {
        lemma_digits_roundtrip(i as nat);
        assert(!is_digit('-'));
    }
}

/// Formatting a boolean and parsing it back recovers the boolean.
pub proof fn lemma_parse_bool_roundtrip(b: bool)
    ensures
        parse_bool_spec(
            if b {
                seq!['t', 'r', 'u', 'e']
            } else {
                seq!['f', 'a', 'l', 's', 'e']
            },
        ) == Some(b),
{
    if b {
        assert(seq!['t', 'r', 'u', 'e'] != seq!['f', 'a', 'l', 's', 'e']) by {
            assert(seq!['t', 'r', 'u', 'e'].len() == 4);
        }
    } else {
        assert(seq!['f', 'a', 'l', 's', 'e'] != seq!['t', 'r', 'u', 'e']) by {
            assert(seq!['f', 'a', 'l', 's', 'e'].len() == 5);
        }
    }
}

/// Zero-padded renderings are digit runs of the requested width that read
/// back to their number.
pub proof fn lemma_padded_roundtrip(n: nat, w: nat)
    ensures
        all_digits(padded_digits(n, w)),
        digits_val(padded_digits(n, w)) == n,
        padded_digits(n, w).len() >= 1,
        n < pow10(w) && w >= 1 ==> padded_digits(n, w).len() == w,
    decreases w,
{
    lemma_digits_roundtrip(n);
    if w <= 1 {
        assert(pow10(0) == 1);
        assert(pow10(1) == 10);
        if n < 10 {
            assert(dec_digits(n).len() == 1);
        }
    } else if n < 10 {
        lemma_padded_roundtrip(0, (w - 1) as nat);
        let pre = padded_digits(0, (w - 1) as nat);
        let s = pre.push(digit_char(n as int));
        assert(s.drop_last() =~= pre);
        assert(digit_of(digit_char(n as int)) == n);
        assert(all_digits(s)) by {
            assert(forall|i: int| 0 <= i < pre.len() ==> s[i] == pre[i]);
        }
        assert(0 < pow10((w - 1) as nat)) by {
            lemma_pow10_pos((w - 1) as nat);
        }
    } else {
        lemma_padded_roundtrip(n / 10, (w - 1) as nat);
        let pre = padded_digits(n / 10, (w - 1) as nat);
        let s = pre.push(digit_char((n % 10) as int));
        assert(s.drop_last() =~= pre);
        assert(digit_of(digit_char((n % 10) as int)) == n % 10);
        assert(all_digits(s)) by {
            assert(forall|i: int| 0 <= i < pre.len() ==> s[i] == pre[i]);
        }
        if n < pow10(w) && w >= 1 {
            assert(n / 10 < pow10((w - 1) as nat)) by {
                vstd::arithmetic::div_mod::lemma_multiply_divide_lt(
                    n as int,
                    10,
                    pow10((w - 1) as nat),
                );
            }
        }
    }
}

/// Ten to any power is positive.
pub proof fn lemma_pow10_pos(k: nat)
    ensures
        pow10(k) >= 1,
    decreases k,
{
    if k > 0 {
        lemma_pow10_pos((k - 1) as nat);
    }
}

/// Trimming trailing zeros divides the value by the dropped power of ten.
pub proof fn lemma_trim_val(s: Seq<char>)
    requires
        all_digits(s),
        s.len() >= 1,
    ensures
        1 <= trim_zeros(s).len() <= s.len(),
        all_digits(trim_zeros(s)),
        digits_val(trim_zeros(s)) * pow10((s.len() - trim_zeros(s).len()) as nat) == digits_val(s),
    decreases s.len(),
{
    if s.len() > 1 && s.last() == '0' {
        assert(all_digits(s.drop_last())) by {
            assert(forall|i: int| 0 <= i < s.len() - 1 ==> s.drop_last()[i] == s[i]);
        }
        lemma_trim_val(s.drop_last());
        let t = trim_zeros(s);
        assert(t == trim_zeros(s.drop_last()));
        let k = (s.len() - 1 - t.len()) as nat;
        assert(digits_val(t) * pow10(k) == digits_val(s.drop_last()));
        assert(digit_of('0') == 0);
        assert(digits_val(s) == digits_val(s.drop_last()) * 10);
        assert(pow10(k + 1) == 10 * pow10(k));
        assert(digits_val(t) * pow10(k + 1) == digits_val(t) * pow10(k) * 10) by (nonlinear_arith)
            requires
                pow10(k + 1) == 10 * pow10(k);
        assert(digits_val(t) * pow10(k) * 10 == digits_val(s.drop_last()) * 10);
    }
}

/// A digit run denotes a non-negative number.
pub proof fn lemma_digits_val_nonneg(s: Seq<char>)
    requires
        all_digits(s),
    ensures
        digits_val(s) >= 0,
    decreases s.len(),
{
    if s.len() > 0 {
        assert(all_digits(s.drop_last())) by {
            assert(forall|i: int| 0 <= i < s.len() - 1 ==> s.drop_last()[i] == s[i]);
        }
        lemma_digits_val_nonneg(s.drop_last());
    }
}

/// The first dot of a sequence whose characters before `d` are not dots.
pub proof fn lemma_dot_from(t: Seq<char>, i: int, d: int)
    requires
        0 <= i <= d < t.len(),
        forall|j: int| i <= j < d ==> t[j] != '.',
        t[d] == '.',
    ensures
        dot_pos(t, i) == Some(d),
    decreases d - i,
{
    if i < d {
        lemma_dot_from(t, i + 1, d);
    }
}

/// No dot occurs at or after `i`.
pub proof fn lemma_no_dot_from(t: Seq<char>, i: int)
    requires
        forall|j: int| i <= j < t.len() ==> t[j] != '.',
        0 <= i,
    ensures
        dot_pos(t, i) is None,
    decreases t.len() - i,
{
    if i < t.len() {
        lemma_no_dot_from(t, i + 1);
    }
}

/// Formatting a fixed-point number and parsing it back recovers the
/// number.
pub proof fn lemma_parse_fx_roundtrip(m: int)
    ensures
        parse_fx_spec(fx_str(m)) == Some(m),
{
    let mag = if m < 0 {
        -m
    } else {
        m
    };
    let ip = (mag / 1000000) as nat;
    let fp = (mag % 1000000) as nat;
    let ipd = dec_digits(ip);
    let fpd = trim_zeros(padded_digits(fp, 6));
    lemma_digits_roundtrip(ip);
    lemma_padded_roundtrip(fp, 6);
    assert(fp < pow10(6)) by {
        reveal_with_fuel(pow10, 7);
    }
    lemma_trim_val(padded_digits(fp, 6));
    assert(padded_digits(fp, 6).len() == 6);
    let t = ipd + seq!['.'] + fpd;
    let s = fx_str(m);
    if m < 0 {
        assert(s == seq!['-'] + t) by {
            assert(s =~= seq!['-'] + t);
        }
        assert(s[0] == '-');
        assert(s.drop_first() =~= t);
    } else {
        assert(s =~= t);
        assert(is_digit(s[0]));
    }
    let d = ipd.len() as int;
    assert(t[d] == '.');
    assert(forall|j: int| 0 <= j < d ==> t[j] == ipd[j] && is_digit(ipd[j]));
    assert(forall|j: int| 0 <= j < d ==> t[j] != '.');
    lemma_dot_from(t, 0, d);
    assert(t.subrange(0, d) =~= ipd);
    assert(t.subrange(d + 1, t.len() as int) =~= fpd);
    assert(forall|j: int| d + 1 <= j < t.len() ==> t[j] == fpd[j - d - 1] && is_digit(t[j]));
    lemma_no_dot_from(t, d + 1);
    assert(1 <= fpd.len() <= 6);
    assert(digits_val(fpd) * pow10((6 - fpd.len()) as nat) == fp);
    assert(digits_val(ipd) * 1000000 + digits_val(fpd) * pow10((6 - fpd.len()) as nat) == ip
        * 1000000 + fp);
    assert(ip * 1000000 + fp == mag);
}

/// Null displays as the empty string, and only null does among the
/// scalar kinds with a canonical parse: booleans, integers, and
/// fixed-point numbers always display at least one character.
pub proof fn lemma_null_display_empty(dict: Seq<Seq<char>>)
    ensures
        scalar_display(crate::value::ScalarV::Null, dict) == Seq::<char>::empty(),
        forall|b: bool|
            scalar_display(crate::value::ScalarV::Bool(b), dict).len() > 0,
        forall|i: int| #[trigger]
            scalar_display(crate::value::ScalarV::Int(i), dict).len() > 0,
        forall|u: int| #[trigger]
            scalar_display(crate::value::ScalarV::UInt(u), dict).len() > 0,
        forall|m: int| #[trigger]
            scalar_display(crate::value::ScalarV::Num(m), dict).len() > 0,
{
    assert forall|i: int| #[trigger]
        scalar_display(crate::value::ScalarV::Int(i), dict).len() > 0 by {
        if i < 0 {
            lemma_digits_roundtrip((-i) as nat);
        } else {
            lemma_digits_roundtrip(i as nat);
        }
    }
    assert forall|u: int| #[trigger]
        scalar_display(crate::value::ScalarV::UInt(u), dict).len() > 0 by {
        if u < 0 {
            lemma_digits_roundtrip((-u) as nat);
        } else {
            lemma_digits_roundtrip(u as nat);
        }
    }
    assert forall|m: int| #[trigger]
        scalar_display(crate::value::ScalarV::Num(m), dict).len() > 0 by {
        let mag = if m < 0 {
            -m
        } else {
            m
        };
        lemma_digits_roundtrip((mag / 1000000) as nat);
    }
}

} // verus!

verus! {

/// Prefixes of a digit run denote at most the whole run's number.
proof fn lemma_digits_prefix_le(s: Seq<char>, k: int)
    requires
        all_digits(s),
        0 <= k <= s.len(),
    ensures
        digits_val(s.subrange(0, k)) <= digits_val(s),
    decreases s.len(),
{
    lemma_digits_val_nonneg(s);
    if k < s.len() {
        assert(all_digits(s.drop_last())) by {
            assert(forall|i: int| 0 <= i < s.len() - 1 ==> s.drop_last()[i] == s[i]);
        }
        lemma_digits_val_nonneg(s.drop_last());
        assert(s.drop_last().subrange(0, k) =~= s.subrange(0, k));
        lemma_digits_prefix_le(s.drop_last(), k);
        assert(digits_val(s) == digits_val(s.drop_last()) * 10 + digit_of(s.last()));
    } else {
        assert(s.subrange(0, k) =~= s);
    }
}

/// Parses a boolean from its canonical rendering.
pub fn parse_bool(s: &str) -> (r: Option<bool>)
    ensures
        r == parse_bool_spec(s@),
{
    proof {
        reveal_strlit("true");
        reveal_strlit("false");
        assert("true"@ =~= seq!['t', 'r', 'u', 'e']);
        assert("false"@ =~= seq!['f', 'a', 'l', 's', 'e']);
    }
    if str_eq(s, "true") {
        Some(true)
    } else if str_eq(s, "false") {
        Some(false)
    } else {
        None
    }
}

/// Parses a run of digits within `[from, to)` into a number, reporting
/// a non-digit as `None` and a value beyond 128 bits as overflow.
fn parse_digits(s: &str, from: usize, to: usize) -> (r: Result<u128, bool>)
    requires
        from <= to <= s@.len(),
    ensures
        match r {
            Ok(v) => all_digits(s@.subrange(from as int, to as int)) && v as int == digits_val(
                s@.subrange(from as int, to as int),
            ),
            Err(true) => all_digits(s@.subrange(from as int, to as int)) ==> digits_val(
                s@.subrange(from as int, to as int),
            ) > u128::MAX,
            Err(false) => !all_digits(s@.subrange(from as int, to as int)),
        },
{
    let ghost t = s@.subrange(from as int, to as int);
    let mut acc: u128 = 0;
    let mut i: usize = from;
    proof {
        assert(t.subrange(0, 0) =~= Seq::<char>::empty());
    }
    while i < to
        invariant
            from <= i <= to <= s@.len(),
            t == s@.subrange(from as int, to as int),
            all_digits(t.subrange(0, i - from)),
            acc as int == digits_val(t.subrange(0, i - from)),
        decreases to - i,
    {
        let c = s.get_char(i);
        proof {
            assert(t[i - from] == s@[i as int]);
        }
        if !('0' <= c && c <= '9') {
            proof {
                assert(!is_digit(t[i - from]));
            }
            return Err(false);
        }
        let d: u128 = ((c as u32) as u128) - 48;
        proof {
            assert(t.subrange(0, i - from + 1).drop_last() =~= t.subrange(0, i - from));
            assert(t.subrange(0, i - from + 1).last() == t[i - from]);
            assert(d as int == digit_of(t[i - from]));
        }
        if acc > (u128::MAX - d) / 10 {
            proof {
                assert((acc as int) * 10 + d > u128::MAX) by {
                    assert(acc as int >= (u128::MAX - d) / 10 + 1);
                    assert(((u128::MAX - d) / 10 + 1) * 10 >= u128::MAX - d + 1)
                        by (nonlinear_arith)
                        requires
                            ((u128::MAX - d) as int) / 10 * 10 + ((u128::MAX - d) as int) % 10
                                == (u128::MAX - d) as int,
                            0 <= ((u128::MAX - d) as int) % 10 < 10;
                    assert((acc as int) * 10 >= ((u128::MAX - d) / 10 + 1) * 10)
                        by (nonlinear_arith)
                        requires
                            acc as int >= (u128::MAX - d) / 10 + 1;
                }
                if all_digits(t) {
                    lemma_digits_prefix_le(t, i - from + 1);
                    assert(digits_val(t.subrange(0, i - from + 1)) == (acc as int) * 10 + d);
                }
            }
            return Err(true);
        }
        acc = acc * 10 + d;
        i = i + 1;
    }
    proof {
        assert(t.subrange(0, to - from) =~= t);
    }
    Ok(acc)
}

/// Parses an integer from its canonical rendering; `None` for text that
/// does not parse or a value outside 128-bit range.
pub fn parse_int(s: &str) -> (r: Option<i128>)
    ensures
        match parse_int_spec(s@) {
            Some(v) => r == if i128::MIN <= v <= i128::MAX {
                Some(v as i128)
            } else {
                None::<i128>
            },
            None => r is None,
        },
{
    let n = s.unicode_len();
    if n == 0 {
        return None;
    }
    let neg = s.get_char(0) == '-';
    let start: usize = if neg {
        1
    } else {
        0
    };
    if n == start {
        return None;
    }
    let ghost t = if neg {
        s@.drop_first()
    } else {
        s@
    };
    proof {
        assert(t =~= s@.subrange(start as int, n as int));
        if !neg {
            assert(!is_digit('-'));
        }
    }
    match parse_digits(s, start, n) {
        Ok(acc) => {
            proof {
                lemma_digits_val_nonneg(t);
            }
            if neg {
                if acc > 170141183460469231731687303715884105728u128 {
                    None
                } else if acc == 170141183460469231731687303715884105728u128 {
                    Some(i128::MIN)
                } else {
                    Some(-(acc as i128))
                }
            } else {
                if acc > 170141183460469231731687303715884105727u128 {
                    None
                } else {
                    Some(acc as i128)
                }
            }
        },
        Err(overflow) => {
            proof {
                if overflow && all_digits(t) {
                    lemma_digits_val_nonneg(t);
                }
            }
            None
        },
    }
}

/// Ten to a small power.
fn pow10_exec(k: usize) -> (r: u128)
    requires
        k <= 6,
    ensures
        r as int == pow10(k as nat),
{
    proof {
        reveal_with_fuel(pow10, 8);
    }
    if k == 0 {
        1
    } else if k == 1 {
        10
    } else if k == 2 {
        100
    } else if k == 3 {
        1000
    } else if k == 4 {
        10000
    } else if k == 5 {
        100000
    } else {
        1000000
    }
}

/// Parses a fixed-point number in millionths from its canonical
/// rendering; `None` for text that does not parse or a value outside
/// 128-bit range.
pub fn parse_fx(s: &str) -> (r: Option<i128>)
    ensures
        match parse_fx_spec(s@) {
            Some(v) => r == if i128::MIN <= v <= i128::MAX {
                Some(v as i128)
            } else {
                None::<i128>
            },
            None => r is None,
        },
{
    let n = s.unicode_len();
    if n == 0 {
        return None;
    }
    let neg = s.get_char(0) == '-';
    let start: usize = if neg {
        1
    } else {
        0
    };
    let ghost t = if neg {
        s@.drop_first()
    } else {
        s@
    };
    proof {
        assert(t =~= s@.subrange(start as int, n as int));
    }
    let mut dot: usize = start;
    while dot < n && s.get_char(dot) != '.'
        invariant
            start <= dot <= n,
            n == s@.len(),
            t == s@.subrange(start as int, n as int),
            forall|j: int| 0 <= j < dot - start ==> t[j] != '.',
        decreases n - dot,
    {
        proof {
            assert(t[dot - start] == s@[dot as int]);
        }
        dot = dot + 1;
    }
    if dot == n {
        proof {
            crate::fmt::lemma_no_dot_from(t, 0);
        }
        return None;
    }
    proof {
        assert(t[dot - start] == s@[dot as int]);
        lemma_dot_from(t, 0, dot - start);
    }
    let ghost d = dot - start;
    if dot == start {
        return None;
    }
    let flen = n - dot - 1;
    if flen < 1 || flen > 6 {
        return None;
    }
    let ip = match parse_digits(s, start, dot) {
        Ok(v) => v,
        Err(overflow) => {
            proof {
                assert(t.subrange(0, d as int) =~= s@.subrange(start as int, dot as int));
                if overflow && all_digits(t.subrange(0, d as int)) && all_digits(
                    t.subrange(d + 1, t.len() as int),
                ) {
                    lemma_fx_parts_large(t, d as int);
                    lemma_digits_val_nonneg(t.subrange(d + 1, t.len() as int));
                    lemma_pow10_pos((6 - (t.len() - d - 1)) as nat);
                    assert(digits_val(t.subrange(d + 1, t.len() as int)) * pow10(
                        (6 - (t.len() - d - 1)) as nat,
                    ) >= 0) by (nonlinear_arith)
                        requires
                            digits_val(t.subrange(d + 1, t.len() as int)) >= 0,
                            pow10((6 - (t.len() - d - 1)) as nat) >= 1;
                }
            }
            return None;
        },
    };
    let fp = match parse_digits(s, dot + 1, n) {
        Ok(v) => v,
        Err(_) => {
            proof {
                assert(t.subrange(d + 1, t.len() as int) =~= s@.subrange(dot + 1, n as int));
                if all_digits(t.subrange(d + 1, t.len() as int)) {
                    lemma_frac_small(t, d as int);
                }
            }
            return None;
        },
    };
    proof {
        assert(t.subrange(0, d as int) =~= s@.subrange(start as int, dot as int));
        assert(t.subrange(d + 1, t.len() as int) =~= s@.subrange(dot + 1, n as int));
        assert forall|j: int| d + 1 <= j < t.len() implies t[j] != '.' by {
            assert(is_digit(t.subrange(d + 1, t.len() as int)[j - d - 1]));
        }
        lemma_no_dot_from(t, d + 1);
        lemma_digits_val_nonneg(t.subrange(0, d as int));
        lemma_digits_val_nonneg(t.subrange(d + 1, t.len() as int));
    }
    if ip > (u128::MAX - 1000000000000) / 1000000 {
        proof {
            lemma_fx_value_large(t, d as int);
            lemma_pow10_pos((6 - (t.len() - d - 1)) as nat);
            assert(digits_val(t.subrange(d + 1, t.len() as int)) * pow10(
                (6 - (t.len() - d - 1)) as nat,
            ) >= 0) by (nonlinear_arith)
                requires
                    digits_val(t.subrange(d + 1, t.len() as int)) >= 0,
                    pow10((6 - (t.len() - d - 1)) as nat) >= 1;
        }
        return None;
    }
    proof {
        reveal_with_fuel(pow10, 8);
        assert(fp as int <= 999999) by {
            lemma_frac_small(t, d as int);
        }
        let q = ((u128::MAX - 1000000000000) as int) / 1000000;
        assert(q * 1000000 <= (u128::MAX - 1000000000000) as int) by {
            assert(q * 1000000 + ((u128::MAX - 1000000000000) as int) % 1000000 == (u128::MAX
                - 1000000000000) as int);
        }
        assert((ip as int) * 1000000 <= q * 1000000) by (nonlinear_arith)
            requires
                0 <= ip as int <= q,
        ;
    }
    let scale = pow10_exec(6 - flen);
    proof {
        assert((fp as int) * (scale as int) < 1000000 * 1000000) by (nonlinear_arith)
            requires
                0 <= fp as int <= 999999,
                0 <= scale as int <= 1000000;
    }
    let v: u128 = ip * 1000000 + fp * scale;
    proof {
        assert(v as int == digits_val(t.subrange(0, d as int)) * 1000000 + digits_val(
            t.subrange(d + 1, t.len() as int),
        ) * pow10((6 - (t.len() - d - 1)) as nat));
    }
    if neg {
        if v > 170141183460469231731687303715884105728u128 {
            None
        } else if v == 170141183460469231731687303715884105728u128 {
            Some(i128::MIN)
        } else {
            Some(-(v as i128))
        }
    } else {
        if v > 170141183460469231731687303715884105727u128 {
            None
        } else {
            Some(v as i128)
        }
    }
}

/// A fraction of at most six digits is below one million.
proof fn lemma_frac_small(t: Seq<char>, d: int)
    requires
        0 <= d < t.len(),
        1 <= t.len() - d - 1 <= 6,
        all_digits(t.subrange(d + 1, t.len() as int)),
    ensures
        digits_val(t.subrange(d + 1, t.len() as int)) <= 999999,
{
    lemma_digits_upper(t.subrange(d + 1, t.len() as int));
    reveal_with_fuel(pow10, 8);
}

/// A digit run of length `k` denotes less than ten to the `k`.
proof fn lemma_digits_upper(s: Seq<char>)
    requires
        all_digits(s),
    ensures
        digits_val(s) < pow10(s.len()),
    decreases s.len(),
{
    if s.len() == 0 {
    } else {
        assert(all_digits(s.drop_last())) by {
            assert(forall|i: int| 0 <= i < s.len() - 1 ==> s.drop_last()[i] == s[i]);
        }
        lemma_digits_upper(s.drop_last());
        assert(pow10(s.len()) == 10 * pow10((s.len() - 1) as nat));
        assert(digits_val(s.drop_last()) * 10 + 9 < pow10(s.len())) by (nonlinear_arith)
            requires
                digits_val(s.drop_last()) < pow10((s.len() - 1) as nat),
                pow10(s.len()) == 10 * pow10((s.len() - 1) as nat);
        assert(digit_of(s.last()) <= 9);
    }
}

/// When the integer part alone exceeds 128 bits, so does the value.
proof fn lemma_fx_parts_large(t: Seq<char>, d: int)
    requires
        0 <= d <= t.len(),
        all_digits(t.subrange(0, d)),
        digits_val(t.subrange(0, d)) > u128::MAX,
    ensures
        digits_val(t.subrange(0, d)) * 1000000 > u128::MAX,
{
    let v = digits_val(t.subrange(0, d));
    assert(v * 1000000 >= v) by (nonlinear_arith)
        requires
            v >= 1;
}

/// When the integer part exceeds the scaled bound, the value exceeds
/// the positive 128-bit range by a wide margin.
proof fn lemma_fx_value_large(t: Seq<char>, d: int)
    requires
        0 <= d <= t.len(),
        all_digits(t.subrange(0, d)),
        digits_val(t.subrange(0, d)) > ((u128::MAX - 1000000000000) as int) / 1000000,
    ensures
        digits_val(t.subrange(0, d)) * 1000000 > (u128::MAX - 1000000000000) as int,
{
    let b = (u128::MAX - 1000000000000) as int;
    let v = digits_val(t.subrange(0, d));
    assert(v >= b / 1000000 + 1);
    assert((b / 1000000 + 1) * 1000000 > b) by (nonlinear_arith)
        requires
            (b / 1000000) * 1000000 + b % 1000000 == b,
            0 <= b % 1000000 < 1000000;
    assert(v * 1000000 >= (b / 1000000 + 1) * 1000000) by (nonlinear_arith)
        requires
            v >= b / 1000000 + 1;
}

} // verus!
