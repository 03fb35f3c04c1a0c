//! UTC timestamps in the `YYYY-MM-DDTHH:MM:SSZ` shape that sidecars and
//! recordings carry, computed from seconds since the Unix epoch on the
//! proleptic Gregorian calendar.

use vstd::prelude::*;
use vstd::arithmetic::div_mod::lemma_fundamental_div_mod_converse;
use vstd::arithmetic::div_mod::lemma_fundamental_div_mod;
use vstd::arithmetic::div_mod::lemma_mod_bound;
use crate::text::{decimal, push_char, u64_to_decimal};

verus! {

/// Gregorian leap year: divisible by 4, except centuries not divisible by 400.
pub open spec fn is_leap_year(y: int) -> bool {
    (y % 4 == 0 && y % 100 != 0) || y % 400 == 0
}

/// Number of days in year `y`.
pub open spec fn year_len(y: int) -> int {
    if is_leap_year(y) { 366 } else { 365 }
}

/// Number of days in month `m` (1 = January) of year `y`.
pub open spec fn month_len(y: int, m: int) -> int {
    if m == 2 {
        if is_leap_year(y) { 29 } else { 28 }
    } else if m == 4 || m == 6 || m == 9 || m == 11 {
        30
    } else {
        31
    }
}

/// Count of leap years among the years `1..=n` (for `n < 0`, the negated
/// count among `n+1..=0`), by the usual floor-division formula.
pub open spec fn leaps_through(n: int) -> int {
    n / 4 - n / 100 + n / 400
}

/// Days from 1970-01-01 to the first of January of year `y` (negative
/// before 1970).
pub open spec fn days_before_year(y: int) -> int {
    365 * (y - 1970) + leaps_through(y - 1) - leaps_through(1969)
}

/// Days from the first of January to the first day of month `m` of year `y`.
pub open spec fn days_before_month(y: int, m: int) -> int
    decreases m,
{
    if m <= 1 {
        0
    } else {
        days_before_month(y, m - 1) + month_len(y, m - 1)
    }
}

/// A calendar date that exists.
pub open spec fn valid_date(y: int, m: int, d: int) -> bool {
    1 <= m <= 12 && 1 <= d <= month_len(y, m)
}

/// Days from 1970-01-01 to the date `y-m-d`.
pub open spec fn days_from_civil(y: int, m: int, d: int) -> int {
    days_before_year(y) + days_before_month(y, m) + d - 1
}

proof fn lemma_div_step(y: int, k: int)
    requires
        k > 0,
    ensures
        y / k - (y - 1) / k == (if y % k == 0 { 1int } else { 0int }),
{
    lemma_fundamental_div_mod(y, k);
    let a = y / k;
    let r = y % k;
    assert(y == k * a + r);
    assert(0 <= r < k) by {
        lemma_mod_bound(y, k);
    }
    if r > 0 {
        assert(y - 1 == a * k + (r - 1)) by (nonlinear_arith)
            requires y == k * a + r;
        lemma_fundamental_div_mod_converse(y - 1, k, a, r - 1);
    } else {
        assert(y - 1 == (a - 1) * k + (k - 1)) by (nonlinear_arith)
            requires y == k * a + r, r == 0;
        lemma_fundamental_div_mod_converse(y - 1, k, a - 1, k - 1);
    }
}

/// Each year contributes its own length to `days_before_year`.
pub proof fn lemma_year_len(y: int)
    ensures
        days_before_year(y + 1) - days_before_year(y) == year_len(y),
{
    lemma_div_step(y, 4);
    lemma_div_step(y, 100);
    lemma_div_step(y, 400);
    assert(y % 400 == 0 ==> y % 100 == 0 && y % 4 == 0) by {
        lemma_fundamental_div_mod(y, 400);
    }
    assert(y % 100 == 0 ==> y % 4 == 0) by {
        lemma_fundamental_div_mod(y, 100);
    }
}


proof fn lemma_shift_div_mod(n: int, k: int, j: int)
    requires
        k > 0,
    ensures
        (n + k * j) / k == n / k + j,
        (n + k * j) % k == n % k,
{
    lemma_fundamental_div_mod(n, k);
    lemma_mod_bound(n, k);
    let a = n / k;
    let r = n % k;
    assert(n + k * j == (a + j) * k + r) by (nonlinear_arith)
        requires n == k * a + r;
    lemma_fundamental_div_mod_converse(n + k * j, k, a + j, r);
}

/// The calendar repeats every 400 years, which hold 146097 days.
pub proof fn lemma_cycle(y: int, j: int)
    ensures
        is_leap_year(y + 400 * j) == is_leap_year(y),
        days_before_year(y + 400 * j) == days_before_year(y) + 146097 * j,
{
    lemma_shift_div_mod(y, 4, 100 * j);
    lemma_shift_div_mod(y, 100, 4 * j);
    lemma_shift_div_mod(y, 400, j);
    lemma_shift_div_mod(y - 1, 4, 100 * j);
    lemma_shift_div_mod(y - 1, 100, 4 * j);
    lemma_shift_div_mod(y - 1, 400, j);
    assert(y + 400 * j == y + 4 * (100 * j));
    assert(y + 400 * j == y + 100 * (4 * j));
    assert(y - 1 + 400 * j == y - 1 + 4 * (100 * j));
    assert(y - 1 + 400 * j == y - 1 + 100 * (4 * j));
}

proof fn lemma_same_leap_months(a: int, b: int, m: int)
    requires
        is_leap_year(a) == is_leap_year(b),
    ensures
        days_before_month(a, m) == days_before_month(b, m),
        month_len(a, m) == month_len(b, m),
    decreases m,
{
    if m > 1 {
        lemma_same_leap_months(a, b, m - 1);
    }
}

/// The twelve months make up the year.
pub proof fn lemma_months_fill_year(y: int)
    ensures
        days_before_month(y, 13) == year_len(y),
{
    reveal_with_fuel(days_before_month, 13);
}

proof fn lemma_months_increase(y: int, a: int, b: int)
    requires
        1 <= a < b,
    ensures
        days_before_month(y, a) + month_len(y, a) <= days_before_month(y, b),
    decreases b - a,
{
    if b > a + 1 {
        lemma_months_increase(y, a, b - 1);
    }
}

proof fn lemma_years_increase(a: int, b: int)
    requires
        a < b,
    ensures
        days_before_year(a) + year_len(a) <= days_before_year(b),
    decreases b - a,
{
    lemma_year_len(a);
    if b > a + 1 {
        lemma_years_increase(a + 1, b);
        lemma_year_len(a + 1);
    }
}

proof fn lemma_date_within_year(y: int, m: int, d: int)
    requires
        valid_date(y, m, d),
    ensures
        days_before_year(y) <= days_from_civil(y, m, d) < days_before_year(y) + year_len(y),
{
    if m > 1 {
        lemma_months_increase(y, 1, m);
    }
    lemma_months_increase(y, m, 13);
    lemma_months_fill_year(y);
}

/// Distinct valid dates lie on distinct days.
pub proof fn lemma_civil_injective(y1: int, m1: int, d1: int, y2: int, m2: int, d2: int)
    requires
        valid_date(y1, m1, d1),
        valid_date(y2, m2, d2),
        days_from_civil(y1, m1, d1) == days_from_civil(y2, m2, d2),
    ensures
        y1 == y2,
        m1 == m2,
        d1 == d2,
{
    lemma_date_within_year(y1, m1, d1);
    lemma_date_within_year(y2, m2, d2);
    if y1 < y2 {
        lemma_years_increase(y1, y2);
    } else if y2 < y1 {
        lemma_years_increase(y2, y1);
    } else if m1 < m2 {
        lemma_months_increase(y1, m1, m2);
    } else if m2 < m1 {
        lemma_months_increase(y1, m2, m1);
    }
}

/// The calendar date (year, month, day) that lies `z` days after
/// 1970-01-01.
pub open spec fn civil_date(z: int) -> (int, int, int) {
    choose|t: (int, int, int)| valid_date(t.0, t.1, t.2) && days_from_civil(t.0, t.1, t.2) == z
}

proof fn lemma_civil_date_is(z: int, y: int, m: int, d: int)
    requires
        valid_date(y, m, d),
        days_from_civil(y, m, d) == z,
    ensures
        civil_date(z) == (y, m, d),
{
    let t = (y, m, d);
    assert(valid_date(t.0, t.1, t.2) && days_from_civil(t.0, t.1, t.2) == z);
    let c = civil_date(z);
    lemma_civil_injective(c.0, c.1, c.2, y, m, d);
}

fn is_leap(y: u64) -> (b: bool)
    ensures
        b == is_leap_year(y as int),
{
    (y % 4 == 0 && y % 100 != 0) || y % 400 == 0
}

fn days_in_year(y: u64) -> (n: u64)
    ensures
        n == year_len(y as int),
{
    if is_leap(y) { 366 } else { 365 }
}

fn days_in_month(y: u64, m: u32) -> (n: u64)
    ensures
        n == month_len(y as int, m as int),
{
    if m == 2 {
        if is_leap(y) { 29 } else { 28 }
    } else if m == 4 || m == 6 || m == 9 || m == 11 {
        30
    } else {
        31
    }
}

/// Shift that moves every `i64` day count onto a non-negative number of
/// whole 400-year cycles.
const CYCLE_SHIFT: u128 = 70368744177664;

/// The date `z` days after 1970-01-01, with the year in full.
fn civil_parts(z: i64) -> (r: (i64, u32, u32))
    ensures
        valid_date(r.0 as int, r.1 as int, r.2 as int),
        days_from_civil(r.0 as int, r.1 as int, r.2 as int) == z,
{
    let w: u128 = (z as i128 + (CYCLE_SHIFT * 146097) as i128) as u128;
    let q: u128 = w / 146097;
    let rem: u64 = (w % 146097) as u64;
    proof {
        lemma_fundamental_div_mod(w as int, 146097);
        assert(q <= 0x2_0000_0000_0000);
        lemma_cycle(1970, 1);
    }
    // Whole years of the cycle that starts in 1970.
    let mut yoff: u64 = 0;
    let mut left: u64 = rem;
    while left >= days_in_year(1970 + yoff)
        invariant
            yoff < 400,
            rem < 146097,
            left <= rem,
            days_before_year(1970 + yoff) - days_before_year(1970) + left == rem,
            days_before_year(2370) - days_before_year(1970) == 146097,
        decreases left,
    {
        proof {
            lemma_year_len(1970 + yoff);
        }
        left = left - days_in_year(1970 + yoff);
        yoff = yoff + 1;
        proof {
            if yoff == 400 {
                assert(false);
            }
        }
    }
    let yb: u64 = 1970 + yoff;
    proof {
        lemma_year_len(yb as int);
    }
    // Whole months of that year.
    let mut m: u32 = 1;
    let mut dleft: u64 = left;
    while dleft >= days_in_month(yb, m)
        invariant
            1 <= m <= 12,
            yb == 1970 + yoff,
            left < year_len(yb as int),
            days_before_month(yb as int, m as int) + dleft == left,
        decreases dleft,
    {
        proof {
            if m == 12 {
                lemma_months_fill_year(yb as int);
                assert(false);
            }
        }
        dleft = dleft - days_in_month(yb, m);
        m = m + 1;
    }
    let cycles: i128 = q as i128 - CYCLE_SHIFT as i128;
    let year: i64 = (yb as i128 + 400 * cycles) as i64;
    let day: u32 = (dleft + 1) as u32;
    proof {
        lemma_cycle(yb as int, cycles as int);
        lemma_same_leap_months(year as int, yb as int, m as int);
        assert(z == 146097 * cycles + rem) by (nonlinear_arith)
            requires
                w == 146097 * q + rem,
                w == z + CYCLE_SHIFT * 146097,
                cycles == q - CYCLE_SHIFT;
    }
    (year, m, day)
}

/// The calendar date `z` days after 1970-01-01 as (year, month, day), the
/// year narrowed to `i32`.
pub fn civil_from_days(z: i64) -> (r: (i32, u32, u32))
    ensures
        r.0 == civil_date(z as int).0 as i32,
        r.1 == civil_date(z as int).1,
        r.2 == civil_date(z as int).2,
{
    let (y, m, d) = civil_parts(z);
    proof {
        lemma_civil_date_is(z as int, y as int, m as int, d as int);
    }
    (y as i32, m, d)
}

/// `n` in decimal, left-padded with `'0'` to at least `width` characters.
pub open spec fn zero_pad(n: nat, width: nat) -> Seq<char> {
    let digits = decimal(n);
    if digits.len() >= width {
        digits
    } else {
        Seq::new((width - digits.len()) as nat, |i: int| '0') + digits
    }
}

/// `v` in decimal, zero-padded to at least `width` characters, the sign
/// counted in the width (as `{:0width$}` renders a signed integer).
pub open spec fn zero_pad_signed(v: int, width: nat) -> Seq<char> {
    if v < 0 {
        seq!['-'] + zero_pad((-v) as nat, (width - 1) as nat)
    } else {
        zero_pad(v as nat, width)
    }
}

/// `YYYY-MM-DDTHH:MM:SSZ` for `secs` seconds after the Unix epoch, in UTC;
/// the year is the calendar year narrowed to `i32`.
pub open spec fn iso8601_spec(secs: nat) -> Seq<char> {
    let date = civil_date((secs / 86400) as int);
    let t = secs % 86400;
    zero_pad_signed((date.0 as i32) as int, 4) + seq!['-'] + zero_pad(date.1 as nat, 2) + seq!['-']
        + zero_pad(date.2 as nat, 2) + seq!['T'] + zero_pad(t / 3600, 2) + seq![':']
        + zero_pad((t % 3600) / 60, 2) + seq![':'] + zero_pad(t % 60, 2) + seq!['Z']
}

pub(crate) fn push_zero_padded(out: &mut String, n: u64, width: usize)
    ensures
        final(out)@ == old(out)@ + zero_pad(n as nat, width as nat),
{
    let ghost start = out@;
    let digits = u64_to_decimal(n);
    let len = digits.as_str().unicode_len();
    let mut k: usize = len;
    while k < width
        invariant
            len == decimal(n as nat).len(),
            len <= k,
            k == len || k <= width,
            out@ == start + Seq::new((k - len) as nat, |i: int| '0'),
        decreases width - k,
    {
        push_char(out, '0');
        k = k + 1;
        assert(out@ =~= start + Seq::new((k - len) as nat, |i: int| '0'));
    }
    out.append(digits.as_str());
    proof {
        if len >= width {
            assert(Seq::new((k - len) as nat, |i: int| '0') =~= Seq::<char>::empty());
            assert(out@ =~= start + decimal(n as nat));
        } else {
            assert(out@ =~= start + (Seq::new((width - len) as nat, |i: int| '0') + decimal(n as nat)));
        }
    }
}

fn push_zero_padded_signed(out: &mut String, v: i32, width: usize)
    requires
        width >= 1,
    ensures
        final(out)@ == old(out)@ + zero_pad_signed(v as int, width as nat),
{
    let ghost start = out@;
    if v < 0 {
        push_char(out, '-');
        let magnitude: u64 = (0i64 - v as i64) as u64;
        push_zero_padded(out, magnitude, width - 1);
        assert(out@ =~= start + (seq!['-'] + zero_pad((-v) as nat, (width - 1) as nat)));
    } else {
        push_zero_padded(out, v as u64, width);
    }
}

fn push_str_char(out: &mut String, c: char)
    ensures
        final(out)@ == old(out)@ + seq![c],
{
    push_char(out, c);
    assert(out@ =~= old(out)@ + seq![c]);
}

/// `epoch_secs` seconds after the Unix epoch as `YYYY-MM-DDTHH:MM:SSZ` in UTC.
pub fn format_iso8601(epoch_secs: u64) -> (s: String)
    ensures
        s@ == iso8601_spec(epoch_secs as nat),
{
    let days: u64 = epoch_secs / 86400;
    let rem: u64 = epoch_secs % 86400;
    let h: u64 = rem / 3600;
    let m: u64 = (rem % 3600) / 60;
    let sec: u64 = rem % 60;
    let (y, mo, d) = civil_from_days(days as i64);
    let mut out = String::new();
    push_zero_padded_signed(&mut out, y, 4);
    push_str_char(&mut out, '-');
    push_zero_padded(&mut out, mo as u64, 2);
    push_str_char(&mut out, '-');
    push_zero_padded(&mut out, d as u64, 2);
    push_str_char(&mut out, 'T');
    push_zero_padded(&mut out, h, 2);
    push_str_char(&mut out, ':');
    push_zero_padded(&mut out, m, 2);
    push_str_char(&mut out, ':');
    push_zero_padded(&mut out, sec, 2);
    push_str_char(&mut out, 'Z');
    proof {
        let date = civil_date((epoch_secs / 86400) as int);
        assert(mo as nat == date.1 as nat);
        assert(out@ =~= iso8601_spec(epoch_secs as nat));
    }
    out
}

} // verus!
