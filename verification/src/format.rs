//! Sizes and timestamps as text.

use vstd::prelude::*;
use vstd::arithmetic::div_mod::lemma_fundamental_div_mod;
use vstd::arithmetic::div_mod::lemma_div_is_ordered_by_denominator;
use vstd::arithmetic::div_mod::lemma_fundamental_div_mod_converse;
use crate::text::decimal;
use crate::text::digit_char;
use crate::text::zero_pad;
use crate::text::decimal_string;
use crate::text::push_decimal;
use crate::text::push_zero_padded;

verus! {

/// The Gregorian leap-year rule: every fourth year, but of the centuries
/// only every fourth.
pub open spec fn is_leap(year: int) -> bool {
    (year % 4 == 0 && year % 100 != 0) || year % 400 == 0
}

/// The number of days in a year.
pub open spec fn year_len(year: int) -> int {
    if is_leap(year) {
        366
    } else {
        365
    }
}

/// The number of days in month `month` (1 to 12) of `year`.
pub open spec fn month_len(year: int, month: int) -> int {
    if month == 2 {
        if is_leap(year) {
            29
        } else {
            28
        }
    } else if month == 4 || month == 6 || month == 9 || month == 11 {
        30
    } else {
        31
    }
}

/// The number of days of `year` that lie before its month `month`.
pub open spec fn days_before_month(year: int, month: int) -> int
    decreases month,
{
    if month <= 1 {
        0
    } else {
        days_before_month(year, month - 1) + month_len(year, month - 1)
    }
}

/// The number of leap years among the years 1 to `year - 1`.
pub open spec fn leap_years_before(year: int) -> int {
    (year - 1) / 4 - (year - 1) / 100 + (year - 1) / 400
}

/// The number of days from 1 January 1970 to 1 January of `year`.
pub open spec fn days_before_year(year: int) -> int {
    365 * (year - 1970) + leap_years_before(year) - leap_years_before(1970)
}

/// A date of the calendar from 1970 on.
pub open spec fn valid_date(year: int, month: int, day: int) -> bool {
    &&& year >= 1970
    &&& 1 <= month <= 12
    &&& 1 <= day <= month_len(year, month)
}

/// The number of days from 1 January 1970 to the given date.
pub open spec fn day_number(year: int, month: int, day: int) -> int {
    days_before_year(year) + days_before_month(year, month) + (day - 1)
}

/// The date that lies `days` days after 1 January 1970, as year, month and
/// day of the month.
pub open spec fn civil(days: nat) -> (int, int, int) {
    choose|date: (int, int, int)|
        valid_date(date.0, date.1, date.2) && day_number(date.0, date.1, date.2) == days
}

/// One year more is a year's length more.
pub proof fn lemma_next_year(year: int)
    ensures
        days_before_year(year + 1) == days_before_year(year) + year_len(year),
{
}

/// Later years start later.
pub proof fn lemma_years_ascend(a: int, b: int)
    requires
        a <= b,
    ensures
        days_before_year(a) <= days_before_year(b),
    decreases b - a,
{
    if a < b {
        lemma_years_ascend(a, b - 1);
        lemma_next_year(b - 1);
    }
}

/// A date lies within its year.
pub proof fn lemma_date_in_year(year: int, month: int, day: int)
    requires
        valid_date(year, month, day),
    ensures
        days_before_year(year) <= day_number(year, month, day) < days_before_year(year + 1),
{
    reveal_with_fuel(days_before_month, 13);
    lemma_next_year(year);
}

/// Two dates with the same day number are the same date.
pub proof fn lemma_date_unique(y1: int, m1: int, d1: int, y2: int, m2: int, d2: int)
    requires
        valid_date(y1, m1, d1),
        valid_date(y2, m2, d2),
        day_number(y1, m1, d1) == day_number(y2, m2, d2),
    ensures
        y1 == y2,
        m1 == m2,
        d1 == d2,
{
    lemma_date_in_year(y1, m1, d1);
    lemma_date_in_year(y2, m2, d2);
    if y1 < y2 {
        lemma_years_ascend(y1 + 1, y2);
    }
    if y2 < y1 {
        lemma_years_ascend(y2 + 1, y1);
    }
    reveal_with_fuel(days_before_month, 13);
}

/// Adding a multiple of the divisor adds to the quotient and leaves the
/// remainder.
proof fn lemma_div_shift(a: int, d: int, k: int)
    requires
        d > 0,
    ensures
        (a + d * k) / d == a / d + k,
        (a + d * k) % d == a % d,
{
    lemma_fundamental_div_mod(a, d);
    assert(a + d * k == (a / d + k) * d + a % d) by (nonlinear_arith)
        requires
            a == d * (a / d) + a % d,
    ;
    lemma_fundamental_div_mod_converse(a + d * k, d, a / d + k, a % d);
}

/// The calendar repeats every 400 years, which are 146097 days.
pub proof fn lemma_calendar_period(year: int, cycles: int)
    ensures
        is_leap(year + 400 * cycles) == is_leap(year),
        forall|month: int| month_len(year + 400 * cycles, month) == month_len(year, month),
        days_before_year(year + 400 * cycles) == days_before_year(year) + 146097 * cycles,
{
    lemma_div_shift(year, 4, 100 * cycles);
    lemma_div_shift(year, 100, 4 * cycles);
    lemma_div_shift(year, 400, cycles);
    lemma_div_shift(year - 1, 4, 100 * cycles);
    lemma_div_shift(year - 1, 100, 4 * cycles);
    lemma_div_shift(year - 1, 400, cycles);
}

/// Two years that are both leap years, or both not, have the same months.
proof fn lemma_same_months(a: int, b: int, month: int)
    requires
        is_leap(a) == is_leap(b),
    ensures
        days_before_month(a, month) == days_before_month(b, month),
    decreases month,
{
    if month > 1 {
        lemma_same_months(a, b, month - 1);
    }
}

/// What divides a number divides its negative.
proof fn lemma_negative_divisible(x: int, d: int)
    requires
        d > 0,
        x % d == 0,
    ensures
        (-x) % d == 0,
{
    lemma_fundamental_div_mod(x, d);
    let q = x / d;
    assert(-x == (-q) * d + 0) by (nonlinear_arith)
        requires
            x == d * q,
    ;
    lemma_fundamental_div_mod_converse(-x, d, -q, 0);
}

/// A number and its absolute value are divisible by the same numbers.
proof fn lemma_divisible_abs(x: int, y: int, d: int)
    requires
        d > 0,
        y == x || y == -x,
    ensures
        (x % d == 0) <==> (y % d == 0),
{
    if x % d == 0 {
        lemma_negative_divisible(x, d);
    }
    if y % d == 0 {
        lemma_negative_divisible(y, d);
    }
}

/// Whether `year` is a leap year.
pub fn is_leap_year(year: i32) -> (leap: bool)
    ensures
        leap == is_leap(year as int),
{
    let wide: i64 = year as i64;
    let y: i64 = if wide < 0 {
        -wide
    } else {
        wide
    };
    proof {
        lemma_divisible_abs(year as int, y as int, 4);
        lemma_divisible_abs(year as int, y as int, 100);
        lemma_divisible_abs(year as int, y as int, 400);
    }
    (y % 4 == 0 && y % 100 != 0) || (y % 400 == 0)
}

/// The number of days in a month of a leap year or of another year.
fn month_length(leap: bool, month: u8) -> (len: u64)
    requires
        1 <= month <= 12,
    ensures
        forall|year: int| is_leap(year) == leap ==> len == #[trigger] month_len(year, month as int),
        28 <= len <= 31,
{
    if month == 2 {
        if leap {
            29
        } else {
            28
        }
    } else if month == 4 || month == 6 || month == 9 || month == 11 {
        30
    } else {
        31
    }
}

/// The date `days` days after 1 January 1970.
pub fn civil_from_days(days: u64) -> (date: (u64, u8, u8))
    ensures
        (date.0 as int, date.1 as int, date.2 as int) == civil(days as nat),
        valid_date(date.0 as int, date.1 as int, date.2 as int),
        day_number(date.0 as int, date.1 as int, date.2 as int) == days,
{
    let cycles: u64 = days / 146097;
    let in_cycle: u64 = days % 146097;
    let mut rest: u64 = in_cycle;
    let mut base: i32 = 1970;
    loop
        invariant
            1970 <= base,
            base - 1970 + rest <= in_cycle,
            in_cycle < 146097,
            days_before_year(base as int) + rest == in_cycle,
        ensures
            rest < year_len(base as int),
        decreases rest,
    {
        let len: u64 = if is_leap_year(base) {
            366
        } else {
            365
        };
        if rest < len {
            break ;
        }
        proof {
            lemma_next_year(base as int);
        }
        rest -= len;
        base += 1;
    }
    let leap = is_leap_year(base);
    let ghost day_of_year = rest;
    let mut month: u8 = 1;
    loop
        invariant
            1 <= month <= 12,
            leap == is_leap(base as int),
            day_of_year < year_len(base as int),
            days_before_month(base as int, month as int) + rest == day_of_year,
        ensures
            rest < month_len(base as int, month as int),
        decreases 12 - month,
    {
        let len = month_length(leap, month);
        assert(len == month_len(base as int, month as int));
        if rest < len {
            break ;
        }
        assert(month < 12) by {
            reveal_with_fuel(days_before_month, 14);
        }
        rest -= len;
        month += 1;
    }
    let year: u64 = base as u64 + 400 * cycles;
    let day: u8 = (rest + 1) as u8;
    proof {
        lemma_calendar_period(base as int, cycles as int);
        lemma_same_months(base as int, base + 400 * cycles, month as int);
        lemma_fundamental_div_mod(days as int, 146097);
        let found = (year as int, month as int, day as int);
        assert(valid_date(found.0, found.1, found.2));
        assert(day_number(found.0, found.1, found.2) == days);
        let chosen = civil(days as nat);
        lemma_date_unique(chosen.0, chosen.1, chosen.2, found.0, found.1, found.2);
    }
    (year, month, day)
}

/// The text of a point in time `secs` seconds after the start of 1970:
/// year, month, day, hour and minute (UTC), as `YYYY-MM-DD HH:MM`.
pub open spec fn time_text(secs: nat) -> Seq<char> {
    let date = civil(secs / 86400);
    let year = zero_pad(decimal(date.0 as nat), 4);
    let month = zero_pad(decimal(date.1 as nat), 2);
    let day = zero_pad(decimal(date.2 as nat), 2);
    let hour = zero_pad(decimal(secs % 86400 / 3600), 2);
    let minute = zero_pad(decimal(secs % 86400 % 3600 / 60), 2);
    year + seq!['-'] + month + seq!['-'] + day + seq![' '] + hour + seq![':'] + minute
}

/// Formats a point in time, given in seconds since the start of 1970.
pub fn format_time(secs: u64) -> (text: String)
    ensures
        text@ == time_text(secs as nat),
{
    let days = secs / 86_400;
    let rem_secs = secs % 86_400;
    let hour = rem_secs / 3_600;
    let minute = rem_secs % 3_600 / 60;
    let date = civil_from_days(days);
    let mut text = String::new();
    push_zero_padded(&mut text, date.0, 4);
    text.push('-');
    push_zero_padded(&mut text, date.1 as u64, 2);
    text.push('-');
    push_zero_padded(&mut text, date.2 as u64, 2);
    text.push(' ');
    push_zero_padded(&mut text, hour, 2);
    text.push(':');
    push_zero_padded(&mut text, minute, 2);
    assert(text@ =~= time_text(secs as nat));
    text
}

/// 2^53: below it every whole number is a double-precision number.
pub const DOUBLE_EXACT_LIMIT: u64 = 0x20_0000_0000_0000;

/// The distance between neighbouring double-precision numbers at `n`: 1
/// below 2^53, and twice as much for each further bit.
pub open spec fn double_spacing(n: nat) -> nat
    decreases n,
{
    if n < DOUBLE_EXACT_LIMIT {
        1
    } else {
        2 * double_spacing(n / 2)
    }
}

/// `a / d` rounded to the nearest whole number, a tie to the even one.
pub open spec fn round_half_even(a: nat, d: nat) -> nat {
    let q = a / d;
    let r = a % d;
    if 2 * r > d || (2 * r == d && q % 2 == 1) {
        q + 1
    } else {
        q
    }
}

/// The double-precision number nearest to `n`, a tie going to the one with
/// the even mantissa. Sizes are scaled in double precision, so this is the
/// number that the scaling starts from.
pub open spec fn nearest_double(n: nat) -> nat {
    round_half_even(n, double_spacing(n)) * double_spacing(n)
}

/// How many times `v` can be divided by 1024 before it is below 1024.
pub open spec fn unit_index(v: nat) -> nat
    decreases v,
{
    if v < 1024 {
        0
    } else {
        1 + unit_index(v / 1024)
    }
}

/// 1024 to the power `k`.
pub open spec fn pow1024(k: nat) -> nat
    decreases k,
{
    if k == 0 {
        1
    } else {
        1024 * pow1024((k - 1) as nat)
    }
}

/// The letter of the unit with index `idx`.
pub open spec fn unit_suffix(idx: nat) -> char {
    if idx == 0 {
        'B'
    } else if idx == 1 {
        'K'
    } else if idx == 2 {
        'M'
    } else if idx == 3 {
        'G'
    } else if idx == 4 {
        'T'
    } else if idx == 5 {
        'P'
    } else if idx == 6 {
        'E'
    } else if idx == 7 {
        'Z'
    } else {
        'Y'
    }
}

/// A size for the human reader: below 1024 the number of bytes and a `B`;
/// from there on the size divided by 1024 until it is below 1024, with one
/// decimal place (rounded to the nearest, a tie to the even digit) and the
/// letter of the unit reached.
pub open spec fn human_size(size: nat) -> Seq<char> {
    let v = nearest_double(size);
    let idx = unit_index(v);
    if idx == 0 {
        decimal(size).push('B')
    } else {
        let tenths = round_half_even(v * 10, pow1024(idx));
        decimal(tenths / 10).push('.').push(digit_char(tenths % 10)).push(unit_suffix(idx))
    }
}

/// The text of a size: for the human reader, or the plain number of bytes.
pub open spec fn size_text(size: nat, human_readable: bool) -> Seq<char> {
    if human_readable {
        human_size(size)
    } else {
        decimal(size)
    }
}

/// Below 2^53 a size is scaled as it is.
pub proof fn lemma_exact_below_limit(size: nat)
    requires
        size < DOUBLE_EXACT_LIMIT,
    ensures
        nearest_double(size) == size,
{
    let unit = double_spacing(size);
    assert(unit == 1);
    assert(size / unit == size && size % unit == 0);
    assert(round_half_even(size, unit) == size);
}

/// A size below 1024 bytes is shown as the number of bytes and a `B`.
pub proof fn lemma_small_size(size: nat)
    requires
        size < 1024,
    ensures
        human_size(size) == decimal(size).push('B'),
{
    lemma_exact_below_limit(size);
}

/// The spacings that occur below 2^64: the powers of two up to 2048.
spec fn is_spacing(unit: int) -> bool {
    unit == 1 || unit == 2 || unit == 4 || unit == 8 || unit == 16 || unit == 32 || unit == 64
        || unit == 128 || unit == 256 || unit == 512 || unit == 1024 || unit == 2048
}

/// The spacing of double-precision numbers at `size`.
fn spacing_of(size: u64) -> (unit: u64)
    ensures
        unit == double_spacing(size as nat),
        1 <= unit <= 2048,
{
    let mut unit: u64 = 1;
    let mut t: u64 = size;
    while t >= DOUBLE_EXACT_LIMIT
        invariant
            is_spacing(unit as int),
            t * unit <= u64::MAX,
            double_spacing(size as nat) == unit * double_spacing(t as nat),
        decreases t,
    {
        assert(unit <= 2047) by (nonlinear_arith)
            requires
                t * unit <= u64::MAX,
                t >= 0x20_0000_0000_0000,
                unit >= 1,
        ;
        assert((t / 2) * (2 * unit) <= t * unit) by (nonlinear_arith)
            requires
                t >= 0,
                unit >= 1,
        ;
        assert(unit * (2 * double_spacing((t / 2) as nat)) == (2 * unit) * double_spacing(
            (t / 2) as nat,
        )) by (nonlinear_arith);
        t = t / 2;
        unit = 2 * unit;
    }
    assert(unit * 1 == unit) by (nonlinear_arith);
    unit
}

/// `a / d`, rounded to the nearest whole number, a tie to the even one.
fn round_div(a: u128, d: u128) -> (q: u128)
    requires
        d > 0,
        a < 0x1_0000_0000_0000_0000_0000,
    ensures
        q == round_half_even(a as nat, d as nat),
        q <= a / d + 1,
{
    let q = a / d;
    let r = a % d;
    if r > d - r || (r == d - r && q % 2 == 1) {
        q + 1
    } else {
        q
    }
}

/// The letter of the unit with index `idx`.
fn suffix_of(idx: usize) -> (c: char)
    ensures
        c == unit_suffix(idx as nat),
{
    if idx == 0 {
        'B'
    } else if idx == 1 {
        'K'
    } else if idx == 2 {
        'M'
    } else if idx == 3 {
        'G'
    } else if idx == 4 {
        'T'
    } else if idx == 5 {
        'P'
    } else if idx == 6 {
        'E'
    } else if idx == 7 {
        'Z'
    } else {
        'Y'
    }
}

/// Formats a size in bytes: as the plain number, or for the human reader in
/// units of 1024 with one decimal place. A size of 2^64 bytes would be 16E,
/// so the units Z and Y are never reached.
pub fn format_size(size: u64, human_readable: bool) -> (text: String)
    ensures
        text@ == size_text(size as nat, human_readable),
{
    if !human_readable {
        return decimal_string(size);
    }
    let unit = spacing_of(size);
    let mantissa = round_div(size as u128, unit as u128);
    proof {
        lemma_fundamental_div_mod(size as int, unit as int);
    }
    assert(mantissa * unit <= size + unit) by (nonlinear_arith)
        requires
            mantissa <= size as int / unit as int + 1,
            size == unit * (size as int / unit as int) + size as int % unit as int,
            size as int % unit as int >= 0,
            unit >= 1,
    ;
    let v: u128 = mantissa * (unit as u128);
    assert(v == nearest_double(size as nat));
    let mut scaled: u128 = v;
    let mut idx: usize = 0;
    let mut pow: u128 = 1;
    assert(scaled * pow == v) by (nonlinear_arith)
        requires
            scaled == v,
            pow == 1,
    ;
    while scaled >= 1024
        invariant
            unit_index(v as nat) == idx + unit_index(scaled as nat),
            pow == pow1024(idx as nat),
            pow >= 1,
            idx <= 6,
            scaled * pow <= v,
            v <= 0x1_0000_0000_0000_0800,
        decreases scaled,
    {
        assert(pow <= 0x40_0000_0000_0002 && idx < 6) by {
            assert(pow <= 0x40_0000_0000_0002) by (nonlinear_arith)
                requires
                    scaled * pow <= v,
                    scaled >= 1024,
                    pow >= 1,
                    v <= 0x1_0000_0000_0000_0800,
            ;
            reveal_with_fuel(pow1024, 8);
        }
        assert((scaled / 1024) * (pow * 1024) <= scaled * pow) by (nonlinear_arith)
            requires
                scaled >= 0,
                pow >= 1,
        ;
        scaled = scaled / 1024;
        idx += 1;
        pow = pow * 1024;
    }
    let mut text = String::new();
    if idx == 0 {
        push_decimal(&mut text, size);
        text.push('B');
        assert(text@ =~= human_size(size as nat));
    } else {
        let tenths = round_div(v * 10, pow);
        proof {
            assert(pow >= 1024) by {
                reveal_with_fuel(pow1024, 2);
            }
            lemma_div_is_ordered_by_denominator((v * 10) as int, 1024, pow as int);
        }
        let whole = (tenths / 10) as u64;
        let digit = (tenths % 10) as u8;
        push_decimal(&mut text, whole);
        text.push('.');
        text.push((0x30u8 + digit) as char);
        text.push(suffix_of(idx));
        assert(text@ =~= human_size(size as nat));
    }
    text
}

} // verus!
