//! Wall-clock time for the envelope, and its RFC 3339 form.
//!
//! A date is related to a day count by the rules of the Gregorian calendar, extended to every
//! year: leap years, the lengths of the months, and where each year starts.

use crate::decimal;
use crate::decimal::padded_text;
use crate::order;
use vstd::prelude::*;
use vstd::string::*;

verus! {

// ---- the calendar --------------------------------------------------------------

/// Whether the year has a 29 February.
pub open spec fn is_leap(y: int) -> bool {
    y % 4 == 0 && (y % 100 != 0 || y % 400 == 0)
}

/// The number of leap years from year 0 up to, not including, year `y`.
pub open spec fn leaps_before(y: int) -> int {
    (y + 3) / 4 - (y + 99) / 100 + (y + 399) / 400
}

/// The day on which year `y` starts, counted from 1970-01-01.
pub open spec fn year_start(y: int) -> int {
    365 * y + leaps_before(y) - 719_528
}

/// The number of days in month `m` of year `y`.
pub open spec fn month_len(y: int, m: int) -> int {
    if m == 2 {
        if is_leap(y) {
            29
        } else {
            28
        }
    } else if m == 4 || m == 6 || m == 9 || m == 11 {
        30
    } else {
        31
    }
}

/// The number of days of year `y` before month `m`.
pub open spec fn month_start(y: int, m: int) -> int
    decreases m,
{
    if m <= 1 {
        0
    } else {
        month_start(y, m - 1) + month_len(y, m - 1)
    }
}

/// Whether year, month and day name a date.
pub open spec fn is_date(y: int, m: int, d: int) -> bool {
    1 <= m <= 12 && 1 <= d <= month_len(y, m)
}

/// The number of days from 1970-01-01 to the date.
pub open spec fn day_number(y: int, m: int, d: int) -> int {
    year_start(y) + month_start(y, m) + d - 1
}

/// Dividing by `k` after adding `k - 1` rounds up, after adding `k` counts one more.
proof fn lemma_round_up(y: int, k: int)
    requires
        k > 1,
    ensures
        (y + k - 1) / k == y / k + if y % k == 0 {
            0int
        } else {
            1int
        },
        (y + k) / k == y / k + 1,
{
    let q = y / k;
    let r = y % k;
    vstd::arithmetic::div_mod::lemma_fundamental_div_mod(y, k);
    vstd::arithmetic::mul::lemma_mul_is_commutative(k, q);
    assert((q + 1) * k == q * k + k) by (nonlinear_arith);
    vstd::arithmetic::div_mod::lemma_fundamental_div_mod_converse(y + k, k, q + 1, r);
    if r == 0 {
        vstd::arithmetic::div_mod::lemma_fundamental_div_mod_converse(y + k - 1, k, q, k - 1);
    } else {
        vstd::arithmetic::div_mod::lemma_fundamental_div_mod_converse(y + k - 1, k, q + 1, r - 1);
    }
}

/// A multiple of `a * b` is a multiple of `a`.
proof fn lemma_multiple(y: int, a: int, b: int)
    requires
        a > 0,
        b > 0,
    ensures
        y % (a * b) == 0 ==> y % a == 0,
{
    if y % (a * b) == 0 {
        let q = y / (a * b);
        assert(a * b > 0) by (nonlinear_arith)
            requires
                a > 0,
                b > 0,
        ;
        vstd::arithmetic::div_mod::lemma_fundamental_div_mod(y, a * b);
        assert((a * b) * q == (b * q) * a) by (nonlinear_arith);
        vstd::arithmetic::div_mod::lemma_fundamental_div_mod_converse(y, a, b * q, 0);
    }
}

/// Counting leap years one year further adds one exactly for a leap year.
proof fn lemma_leaps_step(y: int)
    ensures
        leaps_before(y) == y / 4 - y / 100 + y / 400 + if is_leap(y) {
            0int
        } else {
            1int
        },
        leaps_before(y + 1) == y / 4 - y / 100 + y / 400 + 1,
{
    lemma_round_up(y, 4);
    lemma_round_up(y, 100);
    lemma_round_up(y, 400);
    lemma_multiple(y, 100, 4);
    lemma_multiple(y, 4, 25);
    assert(leaps_before(y) == y / 4 - y / 100 + y / 400 + if is_leap(y) {
        0int
    } else {
        1int
    });
}

/// The lengths of the months add up.
proof fn lemma_month_starts(y: int)
    ensures
        month_start(y, 3) == 31 + month_len(y, 2),
        month_start(y, 13) == 337 + month_len(y, 2),
{
    reveal_with_fuel(month_start, 14);
}

/// Day counts start at 1970-01-01, and a year is as long as its months are together: 366 days in
/// a leap year, 365 in any other.
pub proof fn law_years_follow_each_other(y: int)
    ensures
        day_number(1970, 1, 1) == 0,
        year_start(y + 1) - year_start(y) == month_start(y, 13),
        month_start(y, 13) == if is_leap(y) {
            366int
        } else {
            365int
        },
{
    lemma_leaps_step(y);
    lemma_month_starts(y);
}

/// Two dates that are different have different day counts, the later date the larger one.
pub proof fn law_days_order_dates(y: int, m: int, d: int, y2: int, m2: int, d2: int)
    requires
        is_date(y, m, d),
        is_date(y2, m2, d2),
    ensures
        day_number(y, m, d) == day_number(y2, m2, d2) <==> (y == y2 && m == m2 && d == d2),
        day_number(y, m, d) < day_number(y2, m2, d2) <==> (y < y2 || (y == y2 && (m < m2 || (m == m2
            && d < d2)))),
{
    lemma_within_year(y, m, d);
    lemma_within_year(y2, m2, d2);
    if y < y2 {
        lemma_years_increase(y + 1, y2);
        law_years_follow_each_other(y);
    } else if y2 < y {
        lemma_years_increase(y2 + 1, y);
        law_years_follow_each_other(y2);
    } else if m < m2 {
        lemma_months_increase(y, m + 1, m2);
    } else if m2 < m {
        lemma_months_increase(y, m2 + 1, m);
    }
}

/// The date after a date.
pub open spec fn next_date(date: (int, int, int)) -> (int, int, int) {
    let (y, m, d) = date;
    if d < month_len(y, m) {
        (y, m, d + 1)
    } else if m < 12 {
        (y, m + 1, 1)
    } else {
        (y + 1, 1, 1)
    }
}

/// The day after a date is the next day of its month, or the first of the next month.
pub proof fn law_days_follow_each_other(y: int, m: int, d: int)
    requires
        is_date(y, m, d),
    ensures
        ({
            let n = next_date((y, m, d));
            is_date(n.0, n.1, n.2) && day_number(n.0, n.1, n.2) == day_number(y, m, d) + 1
        }),
{
    if d == month_len(y, m) {
        if m == 12 {
            law_years_follow_each_other(y);
            assert(month_start(y, 13) == month_start(y, 12) + month_len(y, 12));
            assert(month_start(y + 1, 1) == 0);
        } else {
            assert(month_start(y, m + 1) == month_start(y, m) + month_len(y, m));
        }
    }
}

proof fn lemma_within_year(y: int, m: int, d: int)
    requires
        is_date(y, m, d),
    ensures
        year_start(y) <= day_number(y, m, d) < year_start(y + 1),
{
    law_years_follow_each_other(y);
    lemma_months_increase(y, 1, m);
    lemma_months_increase(y, m + 1, 13);
}

proof fn lemma_months_increase(y: int, a: int, b: int)
    requires
        1 <= a <= b,
    ensures
        month_start(y, a) <= month_start(y, b),
    decreases b - a,
{
    if a < b {
        lemma_months_increase(y, a, b - 1);
    }
}

proof fn lemma_years_increase(a: int, b: int)
    requires
        a <= b,
    ensures
        year_start(a) <= year_start(b),
    decreases b - a,
{
    if a < b {
        lemma_years_increase(a, b - 1);
        law_years_follow_each_other(b - 1);
    }
}

// ---- days to dates -------------------------------------------------------------

/// The first day of March of year `y`, counted from 1970-01-01.
spec fn march(y: int) -> int {
    365 * y + y / 4 - y / 100 + y / 400 - 719_468
}

proof fn lemma_march(y: int)
    ensures
        march(y) == year_start(y) + month_start(y, 3),
        march(y) + 306 == year_start(y + 1),
        march(y + 1) - march(y) == if is_leap(y + 1) {
            366int
        } else {
            365int
        },
{
    lemma_leaps_step(y);
    lemma_leaps_step(y + 1);
    lemma_month_starts(y);
}

/// The span of 400 years that holds the day, counted from the March of year 0, and the day's
/// position in it.
fn era_of(days: i64) -> (r: (i64, i64))
    ensures
        days + 719_468 == 146_097 * r.0 + r.1,
        0 <= r.1 < 146_097,
        -70_000_000_000_000 <= r.0 <= 70_000_000_000_000,
{
    // 1970-01-01 is day 135,080 of the fifth span.
    let span: i64 = floor_div(days, 146_097);
    let day: i64 = floor_rem(days, 146_097) + 135_080;
    proof {
        vstd::arithmetic::div_mod::lemma_fundamental_div_mod(days as int, 146_097);
    }
    assert(days == 146_097 * span + day - 135_080);
    if day >= 146_097 {
        (span + 5, day - 146_097)
    } else {
        (span + 4, day)
    }
}

/// The year that begins in March and holds the day, and the day's position in it.
#[verifier::spinoff_prover]
fn march_year(days: i64) -> (r: (i64, i64))
    ensures
        r.1 == days - march(r.0 as int),
        0 <= r.1 <= 365,
        r.1 == 365 ==> is_leap(r.0 + 1),
        -30_000_000_000_000_000 <= r.0 <= 30_000_000_000_000_000,
{
    let (era, doe) = era_of(days);
    let c0: i64 = doe / 36_524;
    let c: i64 = if c0 > 3 {
        3
    } else {
        c0
    };
    let of_century: i64 = doe - c * 36_524;
    let q: i64 = of_century / 1_461;
    let of_cycle: i64 = of_century - q * 1_461;
    let y0: i64 = of_cycle / 365;
    let y: i64 = if y0 > 3 {
        3
    } else {
        y0
    };
    let doy: i64 = of_cycle - y * 365;
    let yoe: i64 = 100 * c + 4 * q + y;
    let year: i64 = 400 * era + yoe;
    proof {
        assert(0 <= doe < 146_097);
        assert(0 <= c <= 3);
        assert(0 <= of_century <= 36_524);
        assert(c < 3 ==> of_century < 36_524);
        assert(0 <= q <= 24);
        assert(0 <= of_cycle < 1_461);
        assert(q == 24 && c < 3 ==> of_cycle < 1_460);
        assert(0 <= y <= 3);
        assert(0 <= doy <= 365);
        assert(doy == 365 ==> y == 3);
        assert(yoe / 4 == 25 * c + q);
        assert(yoe / 100 == c);
        assert(0 <= yoe < 400);
        assert((year as int) / 4 == 100 * era + 25 * c + q);
        assert((year as int) / 100 == 4 * era + c);
        assert((year as int) / 400 == era);
        assert(march(year as int) == 146_097 * era + 36_524 * c + 1_461 * q + 365 * y - 719_468);
    }
    (year, doy)
}

/// The quotient rounded down.
fn floor_div(a: i64, b: i64) -> (q: i64)
    requires
        b > 0,
    ensures
        q == (a as int) / (b as int),
        q * b <= a < q * b + b,
        a >= 0 ==> 0 <= q <= a,
        a < 0 ==> a <= q < 0,
{
    proof {
        assert((a as int) / (b as int) * b <= a < (a as int) / (b as int) * b + b) by (nonlinear_arith)
            requires
                b > 0,
        ;
        assert(a >= 0 ==> 0 <= (a as int) / (b as int) <= a) by (nonlinear_arith)
            requires
                b > 0,
        ;
        assert(a < 0 ==> a <= (a as int) / (b as int) < 0) by (nonlinear_arith)
            requires
                b > 0,
        ;
    }
    match a.checked_div_euclid(b) {
        Some(q) => q,
        None => 0,
    }
}

/// What the quotient rounded down leaves.
fn floor_rem(a: i64, b: i64) -> (r: i64)
    requires
        b > 0,
    ensures
        r == (a as int) % (b as int),
        0 <= r < b,
{
    proof {
        assert(0 <= (a as int) % (b as int) < b) by (nonlinear_arith)
            requires
                b > 0,
        ;
    }
    match a.checked_rem_euclid(b) {
        Some(r) => r,
        None => 0,
    }
}

/// The date that is `days` days after 1970-01-01: year, month and day.
pub fn civil_from_days(days: i64) -> (r: (i64, u32, u32))
    ensures
        is_date(r.0 as int, r.1 as int, r.2 as int),
        day_number(r.0 as int, r.1 as int, r.2 as int) == days,
{
    let (year, doy) = march_year(days);
    let mp: i64 = (5 * doy + 2) / 153;
    let day: i64 = doy - (153 * mp + 2) / 5 + 1;
    proof {
        lemma_march(year as int);
        reveal_with_fuel(month_start, 13);
        assert(0 <= mp <= 11);
    }
    if mp < 10 {
        let month: i64 = mp + 3;
        assert(day_number(year as int, month as int, day as int) == days);
        (year, month as u32, day as u32)
    } else {
        let month: i64 = mp - 9;
        assert(day_number(year + 1, month as int, day as int) == days);
        (year + 1, month as u32, day as u32)
    }
}

/// The date that is `days` days after 1970-01-01.
pub open spec fn date_of(days: int) -> (int, int, int) {
    choose|t: (int, int, int)| is_date(t.0, t.1, t.2) && #[trigger] day_number(t.0, t.1, t.2) == days
}

// ---- timestamps ----------------------------------------------------------------

/// The RFC 3339 form of a date and a time of day, with microseconds.
pub open spec fn timestamp(date: (int, int, int), of_day: int, micros: int) -> Seq<char> {
    decimal::padded(date.0, 4) + seq!['-'] + decimal::padded(date.1, 2) + seq!['-']
        + decimal::padded(date.2, 2) + seq!['T'] + decimal::padded(of_day / 3600, 2) + seq![':']
        + decimal::padded(of_day / 60 % 60, 2) + seq![':'] + decimal::padded(of_day % 60, 2)
        + seq!['.'] + decimal::padded(micros, 6) + seq!['Z']
}

/// The RFC 3339 form, in UTC, of an instant counted from the Unix epoch; microseconds beyond a
/// second count as the last one of the second.
pub open spec fn rfc3339(secs: int, micros: int) -> Seq<char> {
    timestamp(
        date_of(secs / 86_400),
        secs % 86_400,
        if micros > 999_999 {
            999_999
        } else {
            micros
        },
    )
}

/// The instant as an RFC 3339 UTC timestamp with microseconds.
pub fn format_rfc3339_micros(unix_seconds: i64, micros: u32) -> (out: String)
    ensures
        out@ == rfc3339(unix_seconds as int, micros as int),
{
    let days: i64 = floor_div(unix_seconds, 86_400);
    let of_day: i64 = floor_rem(unix_seconds, 86_400);
    let (year, month, day) = civil_from_days(days);
    proof {
        let date = date_of(days as int);
        assert(is_date(year as int, month as int, day as int) && day_number(
            year as int,
            month as int,
            day as int,
        ) == days);
        law_days_order_dates(year as int, month as int, day as int, date.0, date.1, date.2);
        assert(date == (year as int, month as int, day as int));
    }
    let frac: i64 = if micros > 999_999 {
        999_999
    } else {
        micros as i64
    };
    let mut out = padded_text(year, 4);
    out.push('-');
    let t = padded_text(month as i64, 2);
    out.append(t.as_str());
    out.push('-');
    let t = padded_text(day as i64, 2);
    out.append(t.as_str());
    out.push('T');
    let t = padded_text(of_day / 3600, 2);
    out.append(t.as_str());
    out.push(':');
    let t = padded_text(of_day / 60 % 60, 2);
    out.append(t.as_str());
    out.push(':');
    let t = padded_text(of_day % 60, 2);
    out.append(t.as_str());
    out.push('.');
    let t = padded_text(frac, 6);
    out.append(t.as_str());
    out.push('Z');
    assert(out@ =~= rfc3339(unix_seconds as int, micros as int));
    out
}

/// Every day from 1970 on has a date.
proof fn lemma_dated(days: nat)
    ensures
        ({
            let t = date_of(days as int);
            is_date(t.0, t.1, t.2) && day_number(t.0, t.1, t.2) == days
        }),
    decreases days,
{
    if days == 0 {
        law_years_follow_each_other(1970);
        let t = (1970int, 1int, 1int);
        assert(is_date(t.0, t.1, t.2) && day_number(t.0, t.1, t.2) == days);
    } else {
        lemma_dated((days - 1) as nat);
        let t = date_of(days - 1);
        law_days_follow_each_other(t.0, t.1, t.2);
        let n = next_date(t);
        assert(is_date(n.0, n.1, n.2) && day_number(n.0, n.1, n.2) == days);
    }
}

/// The first and the last year whose dates are four digits long and not before the epoch.
proof fn lemma_four_digits(days: nat)
    requires
        days <= 2_932_896,
    ensures
        1970 <= date_of(days as int).0 <= 9999,
{
    lemma_dated(days);
    let t = date_of(days as int);
    assert(day_number(1970, 1, 1) == 0 && day_number(10_000, 1, 1) == 2_932_897) by {
        assert(month_start(1970, 1) == 0 && month_start(10_000, 1) == 0);
    }
    law_days_order_dates(t.0, t.1, t.2, 1970, 1, 1);
    law_days_order_dates(t.0, t.1, t.2, 10_000, 1, 1);
}

spec fn field(n: int, width: int, end: char, rest: Seq<char>) -> Seq<char> {
    decimal::padded(n, width) + (seq![end] + rest)
}

proof fn lemma_field_order(
    a: int,
    b: int,
    width: nat,
    end: char,
    x: Seq<char>,
    y: Seq<char>,
)
    requires
        width > 0,
        0 <= a <= b < decimal::ten(width),
        a < b || order::lex(x, y),
    ensures
        order::lex(field(a, width as int, end, x), field(b, width as int, end, y)),
{
    decimal::law_padded_order(a, b, width);
    let (p, q) = (decimal::padded(a, width as int), decimal::padded(b, width as int));
    if a < b {
        order::lemma_lex_append(p, q, seq![end] + x, seq![end] + y);
    } else {
        order::lemma_lex_front(seq![end], x, y);
        order::lemma_lex_front(p, seq![end] + x, seq![end] + y);
    }
}

proof fn lemma_fields(date: (int, int, int), of_day: int, micros: int)
    ensures
        timestamp(date, of_day, micros) == field(
            date.0,
            4,
            '-',
            field(
                date.1,
                2,
                '-',
                field(
                    date.2,
                    2,
                    'T',
                    field(
                        of_day / 3600,
                        2,
                        ':',
                        field(
                            of_day / 60 % 60,
                            2,
                            ':',
                            field(of_day % 60, 2, '.', field(micros, 6, 'Z', seq![])),
                        ),
                    ),
                ),
            ),
        ),
{
    let us = field(micros, 6, 'Z', seq![]);
    let s = field(of_day % 60, 2, '.', us);
    let mi = field(of_day / 60 % 60, 2, ':', s);
    let h = field(of_day / 3600, 2, ':', mi);
    let d = field(date.2, 2, 'T', h);
    let mo = field(date.1, 2, '-', d);
    let h1 = decimal::padded(date.0, 4) + seq!['-'];
    let h2 = h1 + decimal::padded(date.1, 2) + seq!['-'];
    let h3 = h2 + decimal::padded(date.2, 2) + seq!['T'];
    let h4 = h3 + decimal::padded(of_day / 3600, 2) + seq![':'];
    let h5 = h4 + decimal::padded(of_day / 60 % 60, 2) + seq![':'];
    let h6 = h5 + decimal::padded(of_day % 60, 2) + seq!['.'];
    assert(timestamp(date, of_day, micros) == h6 + decimal::padded(micros, 6) + seq!['Z']);
    lemma_fold(h6, micros, 6, 'Z', seq![]);
    assert(timestamp(date, of_day, micros) + seq![] =~= timestamp(date, of_day, micros));
    lemma_fold(h5, of_day % 60, 2, '.', us);
    lemma_fold(h4, of_day / 60 % 60, 2, ':', s);
    lemma_fold(h3, of_day / 3600, 2, ':', mi);
    lemma_fold(h2, date.2, 2, 'T', h);
    lemma_fold(h1, date.1, 2, '-', d);
    assert(h1 + mo =~= field(date.0, 4, '-', mo));
}

proof fn lemma_fold(head: Seq<char>, n: int, width: int, end: char, rest: Seq<char>)
    ensures
        head + decimal::padded(n, width) + seq![end] + rest == head + field(n, width, end, rest),
{
    let p = decimal::padded(n, width);
    assert(head + p + seq![end] + rest =~= head + (p + (seq![end] + rest)));
}

/// Timestamps of instants up to the end of the year 9999 are 27 characters long, end in `Z`, and
/// sort as texts in the order of the instants.
pub proof fn law_timestamps_sort(s1: int, m1: int, s2: int, m2: int)
    requires
        0 <= s1 <= 253_402_300_799,
        0 <= s2 <= 253_402_300_799,
        0 <= m1 <= 999_999,
        0 <= m2 <= 999_999,
    ensures
        rfc3339(s1, m1).len() == 27,
        rfc3339(s1, m1).last() == 'Z',
        s1 < s2 || (s1 == s2 && m1 < m2) ==> order::lex(rfc3339(s1, m1), rfc3339(s2, m2)),
{
    let (d1, d2) = (s1 / 86_400, s2 / 86_400);
    let (t1, t2) = (date_of(d1), date_of(d2));
    let (o1, o2) = (s1 % 86_400, s2 % 86_400);
    lemma_dated(d1 as nat);
    lemma_dated(d2 as nat);
    lemma_four_digits(d1 as nat);
    lemma_four_digits(d2 as nat);
    lemma_fields(t1, o1, m1);
    lemma_fields(t2, o2, m2);
    reveal_with_fuel(decimal::ten, 7);
    decimal::law_padded_order(t1.0, t1.0, 4);
    decimal::law_padded_order(t1.1, t1.1, 2);
    decimal::law_padded_order(t1.2, t1.2, 2);
    decimal::law_padded_order(o1 / 3600, o1 / 3600, 2);
    decimal::law_padded_order(o1 / 60 % 60, o1 / 60 % 60, 2);
    decimal::law_padded_order(o1 % 60, o1 % 60, 2);
    decimal::law_padded_order(m1, m1, 6);
    if s1 < s2 || (s1 == s2 && m1 < m2) {
        law_days_order_dates(t1.0, t1.1, t1.2, t2.0, t2.1, t2.2);
        lemma_later(t1, o1, m1, t2, o2, m2);
    }
}

/// A later date, or a later time of the same date, gives the later text.
proof fn lemma_later(
    t1: (int, int, int),
    o1: int,
    m1: int,
    t2: (int, int, int),
    o2: int,
    m2: int,
)
    requires
        is_date(t1.0, t1.1, t1.2),
        is_date(t2.0, t2.1, t2.2),
        0 <= t1.0 <= 9999,
        0 <= t2.0 <= 9999,
        0 <= o1 < 86_400,
        0 <= o2 < 86_400,
        0 <= m1 <= 999_999,
        0 <= m2 <= 999_999,
        t1.0 < t2.0 || (t1.0 == t2.0 && (t1.1 < t2.1 || (t1.1 == t2.1 && (t1.2 < t2.2 || (t1.2
            == t2.2 && (o1 < o2 || (o1 == o2 && m1 < m2))))))),
    ensures
        order::lex(timestamp(t1, o1, m1), timestamp(t2, o2, m2)),
{
    reveal_with_fuel(decimal::ten, 7);
    lemma_fields(t1, o1, m1);
    lemma_fields(t2, o2, m2);
    let (us1, us2) = (field(m1, 6, 'Z', seq![]), field(m2, 6, 'Z', seq![]));
    let (s1, s2) = (field(o1 % 60, 2, '.', us1), field(o2 % 60, 2, '.', us2));
    let (mi1, mi2) = (field(o1 / 60 % 60, 2, ':', s1), field(o2 / 60 % 60, 2, ':', s2));
    let (h1, h2) = (field(o1 / 3600, 2, ':', mi1), field(o2 / 3600, 2, ':', mi2));
    let (d1, d2) = (field(t1.2, 2, 'T', h1), field(t2.2, 2, 'T', h2));
    let (mo1, mo2) = (field(t1.1, 2, '-', d1), field(t2.1, 2, '-', d2));
    if t1.0 == t2.0 {
        if t1.1 == t2.1 {
            if t1.2 == t2.2 {
                assert(o1 == 3600 * (o1 / 3600) + 60 * (o1 / 60 % 60) + o1 % 60);
                assert(o2 == 3600 * (o2 / 3600) + 60 * (o2 / 60 % 60) + o2 % 60);
                if o1 / 3600 == o2 / 3600 {
                    if o1 / 60 % 60 == o2 / 60 % 60 {
                        if o1 % 60 == o2 % 60 {
                            lemma_field_order(m1, m2, 6, 'Z', seq![], seq![]);
                        }
                        lemma_field_order(o1 % 60, o2 % 60, 2, '.', us1, us2);
                    }
                    lemma_field_order(o1 / 60 % 60, o2 / 60 % 60, 2, ':', s1, s2);
                }
                lemma_field_order(o1 / 3600, o2 / 3600, 2, ':', mi1, mi2);
            }
            lemma_field_order(t1.2, t2.2, 2, 'T', h1, h2);
        }
        lemma_field_order(t1.1, t2.1, 2, '-', d1, d2);
    }
    lemma_field_order(t1.0, t2.0, 4, '-', mo1, mo2);
}

// ---- clocks --------------------------------------------------------------------

/// A source of wall-clock time.
pub trait Clock {
    /// The current time: seconds since the Unix epoch, and microseconds of the second.
    fn now_unix_micros(&self) -> (i64, u32);
}

/// The real system clock.
#[derive(Debug, Clone, Copy, Default)]
pub struct SystemClock;

/// `std::time::SystemTime::elapsed` on the Unix epoch: how far the system clock is past it, as whole
/// seconds and the microseconds of the second, which are below a million; for a clock before the
/// epoch, the whole seconds to it.
#[verifier::external_body]
fn since_epoch() -> (r: Result<(u64, u32), u64>)
    ensures
        r matches Ok(p) ==> p.1 < 1_000_000,
{
    match std::time::UNIX_EPOCH.elapsed() {
        Ok(d) => Ok((d.as_secs(), d.subsec_micros())),
        Err(e) => Err(e.duration().as_secs()),
    }
}

/// Whether `since` is a distance to the Unix epoch that asking the system's clock gave.
pub closed spec fn clock_gave(since: Result<(u64, u32), u64>) -> bool {
    call_ensures(since_epoch, (), since)
}

/// The clock reading that a distance from the epoch stands for: `Ok` lies after the epoch, `Err`
/// before it; what an `i64` cannot hold counts as its nearest end.
pub fn reading(since: Result<(u64, u32), u64>) -> (r: (i64, u32))
    ensures
        match since {
            Ok(p) => r.0 == (if p.0 > i64::MAX {
                i64::MAX as int
            } else {
                p.0 as int
            }) && r.1 == p.1,
            Err(before) => r.0 == (if before > i64::MAX {
                i64::MIN as int
            } else {
                -(before as int)
            }) && r.1 == 0,
        },
{
    match since {
        Ok(p) => if p.0 > 9_223_372_036_854_775_807 {
            (i64::MAX, p.1)
        } else {
            (p.0 as i64, p.1)
        },
        Err(before) => if before > 9_223_372_036_854_775_807 {
            (i64::MIN, 0)
        } else {
            (-(before as i64), 0)
        },
    }
}

impl Clock for SystemClock {
    /// The current time by the system's clock: what [`reading`] makes of the distance to the epoch
    /// that the clock gives. The seconds are whatever that is; the microseconds are always those of
    /// one second.
    fn now_unix_micros(&self) -> (r: (i64, u32))
        ensures
            r.1 < 1_000_000,
            exists|since: Result<(u64, u32), u64>| #[trigger]
                clock_gave(since) && call_ensures(reading, (since,), r),
    {
        let since = since_epoch();
        let r = reading(since);
        assert(clock_gave(since));
        assert(call_ensures(reading, (since,), r));
        r
    }
}

/// A clock behind the epoch reads the time since, and one before it the time until.
pub proof fn law_clock_reads_from_the_epoch(secs: u64, micros: u32, after: (i64, u32), before: (i64, u32))
    requires
        call_ensures(reading, (Ok::<(u64, u32), u64>((secs, micros)),), after),
        call_ensures(reading, (Err::<(u64, u32), u64>(secs),), before),
        secs <= i64::MAX,
    ensures
        after.0 == secs && after.1 == micros,
        before.0 == -(secs as int) && before.1 == 0,
{
}

} // verus!
