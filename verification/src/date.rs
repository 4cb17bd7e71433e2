//! The Excel 1900 date system on whole-day serials.
//!
//! Serial 1 is Jan 1, 1900. Excel (inherited from Lotus 1-2-3) treats 1900
//! as a leap year: serial 60 is the non-existent Feb 29, 1900, and every
//! serial above 60 is one more than the real count of days.
use vstd::prelude::*;

verus! {

/// Gregorian leap year (1900 is not a leap year in reality).
pub open spec fn is_leap(y: int) -> bool {
    (y % 4 == 0 && y % 100 != 0) || y % 400 == 0
}

/// Days in month `m` (1..=12) of year `y` in the real Gregorian calendar.
pub open spec fn month_len(y: int, m: int) -> int {
    if m == 2 {
        if is_leap(y) {
            29
        } else {
            28
        }
    } else if m == 4 || m == 6 || m == 9 || m == 11 {
        30
    } else {
        31
    }
}

/// Days in the real Gregorian year `y`.
pub open spec fn year_len(y: int) -> int {
    if is_leap(y) {
        366
    } else {
        365
    }
}

/// Days of year `y` before the first of month `m` (for `1 <= m <= 13`).
pub open spec fn days_before_month(y: int, m: int) -> int
    decreases m,
{
    if m <= 1 {
        0
    } else {
        days_before_month(y, m - 1) + month_len(y, m - 1)
    }
}

/// Real days from Jan 1, 1900 to Jan 1 of year `y` (negative before 1900).
pub open spec fn days_from_1900(y: int) -> int
    decreases if y >= 1900 { y - 1900 } else { 1900 - y },
{
    if y == 1900 {
        0
    } else if y > 1900 {
        days_from_1900(y - 1) + year_len(y - 1)
    } else {
        days_from_1900(y + 1) - year_len(y)
    }
}

/// A real calendar date.
pub open spec fn valid_date(y: int, m: int, d: int) -> bool {
    1 <= m <= 12 && 1 <= d <= month_len(y, m)
}

/// The real day count of a date: 1 for Jan 1, 1900.
pub open spec fn real_day_number(y: int, m: int, d: int) -> int {
    days_from_1900(y) + days_before_month(y, m) + d
}

/// The Excel serial of a real day number: one more from Mar 1, 1900 on.
pub open spec fn excel_serial_of_day(n: int) -> int {
    if n >= 60 {
        n + 1
    } else {
        n
    }
}

/// Gregorian leap-year test (1900 is not a leap year in reality).
pub fn is_real_leap_year(year: i32) -> (r: bool)
    ensures
        r == is_leap(year as int),
{
    let a: u32 = if year < 0 {
        (-(year as i64)) as u32
    } else {
        year as u32
    };
    proof {
        lemma_divisible_abs(year as int, 4);
        lemma_divisible_abs(year as int, 100);
        lemma_divisible_abs(year as int, 400);
    }
    (a % 4 == 0 && a % 100 != 0) || a % 400 == 0
}


/// Days per month of `year` in the real Gregorian calendar.
pub fn month_days(year: i32) -> (r: [i32; 12])
    ensures
        forall|k: int| 0 <= k < 12 ==> r@[k] == month_len(year as int, k + 1),
{
    let feb: i32 = if is_real_leap_year(year) {
        29
    } else {
        28
    };
    [31, feb, 31, 30, 31, 30, 31, 31, 30, 31, 30, 31]
}

/// Days in the real Gregorian year `year`.
pub fn year_days(year: i32) -> (r: i32)
    ensures
        r == year_len(year as int),
{
    if is_real_leap_year(year) {
        366
    } else {
        365
    }
}

/// Days in `month` of `year` (1900 is not a leap year here; the fake Feb 29,
/// 1900 is handled by the callers). 30 for a month outside `1..=12`.
pub fn month_days_for_excel(year: i32, month: i32) -> (r: i32)
    ensures
        1 <= month <= 12 ==> r == month_len(year as int, month as int),
        !(1 <= month <= 12) ==> r == 30,
{
    let md = month_days(year);
    if 1 <= month && month <= 12 {
        md[(month - 1) as usize]
    } else {
        30
    }
}

proof fn lemma_days_from_1900_step(y: int)
    ensures
        days_from_1900(y + 1) == days_from_1900(y) + year_len(y),
{
    if y >= 1900 {
    } else {
        assert(days_from_1900(y) == days_from_1900(y + 1) - year_len(y));
    }
}

/// A lower bound of the days from 1900 to the start of year `y`.
pub proof fn lemma_days_from_1900_lower(y: int)
    requires
        y >= 1900,
    ensures
        days_from_1900(y) >= 365 * (y - 1900),
    decreases y - 1900,
{
    if y > 1900 {
        lemma_days_from_1900_lower(y - 1);
    }
}

/// An upper bound of the days from 1900 to the start of year `y`.
pub proof fn lemma_days_from_1900_upper(y: int)
    ensures
        y >= 1900 ==> days_from_1900(y) <= 366 * (y - 1900),
        y < 1900 ==> days_from_1900(y) >= 366 * (y - 1900),
    decreases if y >= 1900 { y - 1900 } else { 1900 - y },
{
    if y > 1900 {
        lemma_days_from_1900_upper(y - 1);
    } else if y < 1900 {
        lemma_days_from_1900_upper(y + 1);
    }
}

/// Strictly increasing: a later year starts at least a year's days later.
proof fn lemma_days_from_1900_monotone(y1: int, y2: int)
    requires
        y1 <= y2,
    ensures
        days_from_1900(y1) + 365 * (y2 - y1) <= days_from_1900(y2),
    decreases y2 - y1,
{
    if y1 < y2 {
        lemma_days_from_1900_monotone(y1, y2 - 1);
        lemma_days_from_1900_step(y2 - 1);
    }
}

/// The days before a month of a year are not negative.
pub proof fn lemma_days_before_month_nonneg(y: int, m: int)
    ensures
        days_before_month(y, m) >= 0,
    decreases m,
{
    if m > 1 {
        lemma_days_before_month_nonneg(y, m - 1);
    }
}

proof fn lemma_days_before_month_full(y: int)
    ensures
        days_before_month(y, 13) == year_len(y),
{
    reveal_with_fuel(days_before_month, 13);
}

proof fn lemma_days_before_month_monotone(y: int, m1: int, m2: int)
    requires
        1 <= m1 <= m2,
    ensures
        days_before_month(y, m1) + 28 * (m2 - m1) <= days_before_month(y, m2),
    decreases m2 - m1,
{
    if m1 < m2 {
        lemma_days_before_month_monotone(y, m1, m2 - 1);
    }
}

proof fn lemma_day_in_year(y: int, m: int, d: int)
    requires
        valid_date(y, m, d),
    ensures
        days_from_1900(y) < real_day_number(y, m, d) <= days_from_1900(y + 1),
        days_before_month(y, m) < days_before_month(y, m) + d <= days_before_month(y, m + 1),
{
    lemma_days_from_1900_step(y);
    lemma_days_before_month_full(y);
    lemma_days_before_month_monotone(y, m + 1, 13);
    lemma_days_before_month_monotone(y, 1, m);
    assert(days_before_month(y, m + 1) == days_before_month(y, m) + month_len(y, m));
}

/// Distinct real dates have distinct day numbers.
pub proof fn lemma_real_day_number_injective(y1: int, m1: int, d1: int, y2: int, m2: int, d2: int)
    requires
        valid_date(y1, m1, d1),
        valid_date(y2, m2, d2),
        real_day_number(y1, m1, d1) == real_day_number(y2, m2, d2),
    ensures
        y1 == y2 && m1 == m2 && d1 == d2,
{
    lemma_day_in_year(y1, m1, d1);
    lemma_day_in_year(y2, m2, d2);
    if y1 < y2 {
        lemma_days_from_1900_monotone(y1 + 1, y2);
    } else if y2 < y1 {
        lemma_days_from_1900_monotone(y2 + 1, y1);
    }
    assert(y1 == y2);
    if m1 < m2 {
        lemma_days_before_month_monotone(y1, m1 + 1, m2);
    } else if m2 < m1 {
        lemma_days_before_month_monotone(y1, m2 + 1, m1);
    }
}

/// The real day number of an Excel serial (the fake Feb 29, 1900 removed).
pub open spec fn real_day_of_serial(serial: int) -> int {
    if serial > 60 {
        serial - 1
    } else {
        serial
    }
}


/// The date of an Excel serial: `(1900, 1, 0)` below 1, the fake
/// `(1900, 2, 29)` at 60, otherwise the real date whose day number the
/// serial stands for.
pub open spec fn spec_year_month_day(serial: int) -> (int, int, int) {
    if serial <= 0 {
        (1900, 1, 0)
    } else if serial == 60 {
        (1900, 2, 29)
    } else {
        choose|t: (int, int, int)|
            t.0 >= 1900 && valid_date(t.0, t.1, t.2) && real_day_number(t.0, t.1, t.2)
                == real_day_of_serial(serial)
    }
}

/// Every day number from 1 on is the day number of a date from 1900 on.
proof fn lemma_date_of_day(n: int) -> (t: (int, int, int))
    requires
        n >= 1,
    ensures
        t.0 >= 1900,
        valid_date(t.0, t.1, t.2),
        real_day_number(t.0, t.1, t.2) == n,
    decreases n,
{
    if n == 1 {
        assert(days_before_month(1900, 1) == 0);
        (1900, 1, 1)
    } else {
        let (y, m, d) = lemma_date_of_day(n - 1);
        if d < month_len(y, m) {
            (y, m, d + 1)
        } else if m < 12 {
            assert(days_before_month(y, m + 1) == days_before_month(y, m) + month_len(y, m));
            (y, m + 1, 1)
        } else {
            lemma_days_before_month_full(y);
            lemma_days_from_1900_step(y);
            assert(days_before_month(y, 13) == days_before_month(y, 12) + month_len(y, 12));
            assert(days_before_month(y + 1, 1) == 0);
            (y + 1, 1, 1)
        }
    }
}

proof fn lemma_spec_year_month_day(serial: int, t: (int, int, int))
    requires
        serial > 0,
        serial != 60,
        t.0 >= 1900,
        valid_date(t.0, t.1, t.2),
        real_day_number(t.0, t.1, t.2) == real_day_of_serial(serial),
    ensures
        spec_year_month_day(serial) == t,
{
    let c = spec_year_month_day(serial);
    assert(c.0 >= 1900 && valid_date(c.0, c.1, c.2) && real_day_number(c.0, c.1, c.2)
        == real_day_of_serial(serial));
    lemma_real_day_number_injective(c.0, c.1, c.2, t.0, t.1, t.2);
}

/// The date of a serial from 1 on (60 aside) is a real date from 1900 on,
/// whose day number the serial stands for.
pub proof fn lemma_year_month_day_is_date(serial: int)
    requires
        1 <= serial,
        serial != 60,
    ensures
        spec_year_month_day(serial).0 >= 1900,
        valid_date(
            spec_year_month_day(serial).0,
            spec_year_month_day(serial).1,
            spec_year_month_day(serial).2,
        ),
        real_day_number(
            spec_year_month_day(serial).0,
            spec_year_month_day(serial).1,
            spec_year_month_day(serial).2,
        ) == real_day_of_serial(serial),
{
    let t = lemma_date_of_day(real_day_of_serial(serial));
    lemma_spec_year_month_day(serial, t);
}

/// `a` is on or before `b` as a (year, month, day) triple.
pub open spec fn date_le(a: (int, int, int), b: (int, int, int)) -> bool {
    a.0 < b.0 || (a.0 == b.0 && (a.1 < b.1 || (a.1 == b.1 && a.2 <= b.2)))
}

proof fn lemma_day_number_strict(a: (int, int, int), b: (int, int, int))
    requires
        valid_date(a.0, a.1, a.2),
        valid_date(b.0, b.1, b.2),
        !date_le(b, a),
    ensures
        real_day_number(a.0, a.1, a.2) < real_day_number(b.0, b.1, b.2),
{
    lemma_day_in_year(a.0, a.1, a.2);
    lemma_day_in_year(b.0, b.1, b.2);
    if a.0 < b.0 {
        lemma_days_from_1900_monotone(a.0 + 1, b.0);
    } else if a.1 < b.1 {
        lemma_days_before_month_monotone(a.0, a.1 + 1, b.1);
    }
}

/// The first 59 serials are January and February 1900 before the fake
/// Feb 29; the serials after 60 are from March 1900 on.
proof fn lemma_serials_around_60(serial: int)
    requires
        1 <= serial,
        serial != 60,
    ensures
        serial < 60 ==> date_le(spec_year_month_day(serial), (1900, 2, 28)),
        serial > 60 ==> date_le((1900, 3, 1), spec_year_month_day(serial)),
{
    lemma_year_month_day_is_date(serial);
    let t = spec_year_month_day(serial);
    assert(days_before_month(1900, 3) == 59) by {
        reveal_with_fuel(days_before_month, 3);
    }
    if serial < 60 {
        if !date_le(t, (1900, 2, 28)) {
            lemma_day_number_strict((1900, 2, 28), t);
        }
    } else {
        if !date_le((1900, 3, 1), t) {
            lemma_day_number_strict(t, (1900, 3, 1));
        }
    }
}

/// Later serials have later (or the same) dates.
pub proof fn lemma_dates_ordered(s1: int, s2: int)
    requires
        s1 <= s2,
    ensures
        date_le(spec_year_month_day(s1), spec_year_month_day(s2)),
{
    let a = spec_year_month_day(s1);
    let b = spec_year_month_day(s2);
    if s2 >= 1 && s2 != 60 {
        lemma_year_month_day_is_date(s2);
        lemma_serials_around_60(s2);
    }
    if s1 >= 1 && s1 != 60 {
        lemma_year_month_day_is_date(s1);
        lemma_serials_around_60(s1);
        if s2 != 60 && !date_le(a, b) {
            lemma_day_number_strict(b, a);
        }
    }
}

/// The serial of a month and day of year `y` (the day at most the month's
/// length in some year) falls in year `y`, before any serial of year `y + 1`
/// that is a real date.
pub proof fn lemma_anniversary_before_next_year(y: int, m: int, d: int, later: int)
    requires
        y >= 1900,
        1 <= m <= 12,
        1 <= d <= month_len(y, m) || (m == 2 && d == 29),
        later >= 1,
        later != 60,
        spec_year_month_day(later).0 > y,
    ensures
        spec_serial_from_ymd(y, m, d) < later,
{
    lemma_year_month_day_is_date(later);
    let t = spec_year_month_day(later);
    lemma_day_in_year(t.0, t.1, t.2);
    lemma_days_from_1900_monotone(y + 1, t.0);
    lemma_days_from_1900_step(y);
    lemma_days_before_month_full(y);
    if m < 12 {
        lemma_days_before_month_monotone(y, m + 1, 13);
    }
    assert(days_before_month(y, m + 1) == days_before_month(y, m) + month_len(y, m));
    assert(days_before_month(y, 3) == days_before_month(y, 2) + month_len(y, 2));
    assert(days_before_month(y, 2) == 31) by {
        reveal_with_fuel(days_before_month, 2);
    }
    assert(normalized_year(y, m) == y);
    assert(normalized_month(m) == m);
    assert(real_day_of_serial(later) == real_day_number(t.0, t.1, t.2));
}

/// Real days from March 1900 on come after the fake February 29, 1900;
/// those before it, before.
proof fn lemma_day_number_side(y: int, m: int, d: int)
    requires
        y >= 1900,
        valid_date(y, m, d),
    ensures
        (y == 1900 && m <= 2) ==> real_day_number(y, m, d) < 60,
        !(y == 1900 && m <= 2) ==> real_day_number(y, m, d) >= 60,
{
    assert(days_before_month(1900, 3) == 59 && days_before_month(1900, 2) == 31) by {
        reveal_with_fuel(days_before_month, 3);
    }
    lemma_days_before_month_nonneg(y, m);
    if y == 1900 && m >= 3 {
        lemma_days_before_month_monotone(1900, 3, m);
    }
    if y > 1900 {
        lemma_days_from_1900_lower(y);
    }
}

/// Two days of one month are as many serials apart as days apart.
pub proof fn lemma_serials_in_a_month(y: int, m: int, d1: int, d2: int)
    requires
        y >= 1900,
        valid_date(y, m, d1),
        valid_date(y, m, d2),
    ensures
        spec_serial_from_ymd(y, m, d2) - spec_serial_from_ymd(y, m, d1) == d2 - d1,
{
    lemma_day_number_side(y, m, d1);
    lemma_day_number_side(y, m, d2);
    assert(normalized_year(y, m) == y);
    assert(normalized_month(m) == m);
}

/// A day of one month and a day of the next are the rest of the first month
/// plus the day apart, unless the fake February 29, 1900 lies between.
pub proof fn lemma_serials_across_a_month(y: int, m: int, d1: int, ny: int, nm: int, d2: int)
    requires
        y >= 1900,
        valid_date(y, m, d1),
        (ny, nm) == (if m == 12 { (y + 1, 1) } else { (y, m + 1) }),
        valid_date(ny, nm, d2),
        !(y == 1900 && m == 2),
    ensures
        spec_serial_from_ymd(ny, nm, d2) - spec_serial_from_ymd(y, m, d1) == month_len(y, m) - d1
            + d2,
{
    lemma_day_number_side(y, m, d1);
    lemma_day_number_side(ny, nm, d2);
    assert(normalized_year(y, m) == y);
    assert(normalized_month(m) == m);
    assert(normalized_year(ny, nm) == ny);
    assert(normalized_month(nm) == nm);
    if m == 12 {
        lemma_days_from_1900_step(y);
        lemma_days_before_month_full(y);
        assert(days_before_month(y, 13) == days_before_month(y, 12) + month_len(y, 12));
        assert(days_before_month(y + 1, 1) == 0);
    } else {
        assert(days_before_month(y, m + 1) == days_before_month(y, m) + month_len(y, m));
    }
}

/// A real date from 1900 to year 1,000,000, or the fake Feb 29, 1900.
pub open spec fn excel_calendar_date(y: int, m: int, d: int) -> bool {
    (1900 <= y <= 1000000 && valid_date(y, m, d)) || (y == 1900 && m == 2 && d == 29)
}

/// A date's serial converts back to the same date.
pub proof fn law_date_serial_date_round_trip(y: int, m: int, d: int)
    requires
        excel_calendar_date(y, m, d),
    ensures
        1 <= spec_serial_from_ymd(y, m, d) <= 0x8000_0000,
        spec_year_month_day(spec_serial_from_ymd(y, m, d)) == (y, m, d),
{
    if !(y == 1900 && m == 2 && d == 29) {
        assert(normalized_year(y, m) == y);
        assert(normalized_month(m) == m);
        let n = real_day_number(y, m, d);
        lemma_day_in_year(y, m, d);
        lemma_days_from_1900_lower(y);
        lemma_days_from_1900_upper(y + 1);
        lemma_days_from_1900_step(y);
        let s = spec_serial_from_ymd(y, m, d);
        assert(s == excel_serial_of_day(n));
        assert(s != 60);
        assert(real_day_of_serial(s) == n);
        lemma_spec_year_month_day(s, (y, m, d));
    }
}

/// A serial's date converts back to the same serial.
pub proof fn law_serial_date_serial_round_trip(serial: int)
    requires
        1 <= serial,
    ensures
        spec_serial_from_ymd(
            spec_year_month_day(serial).0,
            spec_year_month_day(serial).1,
            spec_year_month_day(serial).2,
        ) == serial,
{
    if serial != 60 {
        let t = lemma_date_of_day(real_day_of_serial(serial));
        lemma_spec_year_month_day(serial, t);
        let (y, m, d) = t;
        assert(normalized_year(y, m) == y);
        assert(normalized_month(m) == m);
        assert(!(y == 1900 && m == 2 && d == 29));
    }
}

/// Convert a whole-day serial to `(year, month, day)`.
///
/// Serial 1 is Jan 1, 1900; serial 60 is the fake Feb 29, 1900. Serial 0 and
/// negative serials give `(1900, 1, 0)`.
pub fn year_month_day_of_serial(serial: i64) -> (r: (i32, u32, u32))
    requires
        serial <= 0x8000_0000,
    ensures
        (r.0 as int, r.1 as int, r.2 as int) == spec_year_month_day(serial as int),
        serial <= 0 ==> r == (1900i32, 1u32, 0u32),
        serial == 60 ==> r == (1900i32, 2u32, 29u32),
        serial > 0 && serial != 60 ==> {
            &&& r.0 >= 1900
            &&& valid_date(r.0 as int, r.1 as int, r.2 as int)
            &&& real_day_number(r.0 as int, r.1 as int, r.2 as int) == real_day_of_serial(
                serial as int,
            )
        },
{
    if serial <= 0 {
        return (1900, 1, 0);
    }
    if serial == 60 {
        return (1900, 2, 29);
    }
    let real_days: i64 = if serial > 60 {
        serial - 1
    } else {
        serial
    };
    let mut remaining: i32 = (real_days - 1) as i32;
    let mut year: i32 = 1900;
    loop
        invariant
            1900 <= year,
            0 <= remaining,
            real_days == real_day_of_serial(serial as int),
            1 <= real_days <= 0x8000_0000,
            days_from_1900(year as int) + remaining == real_days - 1,
        ensures
            1900 <= year,
            0 <= remaining < year_len(year as int),
            days_from_1900(year as int) + remaining == real_days - 1,
        decreases remaining,
    {
        let yd = year_days(year);
        if remaining < yd {
            break;
        }
        proof {
            lemma_days_from_1900_lower(year as int);
            lemma_days_from_1900_step(year as int);
            assert(365 * (year - 1900) <= 0x8000_0000);
        }
        remaining -= yd;
        year += 1;
    }
    let md = month_days(year);
    let ghost r0 = remaining;
    proof {
        lemma_days_before_month_full(year as int);
    }
    let mut i: usize = 0;
    while i < 12
        invariant
            i <= 12,
            0 <= remaining,
            1900 <= year,
            serial > 0 && serial != 60,
            real_days == real_day_of_serial(serial as int),
            days_from_1900(year as int) + r0 == real_days - 1,
            forall|k: int| 0 <= k < 12 ==> md@[k] == month_len(year as int, k + 1),
            days_before_month(year as int, i + 1) + remaining == r0,
            r0 < year_len(year as int),
            days_before_month(year as int, 13) == year_len(year as int),
        decreases 12 - i,
    {
        if remaining < md[i] {
            proof {
                assert(days_before_month(year as int, i + 2) == days_before_month(year as int, i + 1)
                    + month_len(year as int, i + 1));
                lemma_spec_year_month_day(
                    serial as int,
                    (year as int, i + 1, remaining + 1),
                );
            }
            return (year, (i + 1) as u32, (remaining + 1) as u32);
        }
        remaining -= md[i];
        i += 1;
    }
    proof {
        assert(false);
    }
    (1900, 1, 0)
}

/// Year of `(year, month)` once the month is brought into `1..=12`.
pub open spec fn normalized_year(year: int, month: int) -> int {
    year + (month - 1) / 12
}

/// `month` brought into `1..=12`.
pub open spec fn normalized_month(month: int) -> int {
    (month - 1) % 12 + 1
}

/// The serial of `(year, month, day)`, with Excel-style rollover: months
/// outside `1..=12` move into adjacent years, days outside the month move
/// into adjacent months.
pub open spec fn spec_serial_from_ymd(year: int, month: int, day: int) -> int {
    if year == 1900 && month == 2 && day == 29 {
        60
    } else {
        let y = normalized_year(year, month);
        let m = normalized_month(month);
        excel_serial_of_day(days_from_1900(y) + days_before_month(y, m) + day)
    }
}

/// Serials of months inside `1..=12` with days from 0 to 31, from year 1899
/// on, are non-negative and bounded.
pub proof fn lemma_serial_bound(y: int, m: int, d: int)
    requires
        1899 <= y <= 10000000,
        1 <= m <= 12,
        0 <= d <= 31,
    ensures
        -400 <= spec_serial_from_ymd(y, m, d) <= 4000000000,
{
    assert(normalized_year(y, m) == y);
    assert(normalized_month(m) == m);
    if y >= 1900 {
        lemma_days_from_1900_upper(y);
        lemma_days_from_1900_lower(y);
    } else {
        assert(days_from_1900(1899) == days_from_1900(1900) - year_len(1899));
    }
    lemma_days_before_month_nonneg(y, m);
    lemma_days_before_month_monotone(y, m, 13);
    lemma_days_before_month_full(y);
}

/// `(year, month)` rolls over without `i32` overflow.
pub open spec fn ymd_in_range(year: int, month: int, day: int) -> bool {
    &&& month > -2147483639
    &&& day > i32::MIN
    &&& i32::MIN < normalized_year(year, month) <= i32::MAX
}

/// Serial of `(year, month, day)` with Excel-style rollover.
pub fn serial_from_ymd(year: i32, month: i32, day: i32) -> (r: i64)
    requires
        ymd_in_range(year as int, month as int, day as int),
    ensures
        r == spec_serial_from_ymd(year as int, month as int, day as int),
{
    if year == 1900 && month == 2 && day == 29 {
        return 60;
    }
    let mut y = year;
    let mut m = month;
    if m < 1 {
        let years_back = (1 - m) / 12 + 1;
        proof {
            assert(years_back * 12 <= i32::MAX) by (nonlinear_arith)
                requires
                    years_back == (1 - m) / 12 + 1,
                    m > -2147483639,
                    m < 1,
            ;
            assert(normalized_year(year as int, month as int) == year - years_back + (m + years_back
                * 12 - 1) / 12) by (nonlinear_arith)
                requires
                    years_back == (1 - m) / 12 + 1,
                    m < 1,
                    m == month,
            ;
            assert(0 <= (m + years_back * 12 - 1) / 12 <= 1) by (nonlinear_arith)
                requires
                    years_back == (1 - m) / 12 + 1,
                    m < 1,
            ;
            assert((m + years_back * 12 - 1) % 12 == (month - 1) % 12) by (nonlinear_arith)
                requires
                    years_back == (1 - m) / 12 + 1,
                    m == month,
            ;
        }
        y -= years_back;
        m += years_back * 12;
    }
    if m > 12 {
        proof {
            assert(y + (m - 1) / 12 == normalized_year(year as int, month as int));
        }
        y += (m - 1) / 12;
        m = (m - 1) % 12 + 1;
    }
    proof {
        assert(y == normalized_year(year as int, month as int));
        assert(m == normalized_month(month as int));
    }
    let mut total_days: i64 = 0;
    let mut yr: i32 = 1900;
    while yr < y
        invariant
            1900 <= yr,
            yr <= y || y < 1900,
            y < 1900 ==> yr == 1900,
            y == normalized_year(year as int, month as int),
            total_days == days_from_1900(yr as int),
            0 <= total_days <= 366 * (yr - 1900),
        decreases y - yr,
    {
        proof {
            lemma_days_from_1900_step(yr as int);
        }
        total_days += year_days(yr) as i64;
        yr += 1;
    }
    if y < 1900 {
        let mut yr2: i32 = y;
        let ghost yy = y as int;
        while yr2 < 1900
            invariant
                yy <= yr2 <= 1900,
                total_days == days_from_1900(yy) - days_from_1900(yr2 as int),
                -366 * (yr2 - yy) <= total_days <= 0,
                yy == y,
            decreases 1900 - yr2,
        {
            proof {
                lemma_days_from_1900_step(yr2 as int);
            }
            total_days -= year_days(yr2) as i64;
            yr2 += 1;
        }
    }
    let md = month_days(y);
    let mut k: usize = 0;
    let mut before: i64 = 0;
    while k + 1 < m as usize
        invariant
            1 <= m <= 12,
            k + 1 <= m,
            forall|j: int| 0 <= j < 12 ==> md@[j] == month_len(y as int, j + 1),
            before == days_before_month(y as int, k + 1),
            0 <= before <= 31 * k,
        decreases m - k,
    {
        before += md[k] as i64;
        k += 1;
    }
    proof {
        if y >= 1900 {
            lemma_days_from_1900_upper(y as int);
        } else {
            lemma_days_from_1900_upper(y as int);
        }
    }
    let serial: i64 = total_days + before + 1 + ((day - 1) as i64);
    if serial >= 60 {
        serial + 1
    } else {
        serial
    }
}

/// Day of week of a serial: 0 = Sunday, 1 = Monday, ..., 6 = Saturday
/// (serial 1, Jan 1, 1900, was a Sunday). 0 for serials below 1.
pub fn weekday_of_serial(serial: i64) -> (r: u32)
    ensures
        serial <= 0 ==> r == 0,
        serial > 0 ==> r == (serial - 1) % 7,
{
    if serial <= 0 {
        return 0;
    }
    ((serial - 1) % 7) as u32
}

proof fn lemma_divisible_abs(y: int, k: int)
    requires
        k > 0,
    ensures
        (y % k == 0) <==> ((if y < 0 { -y } else { y }) % k == 0),
{
    if y < 0 {
        if y % k == 0 {
            let q = y / k;
            vstd::arithmetic::div_mod::lemma_fundamental_div_mod(y, k);
            assert(y == q * k);
            assert(-y == (-q) * k) by (nonlinear_arith)
                requires
                    y == q * k,
            ;
            vstd::arithmetic::div_mod::lemma_mod_multiples_basic(-q, k);
        }
        if (-y) % k == 0 {
            let q = (-y) / k;
            vstd::arithmetic::div_mod::lemma_fundamental_div_mod(-y, k);
            assert(-y == q * k);
            assert(y == (-q) * k) by (nonlinear_arith)
                requires
                    -y == q * k,
            ;
            vstd::arithmetic::div_mod::lemma_mod_multiples_basic(-q, k);
        }
    }
}

} // verus!
