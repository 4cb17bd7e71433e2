//! Worksheet date functions on whole-day serials: `WEEKDAY`, `EDATE`,
//! `EOMONTH`, `DATEDIF`, `NETWORKDAYS`, `WORKDAY`.
use vstd::prelude::*;

use crate::cell_error::CellError;
use crate::date::{
    date_le, lemma_anniversary_before_next_year, lemma_dates_ordered, lemma_serials_across_a_month,
    lemma_serials_in_a_month, days_before_month, law_date_serial_date_round_trip, law_serial_date_serial_round_trip, lemma_year_month_day_is_date, month_days_for_excel, month_len, normalized_month,
    normalized_year, serial_from_ymd, spec_serial_from_ymd, spec_year_month_day, valid_date,
    weekday_of_serial, year_month_day_of_serial,
};
use crate::text::{lower_seq, str_equals};

verus! {

/// Raw day of week of a serial: 0 = Sunday, ..., 6 = Saturday; 0 below 1.
pub open spec fn raw_weekday(serial: int) -> int {
    if serial <= 0 {
        0
    } else {
        (serial - 1) % 7
    }
}

/// `WEEKDAY` numbering: type 1 is Sunday = 1 .. Saturday = 7, type 2 is
/// Monday = 1 .. Sunday = 7, type 3 is Monday = 0 .. Sunday = 6; any other
/// type is `#NUM!`.
pub open spec fn spec_weekday_typed(serial: int, return_type: int) -> Result<int, CellError> {
    let raw = raw_weekday(serial);
    if return_type == 1 {
        Ok(raw + 1)
    } else if return_type == 2 {
        Ok(if raw == 0 { 7 } else { raw })
    } else if return_type == 3 {
        Ok(if raw == 0 { 6 } else { raw - 1 })
    } else {
        Err(CellError::Num)
    }
}

/// `WEEKDAY(serial, return_type)`.
pub fn weekday_typed(serial: i64, return_type: i32) -> (r: Result<u32, CellError>)
    ensures
        match r {
            Ok(v) => spec_weekday_typed(serial as int, return_type as int) == Ok::<int, CellError>(
                v as int,
            ),
            Err(e) => spec_weekday_typed(serial as int, return_type as int) == Err::<int, CellError>(e),
        },
{
    let raw = weekday_of_serial(serial);
    if return_type == 1 {
        Ok(raw + 1)
    } else if return_type == 2 {
        Ok(
            if raw == 0 {
                7
            } else {
                raw
            },
        )
    } else if return_type == 3 {
        Ok(
            if raw == 0 {
                6
            } else {
                raw - 1
            },
        )
    } else {
        Err(CellError::Num)
    }
}

/// Serials whose date the calendar conversion reads exactly.
pub open spec fn serial_in_calendar(serial: int) -> bool {
    serial <= 0x8000_0000
}

/// `(year, month)` moved by `months` months, as `(year, month)` with the
/// month in `1..=12`.
pub open spec fn month_shift(y: int, m: int, months: int) -> (int, int) {
    let t = y * 12 + (m - 1) + months;
    (t / 12, t % 12 + 1)
}

/// `EDATE`: the same day `months` months later, clamped to the end of the
/// target month.
pub open spec fn spec_edate(serial: int, months: int) -> int {
    let (y, m, d) = spec_year_month_day(serial);
    let (ny, nm) = month_shift(y, m, months);
    let day = if d < month_len(ny, nm) { d } else { month_len(ny, nm) };
    spec_serial_from_ymd(ny, nm, day)
}

/// `EOMONTH`: the last day of the month `months` months later.
pub open spec fn spec_eomonth(serial: int, months: int) -> int {
    let (y, m, d) = spec_year_month_day(serial);
    let (ny, nm) = month_shift(y, m, months);
    spec_serial_from_ymd(ny, nm, month_len(ny, nm))
}

/// The month index `y * 12 + (m - 1) + months` fits in an `i32`.
pub open spec fn month_shift_in_range(serial: int, months: int) -> bool {
    let (y, m, d) = spec_year_month_day(serial);
    i32::MIN <= y * 12 + (m - 1) + months <= i32::MAX
}

/// Floor division and remainder by 12 of an `i32`.
fn div_mod_12(t: i32) -> (r: (i32, i32))
    ensures
        r.0 == t as int / 12,
        r.1 == t as int % 12,
{
    let shifted: i64 = (t as i64) + 3221225472;
    let q: i64 = shifted / 12;
    let rem: i64 = shifted % 12;
    proof {
        assert(shifted == t + 12 * 268435456);
        let tq = t as int / 12;
        let tr = t as int % 12;
        vstd::arithmetic::div_mod::lemma_fundamental_div_mod(t as int, 12);
        vstd::arithmetic::div_mod::lemma_mod_bound(t as int, 12);
        assert(shifted == 12 * (tq + 268435456) + tr);
        vstd::arithmetic::div_mod::lemma_div_multiples_vanish_fancy(tq + 268435456, tr, 12);
        vstd::arithmetic::div_mod::lemma_mod_multiples_vanish(tq + 268435456, tr, 12);
        vstd::arithmetic::div_mod::lemma_small_mod(tr as nat, 12);
    }
    ((q - 268435456) as i32, rem as i32)
}

/// The year, month and day-of-month of a serial, widened.
fn ymd_of(serial: i64) -> (r: (i32, i32, i32))
    requires
        serial_in_calendar(serial as int),
    ensures
        (r.0 as int, r.1 as int, r.2 as int) == spec_year_month_day(serial as int),
        1 <= r.1 <= 12,
        0 <= r.2 <= 31,
        1900 <= r.0 <= 10000000,
{
    let (y, m, d) = year_month_day_of_serial(serial);
    proof {
        if serial > 0 && serial != 60 {
            assert(month_len(y as int, m as int) <= 31);
            crate::date::lemma_days_from_1900_lower(y as int);
            crate::date::lemma_days_before_month_nonneg(y as int, m as int);
        }
    }
    (y, m as i32, d as i32)
}

/// `EDATE(serial, months)`.
pub fn edate(serial: i64, months: i32) -> (r: i64)
    requires
        serial_in_calendar(serial as int),
        month_shift_in_range(serial as int, months as int),
    ensures
        r == spec_edate(serial as int, months as int),
{
    let (y, m, d) = ymd_of(serial);
    let total: i32 = y * 12 + (m - 1) + months;
    let (q, rm) = div_mod_12(total);
    let new_m = rm + 1;
    let target = month_days_for_excel(q, new_m);
    let day = if d < target {
        d
    } else {
        target
    };
    proof {
        assert(normalized_year(q as int, new_m as int) == q);
        assert(normalized_month(new_m as int) == new_m);
    }
    serial_from_ymd(q, new_m, day)
}

/// `EOMONTH(serial, months)`.
pub fn eomonth(serial: i64, months: i32) -> (r: i64)
    requires
        serial_in_calendar(serial as int),
        month_shift_in_range(serial as int, months as int),
    ensures
        r == spec_eomonth(serial as int, months as int),
{
    let (y, m, _d) = ymd_of(serial);
    let total: i32 = y * 12 + (m - 1) + months;
    let (q, rm) = div_mod_12(total);
    let new_m = rm + 1;
    let last = month_days_for_excel(q, new_m);
    proof {
        assert(normalized_year(q as int, new_m as int) == q);
        assert(normalized_month(new_m as int) == new_m);
    }
    serial_from_ymd(q, new_m, last)
}

/// `EDATE` by zero months keeps every date serial but the fake Feb 29, 1900.
pub proof fn law_edate_zero_months(serial: int)
    requires
        1 <= serial <= 0x8000_0000,
        serial != 60,
    ensures
        spec_edate(serial, 0) == serial,
{
    law_serial_date_serial_round_trip(serial);
    let (y, m, d) = spec_year_month_day(serial);
    lemma_year_month_day_is_date(serial);
    let t = y * 12 + (m - 1);
    assert(t / 12 == y && t % 12 == m - 1) by (nonlinear_arith)
        requires
            t == y * 12 + (m - 1),
            1 <= m <= 12,
    ;
}

/// `EOMONTH` lands on the last day of a month.
pub proof fn law_eomonth_is_month_end(serial: int, months: int)
    requires
        1 <= serial <= 0x8000_0000,
        1900 <= month_shift(
            spec_year_month_day(serial).0,
            spec_year_month_day(serial).1,
            months,
        ).0 <= 1000000,
    ensures
        ({
            let (ny, nm) = month_shift(
                spec_year_month_day(serial).0,
                spec_year_month_day(serial).1,
                months,
            );
            spec_year_month_day(spec_eomonth(serial, months)) == (ny, nm, month_len(ny, nm))
        }),
{
    let (y, m, d) = spec_year_month_day(serial);
    let (ny, nm) = month_shift(y, m, months);
    let t = y * 12 + (m - 1) + months;
    assert(1 <= t % 12 + 1 <= 12) by (nonlinear_arith);
    assert(valid_date(ny, nm, month_len(ny, nm)));
    law_date_serial_date_round_trip(ny, nm, month_len(ny, nm));
}


/// `max(x, 0)`.
pub open spec fn nonneg(x: int) -> int {
    if x < 0 {
        0
    } else {
        x
    }
}

/// `DATEDIF(start, end, unit)`: `#NUM!` when start is after end or for an
/// unknown unit; units (any case) `d` days, `m` whole months, `y` whole
/// years, `ym` months ignoring years, `yd` days ignoring years, `md` days
/// ignoring months and years.
pub open spec fn spec_datedif(start: int, end: int, unit: Seq<char>) -> Result<int, CellError> {
    let (sy, sm, sd) = spec_year_month_day(start);
    let (ey, em, ed) = spec_year_month_day(end);
    let u = lower_seq(unit);
    let day_before = if ed < sd { 1int } else { 0int };
    if start > end {
        Err(CellError::Num)
    } else if u == "d"@ {
        Ok(end - start)
    } else if u == "m"@ {
        Ok(nonneg((ey - sy) * 12 + (em - sm) - day_before))
    } else if u == "y"@ {
        let before = if em < sm || (em == sm && ed < sd) { 1int } else { 0int };
        Ok(nonneg(ey - sy - before))
    } else if u == "ym"@ {
        let months = em - sm - day_before;
        Ok(if months < 0 { months + 12 } else { months })
    } else if u == "yd"@ {
        let diff = end - spec_serial_from_ymd(ey, sm, sd);
        let diff2 = if diff < 0 { end - spec_serial_from_ymd(ey - 1, sm, sd) } else { diff };
        Ok(nonneg(diff2))
    } else if u == "md"@ {
        let days = ed - sd;
        let prev_m = if em == 1 { 12 } else { em - 1 };
        let prev_y = if em == 1 { ey - 1 } else { ey };
        Ok(nonneg(if days < 0 { days + month_len(prev_y, prev_m) } else { days }))
    } else {
        Err(CellError::Num)
    }
}

/// The units of `DATEDIF` that read the calendar date of both serials.
pub open spec fn datedif_reads_dates(unit: Seq<char>) -> bool {
    let u = lower_seq(unit);
    u == "m"@ || u == "y"@ || u == "ym"@ || u == "yd"@ || u == "md"@
}

/// `DATEDIF` on whole-day serials.
pub fn datedif(start: i64, end: i64, unit: &str) -> (r: Result<i64, CellError>)
    requires
        datedif_reads_dates(unit@) ==> serial_in_calendar(start as int) && serial_in_calendar(
            end as int,
        ),
        start <= end ==> end - start <= i64::MAX,
    ensures
        match r {
            Ok(v) => spec_datedif(start as int, end as int, unit@) == Ok::<int, CellError>(v as int),
            Err(e) => spec_datedif(start as int, end as int, unit@) == Err::<int, CellError>(e),
        },
{
    if start > end {
        return Err(CellError::Num);
    }
    let lowered = crate::text::to_ascii_lowercase(unit);
    let u = lowered.as_str();
    if str_equals(u, "d") {
        return Ok(end - start);
    }
    if !(str_equals(u, "m") || str_equals(u, "y") || str_equals(u, "ym") || str_equals(u, "yd")
        || str_equals(u, "md")) {
        return Err(CellError::Num);
    }
    let (sy, sm, sd) = ymd_of(start);
    let (ey, em, ed) = ymd_of(end);
    let day_before: i32 = if ed < sd {
        1
    } else {
        0
    };
    if str_equals(u, "m") {
        let months = (ey - sy) * 12 + (em - sm) - day_before;
        Ok(
            if months < 0 {
                0
            } else {
                months as i64
            },
        )
    } else if str_equals(u, "y") {
        let mut years = ey - sy;
        if em < sm || (em == sm && ed < sd) {
            years -= 1;
        }
        Ok(
            if years < 0 {
                0
            } else {
                years as i64
            },
        )
    } else if str_equals(u, "ym") {
        let mut months = em - sm - day_before;
        if months < 0 {
            months += 12;
        }
        Ok(months as i64)
    } else if str_equals(u, "yd") {
        proof {
            assert(normalized_year(ey as int, sm as int) == ey);
            assert(normalized_year(ey - 1, sm as int) == ey - 1);
            crate::date::lemma_serial_bound(ey as int, sm as int, sd as int);
            crate::date::lemma_serial_bound(ey - 1, sm as int, sd as int);
        }
        let mut diff = end - serial_from_ymd(ey, sm, sd);
        if diff < 0 {
            diff = end - serial_from_ymd(ey - 1, sm, sd);
        }
        Ok(
            if diff < 0 {
                0
            } else {
                diff
            },
        )
    } else if str_equals(u, "md") {
        let mut days = ed - sd;
        if days < 0 {
            let prev_m = if em == 1 {
                12
            } else {
                em - 1
            };
            let prev_y = if em == 1 {
                ey - 1
            } else {
                ey
            };
            days += month_days_for_excel(prev_y, prev_m);
        }
        Ok(
            if days < 0 {
                0
            } else {
                days as i64
            },
        )
    } else {
        Err(CellError::Num)
    }
}

/// Whole years are the whole months divided by 12.
pub proof fn law_datedif_years_are_months_div_12(start: int, end: int)
    requires
        start <= end,
    ensures
        spec_datedif(start, end, "y"@) matches Ok(y) && spec_datedif(start, end, "m"@) matches Ok(
            m,
        ) && y == m / 12,
{
    let (sy, sm, sd) = spec_year_month_day(start);
    let (ey, em, ed) = spec_year_month_day(end);
    assert(lower_seq("y"@) == "y"@) by {
        reveal_strlit("y");
        assert(lower_seq("y"@) =~= "y"@);
    }
    assert(lower_seq("m"@) == "m"@) by {
        reveal_strlit("m");
        assert(lower_seq("m"@) =~= "m"@);
    }
    assert("y"@ != "d"@) by {
        reveal_strlit("y");
        reveal_strlit("d");
        assert("y"@[0] != "d"@[0]);
    }
    assert("y"@ != "m"@) by {
        reveal_strlit("y");
        reveal_strlit("m");
        assert("y"@[0] != "m"@[0]);
    }
    assert("m"@ != "d"@) by {
        reveal_strlit("m");
        reveal_strlit("d");
        assert("m"@[0] != "d"@[0]);
    }
    lemma_year_month_day_range(start);
    lemma_year_month_day_range(end);
    let day_before = if ed < sd { 1int } else { 0int };
    let months = (ey - sy) * 12 + (em - sm) - day_before;
    let before = if em < sm || (em == sm && ed < sd) { 1int } else { 0int };
    let years = ey - sy - before;
    assert(years == months / 12) by (nonlinear_arith)
        requires
            months == (ey - sy) * 12 + (em - sm) - day_before,
            years == ey - sy - before,
            1 <= sm <= 12,
            1 <= em <= 12,
            day_before == 0 || day_before == 1,
            before == (if em < sm || (em == sm && day_before == 1) { 1int } else { 0int }),
    ;
    assert(nonneg(years) == nonneg(months) / 12);
}

proof fn lemma_unit_names_differ()
    ensures
        lower_seq("m"@) == "m"@,
        lower_seq("ym"@) == "ym"@,
        lower_seq("yd"@) == "yd"@,
        "m"@ != "d"@,
        "ym"@ != "d"@,
        "ym"@ != "m"@,
        "ym"@ != "y"@,
        "yd"@ != "d"@,
        "yd"@ != "m"@,
        "yd"@ != "y"@,
        "yd"@ != "ym"@,
        lower_seq("md"@) == "md"@,
        "md"@ != "d"@,
        "md"@ != "m"@,
        "md"@ != "y"@,
        "md"@ != "ym"@,
        "md"@ != "yd"@,
{
    reveal_strlit("m");
    reveal_strlit("d");
    reveal_strlit("y");
    reveal_strlit("ym");
    reveal_strlit("yd");
    assert(lower_seq("m"@) =~= "m"@);
    assert(lower_seq("ym"@) =~= "ym"@);
    assert(lower_seq("yd"@) =~= "yd"@);
    assert("m"@[0] != "d"@[0]);
    assert("ym"@.len() != "d"@.len());
    assert("ym"@.len() != "m"@.len());
    assert("ym"@.len() != "y"@.len());
    assert("yd"@.len() != "d"@.len());
    assert("yd"@.len() != "m"@.len());
    assert("yd"@.len() != "y"@.len());
    assert("yd"@[1] != "ym"@[1]);
    reveal_strlit("md");
    assert(lower_seq("md"@) =~= "md"@);
    assert("md"@.len() != "d"@.len());
    assert("md"@.len() != "m"@.len());
    assert("md"@.len() != "y"@.len());
    assert("md"@[0] != "ym"@[0]);
    assert("md"@[0] != "yd"@[0]);
}

/// Months ignoring years are the whole months modulo 12: a month counts
/// only once the end day reaches the start day.
pub proof fn law_datedif_ym_is_months_mod_12(start: int, end: int)
    requires
        start <= end,
    ensures
        spec_datedif(start, end, "ym"@) matches Ok(ym) && spec_datedif(start, end, "m"@) matches Ok(
            m,
        ) && ym == m % 12,
{
    lemma_unit_names_differ();
    lemma_dates_ordered(start, end);
    lemma_year_month_day_range(start);
    lemma_year_month_day_range(end);
    let (sy, sm, sd) = spec_year_month_day(start);
    let (ey, em, ed) = spec_year_month_day(end);
    let day_before = if ed < sd { 1int } else { 0int };
    let months = (ey - sy) * 12 + (em - sm) - day_before;
    let short = em - sm - day_before;
    assert(months >= 0) by (nonlinear_arith)
        requires
            months == (ey - sy) * 12 + (em - sm) - day_before,
            sy < ey || (sy == ey && (sm < em || (sm == em && sd <= ed))),
            1 <= sm <= 12,
            1 <= em <= 12,
            day_before == (if ed < sd { 1int } else { 0int }),
    ;
    assert((if short < 0 { short + 12 } else { short }) == months % 12) by (nonlinear_arith)
        requires
            months == (ey - sy) * 12 + short,
            -12 <= short <= 11,
            months >= 0,
    ;
}

/// Days ignoring years count from the most recent anniversary of the start
/// date (its month and day) on or before the end date: this year's if it
/// has come, else last year's.
pub proof fn law_datedif_yd_counts_from_last_anniversary(start: int, end: int)
    requires
        1 <= start <= end,
        end <= 0x8000_0000,
    ensures
        spec_datedif(start, end, "yd"@) matches Ok(r) && ({
            let (sy, sm, sd) = spec_year_month_day(start);
            let ey = spec_year_month_day(end).0;
            let this_year = spec_serial_from_ymd(ey, sm, sd);
            let last_year = spec_serial_from_ymd(ey - 1, sm, sd);
            &&& r >= 0
            &&& this_year <= end ==> r == end - this_year
            &&& this_year > end ==> last_year <= end && r == end - last_year
        }),
{
    lemma_unit_names_differ();
    lemma_dates_ordered(start, end);
    let (sy, sm, sd) = spec_year_month_day(start);
    let (ey, em, ed) = spec_year_month_day(end);
    let this_year = spec_serial_from_ymd(ey, sm, sd);
    let last_year = spec_serial_from_ymd(ey - 1, sm, sd);
    law_serial_date_serial_round_trip(start);
    if start != 60 {
        lemma_year_month_day_is_date(start);
    }
    if sy < ey && this_year > end {
        assert(end != 60);
        lemma_anniversary_before_next_year(ey - 1, sm, sd, end);
    }
}

/// `EDATE` lands in the month `months` months on, on the same day, or on the
/// last day of that month when it is shorter.
pub proof fn law_edate_keeps_the_day(serial: int, months: int)
    requires
        1 <= serial <= 0x8000_0000,
        1900 <= month_shift(
            spec_year_month_day(serial).0,
            spec_year_month_day(serial).1,
            months,
        ).0 <= 1000000,
    ensures
        ({
            let (y, m, d) = spec_year_month_day(serial);
            let (ny, nm) = month_shift(y, m, months);
            spec_year_month_day(spec_edate(serial, months)) == (ny, nm, if d < month_len(ny, nm) {
                d
            } else {
                month_len(ny, nm)
            })
        }),
{
    let (y, m, d) = spec_year_month_day(serial);
    let (ny, nm) = month_shift(y, m, months);
    if serial != 60 {
        lemma_year_month_day_is_date(serial);
    }
    let t = y * 12 + (m - 1) + months;
    assert(1 <= t % 12 + 1 <= 12) by (nonlinear_arith);
    let kept = if d < month_len(ny, nm) { d } else { month_len(ny, nm) };
    assert(valid_date(ny, nm, kept));
    law_date_serial_date_round_trip(ny, nm, kept);
}

/// The three `WEEKDAY` numberings agree: type 1 counts Sunday = 1 to
/// Saturday = 7, type 2 is the same days from Monday = 1, and type 3 is type
/// 2 less one.
pub proof fn law_weekday_types_agree(serial: int)
    ensures
        spec_weekday_typed(serial, 1) matches Ok(a) && spec_weekday_typed(serial, 2) matches Ok(b)
            && spec_weekday_typed(serial, 3) matches Ok(c) && 1 <= a <= 7 && b == (a + 5) % 7 + 1
            && c == b - 1,
{
}

/// `WEEKDAY` walks the week: serial 1 (Sunday, January 1, 1900) is day 1 of
/// type 1, and each next serial is the next day of the week.
pub proof fn law_weekday_walks_the_week(serial: int)
    requires
        serial >= 1,
    ensures
        spec_weekday_typed(1, 1) == Ok::<int, CellError>(1),
        spec_weekday_typed(serial, 1) matches Ok(a) && spec_weekday_typed(serial + 1, 1) matches Ok(
            b,
        ) && b == a % 7 + 1,
{
}

/// The date `k` months after `(y, m)` on day `d`, the day kept as it is.
pub open spec fn months_on(y: int, m: int, d: int, k: int) -> (int, int, int) {
    (month_shift(y, m, k).0, month_shift(y, m, k).1, d)
}

/// Whole months are how many times the start's month can move on, keeping
/// its day, without passing the end date.
pub proof fn law_datedif_m_counts_whole_months(start: int, end: int)
    requires
        start <= end,
    ensures
        spec_datedif(start, end, "m"@) matches Ok(k) && ({
            let (sy, sm, sd) = spec_year_month_day(start);
            &&& k >= 0
            &&& date_le(months_on(sy, sm, sd, k), spec_year_month_day(end))
            &&& !date_le(months_on(sy, sm, sd, k + 1), spec_year_month_day(end))
        }),
{
    lemma_unit_names_differ();
    lemma_dates_ordered(start, end);
    lemma_year_month_day_range(start);
    lemma_year_month_day_range(end);
    let (sy, sm, sd) = spec_year_month_day(start);
    let (ey, em, ed) = spec_year_month_day(end);
    let day_before = if ed < sd { 1int } else { 0int };
    let k = (ey - sy) * 12 + (em - sm) - day_before;
    assert(k >= 0) by (nonlinear_arith)
        requires
            k == (ey - sy) * 12 + (em - sm) - day_before,
            sy < ey || (sy == ey && (sm < em || (sm == em && sd <= ed))),
            1 <= sm <= 12,
            1 <= em <= 12,
            day_before == (if ed < sd { 1int } else { 0int }),
    ;
    let t = sy * 12 + (sm - 1) + k;
    let t1 = t + 1;
    assert(t == ey * 12 + (em - 1) - day_before);
    if day_before == 0 {
        assert(t / 12 == ey && t % 12 == em - 1) by (nonlinear_arith)
            requires
                t == ey * 12 + (em - 1),
                1 <= em <= 12,
        ;
        if em < 12 {
            assert(t1 / 12 == ey && t1 % 12 == em) by (nonlinear_arith)
                requires
                    t1 == ey * 12 + em,
                    1 <= em < 12,
            ;
        } else {
            assert(t1 / 12 == ey + 1 && t1 % 12 == 0) by (nonlinear_arith)
                requires
                    t1 == ey * 12 + 12,
            ;
        }
    } else {
        if em > 1 {
            assert(t / 12 == ey && t % 12 == em - 2) by (nonlinear_arith)
                requires
                    t == ey * 12 + (em - 2),
                    2 <= em <= 12,
            ;
        } else {
            assert(t / 12 == ey - 1 && t % 12 == 11) by (nonlinear_arith)
                requires
                    t == ey * 12 - 1,
            ;
        }
        assert(t1 / 12 == ey && t1 % 12 == em - 1) by (nonlinear_arith)
            requires
                t1 == ey * 12 + (em - 1),
                1 <= em <= 12,
        ;
    }
}

/// A workday is a serial whose `WEEKDAY` (Monday = 1 numbering) is 1 to 5.
pub proof fn law_workdays_are_monday_to_friday(serial: int)
    ensures
        spec_weekday_typed(serial, 2) matches Ok(w) && (is_workday(serial) <==> 1 <= w <= 5),
{
}

/// Months of a serial's date are in `1..=12`.
proof fn lemma_year_month_day_range(serial: int)
    ensures
        1 <= spec_year_month_day(serial).1 <= 12,
{
    if serial >= 1 && serial != 60 {
        lemma_year_month_day_is_date(serial);
    }
}

/// A serial falls on Monday to Friday.
pub open spec fn is_workday(serial: int) -> bool {
    raw_weekday(serial) != 0 && raw_weekday(serial) != 6
}

/// Monday-to-Friday serials in `lo..=hi`.
pub open spec fn count_workdays(lo: int, hi: int) -> int
    decreases hi + 1 - lo,
{
    if hi < lo {
        0
    } else {
        count_workdays(lo, hi - 1) + if is_workday(hi) { 1int } else { 0int }
    }
}

/// `NETWORKDAYS(start, end)`: working days from start to end, both
/// included, negative when end comes first.
pub open spec fn spec_networkdays(start: int, end: int) -> int {
    if start <= end {
        count_workdays(start, end)
    } else {
        -count_workdays(end, start)
    }
}

/// Serials whose day is exact as an `f64`.
pub open spec fn exact_in_f64(serial: int) -> bool {
    -0x20_0000_0000_0000 <= serial <= 0x20_0000_0000_0000
}

proof fn lemma_count_bounds(lo: int, hi: int)
    ensures
        0 <= count_workdays(lo, hi),
        lo <= hi ==> count_workdays(lo, hi) <= hi - lo + 1,
    decreases hi + 1 - lo,
{
    if hi >= lo {
        lemma_count_bounds(lo, hi - 1);
    }
}

proof fn lemma_count_split(a: int, b: int, c: int)
    requires
        a - 1 <= b <= c,
    ensures
        count_workdays(a, c) == count_workdays(a, b) + count_workdays(b + 1, c),
    decreases c - b,
{
    if b < c {
        lemma_count_split(a, b, c - 1);
    }
}

/// Every week from serial 1 on has five working days.
pub proof fn law_week_has_five_workdays(s: int)
    requires
        s >= 1,
    ensures
        count_workdays(s, s + 6) == 5,
{
    let w = (s - 1) % 7;
    assert forall|k: int| 0 <= k <= 6 implies #[trigger] raw_weekday(s + k) == (w + k) % 7 by {
        vstd::arithmetic::div_mod::lemma_add_mod_noop(s - 1, k, 7);
        vstd::arithmetic::div_mod::lemma_small_mod(k as nat, 7);
    }
    vstd::arithmetic::div_mod::lemma_mod_bound(s - 1, 7);
    reveal_with_fuel(count_workdays, 8);
    assert(raw_weekday(s) == (w + 0) % 7);
    assert(raw_weekday(s + 1) == (w + 1) % 7);
    assert(raw_weekday(s + 2) == (w + 2) % 7);
    assert(raw_weekday(s + 3) == (w + 3) % 7);
    assert(raw_weekday(s + 4) == (w + 4) % 7);
    assert(raw_weekday(s + 5) == (w + 5) % 7);
    assert(raw_weekday(s + 6) == (w + 6) % 7);
    assert(count_workdays(s, s - 1) == 0);
}

proof fn lemma_weeks(s: int, k: nat)
    requires
        s >= 1,
    ensures
        count_workdays(s, s + 7 * k - 1) == 5 * k,
    decreases k,
{
    if k > 0 {
        lemma_weeks(s, (k - 1) as nat);
        law_week_has_five_workdays(s + 7 * (k - 1));
        lemma_count_split(s, s + 7 * (k - 1) - 1, s + 7 * k - 1);
    }
}

/// `NETWORKDAYS` on whole-day serials.
pub fn networkdays(start: i64, end: i64) -> (r: i64)
    requires
        exact_in_f64(start as int),
        exact_in_f64(end as int),
    ensures
        r == spec_networkdays(start as int, end as int),
{
    let (lo, hi, sign) = if start <= end {
        (start, end, 1i64)
    } else {
        (end, start, -1i64)
    };
    let mut count: i64 = 0;
    let mut day: i64 = lo;
    while day <= hi
        invariant
            lo <= day <= hi + 1,
            exact_in_f64(lo as int),
            exact_in_f64(hi as int),
            count == count_workdays(lo as int, day - 1),
            0 <= count <= day - lo,
        decreases hi + 1 - day,
    {
        proof {
            lemma_count_bounds(lo as int, day - 1);
        }
        let wd = weekday_of_serial(day);
        if wd != 0 && wd != 6 {
            count += 1;
        }
        day += 1;
    }
    count * sign
}

/// `WORKDAY(start, days)`: the serial `days` working days after `start`
/// (before it when `days` is negative); `start` itself for zero days.
pub fn workday(start: i64, days: i64) -> (r: i64)
    requires
        days > i64::MIN,
        days >= 0 ==> exact_in_f64(start as int) && (if start > 0 { start as int } else { 0 }) + 7
            * days <= 0x20_0000_0000_0000,
        days < 0 ==> exact_in_f64(start as int) && count_workdays(1, start - 1) >= -days,
    ensures
        days == 0 ==> r == start,
        days > 0 ==> is_workday(r as int) && count_workdays(start + 1, r as int) == days,
        days < 0 ==> is_workday(r as int) && count_workdays(r as int, start - 1) == -days,
{
    let mut current = start;
    if days >= 0 {
        let ghost m: int = if start > 0 { start as int } else { 0 };
        let ghost bound: int = m + 7 * days;
        proof {
            lemma_weeks(m + 1, days as nat);
            lemma_count_split(start + 1, m, bound);
            lemma_count_bounds(start + 1, m);
        }
        let mut remaining = days;
        while remaining > 0
            invariant
                0 <= remaining <= days,
                start <= current <= bound,
                bound <= 0x20_0000_0000_0000,
                count_workdays(start + 1, current as int) == days - remaining,
                count_workdays(current + 1, bound) >= remaining,
                remaining == 0 && days > 0 ==> is_workday(current as int),
                days == 0 ==> current == start,
            decreases bound - current,
        {
            proof {
                if current + 1 > bound {
                    assert(count_workdays(current + 1, bound) == 0);
                }
                lemma_count_split(current + 1, current + 1, bound);
                lemma_count_split(start + 1, current as int, current + 1);
                assert(count_workdays(current + 1, current as int) == 0);
                assert(count_workdays(current + 2, current + 1) == 0);
            }
            current += 1;
            let wd = weekday_of_serial(current);
            if wd != 0 && wd != 6 {
                remaining -= 1;
            }
        }
        current
    } else {
        let mut remaining = -days;
        while remaining > 0
            invariant
                0 <= remaining <= -days,
                1 <= current <= start,
                count_workdays(current as int, start - 1) == -days - remaining,
                count_workdays(1, current - 1) >= remaining,
                remaining == 0 ==> is_workday(current as int),
            decreases current,
        {
            proof {
                if current - 1 < 1 {
                    assert(count_workdays(1, current - 1) == 0);
                }
                lemma_count_split(1, current - 2, current - 1);
                lemma_count_split(current - 1, current - 1, start - 1);
            }
            current -= 1;
            let wd = weekday_of_serial(current);
            if wd != 0 && wd != 6 {
                remaining -= 1;
            }
        }
        current
    }
}

/// `NETWORKDAYS` counts both ends: swapping them negates the count (a
/// single day counts 1 or 0), and the days of a range split at any day add
/// up.
pub proof fn law_networkdays_counts_both_ends(a: int, b: int, c: int)
    requires
        a <= b < c,
    ensures
        spec_networkdays(b, a) == if a == b {
            spec_networkdays(a, b)
        } else {
            -spec_networkdays(a, b)
        },
        spec_networkdays(a, a) == if is_workday(a) {
            1int
        } else {
            0int
        },
        spec_networkdays(a, c) == spec_networkdays(a, b) + spec_networkdays(b + 1, c),
{
    assert(count_workdays(a, a - 1) == 0);
    lemma_count_split(a, b, c);
}

/// The month before `(y, m)`.
pub open spec fn month_before(y: int, m: int) -> (int, int) {
    if m == 1 {
        (y - 1, 12)
    } else {
        (y, m - 1)
    }
}

/// Days ignoring months and years count from the most recent monthly
/// anniversary of the start day on or before the end date: this month's
/// when the end day has reached the start day, else last month's (where
/// last month has that day, and the fake February 29, 1900 does not lie
/// between).
pub proof fn law_datedif_md_counts_from_monthly_anniversary(start: int, end: int)
    requires
        1 <= start <= end,
        end <= 0x8000_0000,
    ensures
        spec_datedif(start, end, "md"@) matches Ok(r) && ({
            let sd = spec_year_month_day(start).2;
            let (ey, em, ed) = spec_year_month_day(end);
            let (py, pm) = month_before(ey, em);
            &&& sd <= ed ==> r == end - spec_serial_from_ymd(ey, em, sd)
            &&& (sd > ed && sd <= month_len(py, pm) && !(ey == 1900 && em == 3)) ==> r == end
                - spec_serial_from_ymd(py, pm, sd)
        }),
{
    lemma_unit_names_differ();
    lemma_dates_ordered(start, end);
    let (sy, sm, sd) = spec_year_month_day(start);
    let (ey, em, ed) = spec_year_month_day(end);
    let (py, pm) = month_before(ey, em);
    law_serial_date_serial_round_trip(start);
    law_serial_date_serial_round_trip(end);
    if start != 60 {
        lemma_year_month_day_is_date(start);
    }
    if end == 60 {
        assert(ey == 1900 && em == 2 && ed == 29);
        assert(sy == 1900 && sm <= 2);
        assert(spec_serial_from_ymd(1900, 1, sd) == sd);
        if sd <= 28 {
            assert(valid_date(1900, 2, sd));
            assert(spec_serial_from_ymd(1900, 2, sd) == 31 + sd) by {
                reveal_with_fuel(days_before_month, 2);
            }
        }
    } else {
        lemma_year_month_day_is_date(end);
        if sd <= ed {
            lemma_serials_in_a_month(ey, em, sd, ed);
        } else if sd <= month_len(py, pm) && !(ey == 1900 && em == 3) {
            assert(!(sy == ey && sm == em));
            assert(py >= 1900);
            lemma_serials_across_a_month(py, pm, sd, ey, em, ed);
        }
    }
}

/// Within one calendar year, ignoring years changes nothing: the days are
/// the days ignoring years, the months the months ignoring years, and no
/// whole year has passed.
pub proof fn law_datedif_within_a_year(start: int, end: int)
    requires
        1 <= start <= end,
        spec_year_month_day(start).0 == spec_year_month_day(end).0,
    ensures
        spec_datedif(start, end, "d"@) == Ok::<int, CellError>(end - start),
        spec_datedif(start, end, "yd"@) == spec_datedif(start, end, "d"@),
        spec_datedif(start, end, "ym"@) == spec_datedif(start, end, "m"@),
        spec_datedif(start, end, "y"@) == Ok::<int, CellError>(0),
{
    lemma_unit_names_differ();
    assert(lower_seq("d"@) == "d"@) by {
        reveal_strlit("d");
        assert(lower_seq("d"@) =~= "d"@);
    }
    assert(lower_seq("y"@) == "y"@ && "y"@ != "d"@ && "y"@ != "m"@) by {
        reveal_strlit("y");
        reveal_strlit("d");
        reveal_strlit("m");
        assert(lower_seq("y"@) =~= "y"@);
        assert("y"@[0] != "d"@[0]);
        assert("y"@[0] != "m"@[0]);
    }
    lemma_dates_ordered(start, end);
    lemma_year_month_day_range(start);
    lemma_year_month_day_range(end);
    law_serial_date_serial_round_trip(start);
}

} // verus!
