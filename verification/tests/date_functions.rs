use xlstream::cell_error::CellError;
use xlstream::date::{serial_from_ymd, year_month_day_of_serial};
use xlstream::date_functions::{datedif, edate, eomonth, networkdays, weekday_typed, workday};

fn ymd(serial: i64) -> (i32, u32, u32) {
    year_month_day_of_serial(serial)
}

#[test]
fn weekday_type1_default_sunday_is_1() {
    assert_eq!(weekday_typed(1, 1), Ok(1));
}

#[test]
fn weekday_type1_saturday_is_7() {
    assert_eq!(weekday_typed(7, 1), Ok(7));
}

#[test]
fn weekday_type2_monday_is_1() {
    assert_eq!(weekday_typed(2, 2), Ok(1));
}

#[test]
fn weekday_type2_sunday_is_7() {
    assert_eq!(weekday_typed(1, 2), Ok(7));
}

#[test]
fn weekday_type3_monday_is_0() {
    assert_eq!(weekday_typed(2, 3), Ok(0));
}

#[test]
fn weekday_type3_sunday_is_6() {
    assert_eq!(weekday_typed(1, 3), Ok(6));
}

#[test]
fn weekday_invalid_type_returns_num_error() {
    assert_eq!(weekday_typed(1, 5), Err(CellError::Num));
}

#[test]
fn weekday_of_serial_zero_counts_as_sunday() {
    assert_eq!(weekday_typed(0, 1), Ok(1));
    assert_eq!(weekday_typed(-10, 2), Ok(7));
}

#[test]
fn edate_positive_months() {
    let jan31 = serial_from_ymd(2026, 1, 31);
    assert_eq!(ymd(edate(jan31, 1)), (2026, 2, 28));
}

#[test]
fn edate_negative_months() {
    let mar15 = serial_from_ymd(2026, 3, 15);
    assert_eq!(ymd(edate(mar15, -2)), (2026, 1, 15));
}

#[test]
fn edate_zero_months() {
    let jan15 = serial_from_ymd(2026, 1, 15);
    assert_eq!(ymd(edate(jan15, 0)), (2026, 1, 15));
}

#[test]
fn edate_leap_year_clamp() {
    let jan31 = serial_from_ymd(2024, 1, 31);
    assert_eq!(ymd(edate(jan31, 1)), (2024, 2, 29));
}

#[test]
fn edate_crosses_year_backwards() {
    let jan10 = serial_from_ymd(2026, 1, 10);
    assert_eq!(ymd(edate(jan10, -13)), (2024, 12, 10));
}

#[test]
fn eomonth_same_month() {
    let jan15 = serial_from_ymd(2026, 1, 15);
    assert_eq!(ymd(eomonth(jan15, 0)), (2026, 1, 31));
}

#[test]
fn eomonth_next_month() {
    let jan15 = serial_from_ymd(2026, 1, 15);
    assert_eq!(ymd(eomonth(jan15, 1)), (2026, 2, 28));
}

#[test]
fn eomonth_negative_months() {
    let mar15 = serial_from_ymd(2026, 3, 15);
    assert_eq!(ymd(eomonth(mar15, -1)), (2026, 2, 28));
}

#[test]
fn eomonth_leap_year_feb() {
    let jan15 = serial_from_ymd(2024, 1, 15);
    assert_eq!(ymd(eomonth(jan15, 1)), (2024, 2, 29));
}

#[test]
fn eomonth_exact_serial() {
    // Jan 31, 2023 is serial 44957.
    assert_eq!(eomonth(44927, 0), 44957);
}

#[test]
fn datedif_days() {
    let start = serial_from_ymd(2026, 1, 1);
    let end = serial_from_ymd(2026, 1, 31);
    assert_eq!(datedif(start, end, "d"), Ok(30));
}

#[test]
fn datedif_months() {
    let start = serial_from_ymd(2026, 1, 15);
    let end = serial_from_ymd(2026, 4, 15);
    assert_eq!(datedif(start, end, "m"), Ok(3));
}

#[test]
fn datedif_years() {
    let start = serial_from_ymd(2020, 6, 15);
    let end = serial_from_ymd(2026, 6, 15);
    assert_eq!(datedif(start, end, "y"), Ok(6));
}

#[test]
fn datedif_ym() {
    let start = serial_from_ymd(2020, 3, 15);
    let end = serial_from_ymd(2026, 6, 15);
    assert_eq!(datedif(start, end, "ym"), Ok(3));
}

#[test]
fn datedif_start_after_end_returns_num() {
    let start = serial_from_ymd(2026, 6, 1);
    let end = serial_from_ymd(2026, 1, 1);
    assert_eq!(datedif(start, end, "d"), Err(CellError::Num));
}

#[test]
fn datedif_invalid_unit() {
    let start = serial_from_ymd(2026, 1, 1);
    let end = serial_from_ymd(2026, 2, 1);
    assert_eq!(datedif(start, end, "x"), Err(CellError::Num));
}

#[test]
fn datedif_md_unit() {
    let start = serial_from_ymd(2026, 1, 15);
    let end = serial_from_ymd(2026, 3, 10);
    assert_eq!(datedif(start, end, "md"), Ok(23));
}

#[test]
fn datedif_yd_unit() {
    let start = serial_from_ymd(2020, 3, 1);
    let end = serial_from_ymd(2026, 6, 15);
    assert_eq!(datedif(start, end, "yd"), Ok(106));
}

#[test]
fn datedif_unit_is_case_insensitive() {
    let start = serial_from_ymd(2026, 1, 15);
    let end = serial_from_ymd(2026, 4, 15);
    assert_eq!(datedif(start, end, "M"), Ok(3));
    assert_eq!(datedif(start, end, "YM"), Ok(3));
}

#[test]
fn datedif_month_not_complete_until_day_reached() {
    let start = serial_from_ymd(2026, 1, 15);
    let end = serial_from_ymd(2026, 4, 14);
    assert_eq!(datedif(start, end, "m"), Ok(2));
    assert_eq!(datedif(start, end, "y"), Ok(0));
}

#[test]
fn datedif_years_match_months_over_twelve() {
    let start = serial_from_ymd(2001, 7, 20);
    for end in [serial_from_ymd(2026, 7, 19), serial_from_ymd(2026, 7, 20), serial_from_ymd(2030, 1, 1)] {
        let months = datedif(start, end, "m").unwrap();
        let years = datedif(start, end, "y").unwrap();
        assert_eq!(years, months / 12);
    }
}

#[test]
fn networkdays_one_week() {
    let start = serial_from_ymd(2026, 1, 5);
    let end = serial_from_ymd(2026, 1, 9);
    assert_eq!(networkdays(start, end), 5);
}

#[test]
fn networkdays_includes_weekends() {
    let start = serial_from_ymd(2026, 1, 5);
    let end = serial_from_ymd(2026, 1, 12);
    assert_eq!(networkdays(start, end), 6);
}

#[test]
fn networkdays_same_day_weekday() {
    let mon = serial_from_ymd(2026, 1, 5);
    assert_eq!(networkdays(mon, mon), 1);
}

#[test]
fn networkdays_same_day_weekend() {
    let sat = serial_from_ymd(2026, 1, 3);
    assert_eq!(networkdays(sat, sat), 0);
}

#[test]
fn networkdays_reverse_order_negative() {
    let start = serial_from_ymd(2026, 1, 9);
    let end = serial_from_ymd(2026, 1, 5);
    assert_eq!(networkdays(start, end), -5);
}

#[test]
fn networkdays_any_seven_days_hold_five() {
    for s in 1..30i64 {
        assert_eq!(networkdays(s, s + 6), 5);
    }
}

#[test]
fn workday_positive_days() {
    let start = serial_from_ymd(2026, 1, 5);
    assert_eq!(ymd(workday(start, 5)), (2026, 1, 12));
}

#[test]
fn workday_negative_days() {
    let start = serial_from_ymd(2026, 1, 12);
    assert_eq!(ymd(workday(start, -5)), (2026, 1, 5));
}

#[test]
fn workday_zero_days() {
    let start = serial_from_ymd(2026, 1, 5);
    assert_eq!(ymd(workday(start, 0)), (2026, 1, 5));
}

#[test]
fn workday_skips_weekends() {
    let start = serial_from_ymd(2026, 1, 9);
    assert_eq!(ymd(workday(start, 1)), (2026, 1, 12));
}

#[test]
fn workday_zero_days_keeps_a_weekend_start() {
    let sat = serial_from_ymd(2026, 1, 3);
    assert_eq!(workday(sat, 0), sat);
}

#[test]
fn datedif_days_beyond_the_calendar() {
    assert_eq!(datedif(10, 5_000_000_000, "D"), Ok(4_999_999_990));
    assert_eq!(datedif(5_000_000_000, 10, "d"), Err(CellError::Num));
    assert_eq!(datedif(10, 5_000_000_000, "q"), Err(CellError::Num));
}
