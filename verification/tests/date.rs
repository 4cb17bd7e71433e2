use xlstream::date::{
    is_real_leap_year, month_days, month_days_for_excel, serial_from_ymd, weekday_of_serial,
    year_days, year_month_day_of_serial,
};

#[test]
fn leap_year_1900_is_not_real_leap() {
    assert!(!is_real_leap_year(1900));
}

#[test]
fn leap_year_2000_is_leap() {
    assert!(is_real_leap_year(2000));
}

#[test]
fn leap_year_2024_is_leap() {
    assert!(is_real_leap_year(2024));
}

#[test]
fn leap_year_2100_is_not_leap() {
    assert!(!is_real_leap_year(2100));
}

#[test]
fn leap_years_before_the_era() {
    assert!(is_real_leap_year(-4));
    assert!(!is_real_leap_year(-3));
    assert!(!is_real_leap_year(-100));
    assert!(is_real_leap_year(-400));
}

#[test]
fn serial_1_is_jan_1_1900() {
    assert_eq!(year_month_day_of_serial(1), (1900, 1, 1));
}

#[test]
fn serial_59_is_feb_28_1900() {
    assert_eq!(year_month_day_of_serial(59), (1900, 2, 28));
}

#[test]
fn serial_60_is_fake_feb_29_1900() {
    assert_eq!(year_month_day_of_serial(60), (1900, 2, 29));
}

#[test]
fn serial_61_is_mar_1_1900() {
    assert_eq!(year_month_day_of_serial(61), (1900, 3, 1));
}

#[test]
fn serial_36526_is_jan_1_2000() {
    assert_eq!(year_month_day_of_serial(36526), (2000, 1, 1));
}

#[test]
fn serial_44927_is_jan_1_2023() {
    assert_eq!(year_month_day_of_serial(44927), (2023, 1, 1));
}

#[test]
fn serial_0_returns_invalid() {
    assert_eq!(year_month_day_of_serial(0), (1900, 1, 0));
}

#[test]
fn serial_negative_returns_invalid() {
    assert_eq!(year_month_day_of_serial(-5), (1900, 1, 0));
}

#[test]
fn serial_366_is_dec_31_1900() {
    assert_eq!(year_month_day_of_serial(366), (1900, 12, 31));
}

#[test]
fn serial_367_is_jan_1_1901() {
    assert_eq!(year_month_day_of_serial(367), (1901, 1, 1));
}

fn ymd(y: i32, m: i32, d: i32) -> (i32, u32, u32) {
    year_month_day_of_serial(serial_from_ymd(y, m, d))
}

#[test]
fn from_ymd_roundtrip_2026_04_19() {
    assert_eq!(ymd(2026, 4, 19), (2026, 4, 19));
}

#[test]
fn from_ymd_month_rollover() {
    assert_eq!(ymd(2026, 13, 1), (2027, 1, 1));
}

#[test]
fn from_ymd_day_rollover() {
    assert_eq!(ymd(2026, 1, 32), (2026, 2, 1));
}

#[test]
fn from_ymd_negative_month_rollover() {
    assert_eq!(ymd(2026, 0, 1), (2025, 12, 1));
}

#[test]
fn from_ymd_fake_feb_29_1900() {
    assert_eq!(serial_from_ymd(1900, 2, 29), 60);
}

#[test]
fn from_ymd_leap_year_2024_feb_29() {
    assert_eq!(ymd(2024, 2, 29), (2024, 2, 29));
}

#[test]
fn from_ymd_jan_1_1900() {
    assert_eq!(serial_from_ymd(1900, 1, 1), 1);
}

#[test]
fn from_ymd_mar_1_1900() {
    assert_eq!(serial_from_ymd(1900, 3, 1), 61);
}

#[test]
fn from_ymd_large_month_rollover() {
    assert_eq!(ymd(2026, 25, 1), (2028, 1, 1));
}

#[test]
fn from_ymd_negative_day_rollover() {
    assert_eq!(ymd(2026, 2, 0), (2026, 1, 31));
}

#[test]
fn from_ymd_before_1900_and_far_negative_months() {
    assert_eq!(serial_from_ymd(1899, 12, 31), 0);
    assert_eq!(serial_from_ymd(1899, 12, 1), -30);
    assert_eq!(ymd(2026, -11, 1), (2025, 1, 1));
    assert_eq!(ymd(2026, -12, 1), (2024, 12, 1));
    assert_eq!(serial_from_ymd(2023, 1, 1), 44927);
}

#[test]
fn weekday_serial_1_is_sunday() {
    assert_eq!(weekday_of_serial(1), 0);
}

#[test]
fn weekday_serial_2_is_monday() {
    assert_eq!(weekday_of_serial(2), 1);
}

#[test]
fn weekday_serial_7_is_saturday() {
    assert_eq!(weekday_of_serial(7), 6);
}

#[test]
fn weekday_serial_8_is_sunday_again() {
    assert_eq!(weekday_of_serial(8), 0);
}

#[test]
fn weekday_zero_serial_fallback() {
    assert_eq!(weekday_of_serial(0), 0);
}

#[test]
fn month_tables() {
    assert_eq!(month_days(2024)[1], 29);
    assert_eq!(month_days(1900)[1], 28);
    assert_eq!(month_days(2023), [31, 28, 31, 30, 31, 30, 31, 31, 30, 31, 30, 31]);
    assert_eq!(year_days(2000), 366);
    assert_eq!(year_days(1900), 365);
    assert_eq!(month_days_for_excel(2024, 2), 29);
    assert_eq!(month_days_for_excel(2023, 4), 30);
    assert_eq!(month_days_for_excel(2023, 13), 30);
    assert_eq!(month_days_for_excel(2023, 0), 30);
}

#[test]
fn serial_and_date_round_trip_over_a_range() {
    for s in 1..80_000i64 {
        let (y, m, d) = year_month_day_of_serial(s);
        assert_eq!(serial_from_ymd(y, m as i32, d as i32), s);
    }
}
