use xlstream::address::{a1_to_col_row, col_row_to_a1};

#[test]
fn a1_to_col_row_simple() {
    assert_eq!(a1_to_col_row("A1"), Some((0, 0)));
    assert_eq!(a1_to_col_row("B2"), Some((1, 1)));
    assert_eq!(a1_to_col_row("Z1"), Some((0, 25)));
}

#[test]
fn a1_to_col_row_multi_letter() {
    assert_eq!(a1_to_col_row("AA1"), Some((0, 26)));
    assert_eq!(a1_to_col_row("AZ1"), Some((0, 51)));
    assert_eq!(a1_to_col_row("BA1"), Some((0, 52)));
}

#[test]
fn a1_to_col_row_large_row() {
    assert_eq!(a1_to_col_row("A1048576"), Some((1_048_575, 0)));
}

#[test]
fn a1_to_col_row_invalid() {
    assert_eq!(a1_to_col_row(""), None);
    assert_eq!(a1_to_col_row("1A"), None);
    assert_eq!(a1_to_col_row("A0"), None);
    assert_eq!(a1_to_col_row("A"), None);
}

#[test]
fn a1_to_col_row_lowercase() {
    assert_eq!(a1_to_col_row("a1"), Some((0, 0)));
    assert_eq!(a1_to_col_row("ab10"), Some((9, 27)));
}

#[test]
#[allow(clippy::cast_possible_truncation)]
fn round_trip_col_row() {
    for col in [1u32, 2, 26, 27, 52, 702] {
        for row in [1u32, 2, 100, 1_048_576] {
            let a1 = col_row_to_a1(col, row);
            let (r, c) = a1_to_col_row(&a1).unwrap();
            assert_eq!((r, c), (row - 1, (col - 1) as u16), "round-trip failed for {a1}");
        }
    }
}

#[test]
fn col_row_to_a1_examples() {
    assert_eq!(col_row_to_a1(1, 1), "A1");
    assert_eq!(col_row_to_a1(3, 5), "C5");
    assert_eq!(col_row_to_a1(27, 1), "AA1");
    assert_eq!(col_row_to_a1(26, 10), "Z10");
    assert_eq!(col_row_to_a1(702, 3), "ZZ3");
    assert_eq!(col_row_to_a1(703, 3), "AAA3");
    assert_eq!(col_row_to_a1(0, 7), "7");
}

#[test]
fn a1_to_col_row_plus_sign_and_overflow() {
    // the row is read as `str::parse::<u32>` reads it
    assert_eq!(a1_to_col_row("A+5"), Some((4, 0)));
    assert_eq!(a1_to_col_row("A+"), None);
    assert_eq!(a1_to_col_row("A4294967295"), Some((4_294_967_294, 0)));
    assert_eq!(a1_to_col_row("A4294967296"), None);
    assert_eq!(a1_to_col_row("A1B"), None);
    // column beyond the u16 range
    assert_eq!(a1_to_col_row("CRXQ1"), None);
    assert_eq!(a1_to_col_row("CRXP1"), Some((0, 65_535)));
    assert_eq!(a1_to_col_row("crxo1"), Some((0, 65_534)));
    // column value beyond u32
    assert_eq!(a1_to_col_row("ZZZZZZZZ1"), None);
}

#[test]
fn round_trip_at_last_u16_column() {
    let a1 = col_row_to_a1(65_536, 9);
    assert_eq!(a1_to_col_row(&a1), Some((8, 65_535)));
    let beyond = col_row_to_a1(65_537, 9);
    assert_eq!(a1_to_col_row(&beyond), None);
}
