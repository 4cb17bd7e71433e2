use xlstream::cell_error::CellError;
use xlstream::engineering::{dec2hex_value, hex2dec_text};

#[test]
fn hex2dec_basic() {
    assert_eq!(hex2dec_text("FF"), Ok(255));
    assert_eq!(hex2dec_text("A5"), Ok(165));
    assert_eq!(hex2dec_text("0"), Ok(0));
    assert_eq!(hex2dec_text("1"), Ok(1));
}

#[test]
fn hex2dec_max_positive() {
    assert_eq!(hex2dec_text("7FFFFFFFFF"), Ok(549_755_813_887));
}

#[test]
fn hex2dec_negative_twos_complement() {
    assert_eq!(hex2dec_text("FFFFFFFFFF"), Ok(-1));
    assert_eq!(hex2dec_text("8000000000"), Ok(-549_755_813_888));
    assert_eq!(hex2dec_text("FFFFFFFF00"), Ok(-256));
}

#[test]
fn hex2dec_case_insensitive() {
    assert_eq!(hex2dec_text("ff"), Ok(255));
}

#[test]
fn hex2dec_leading_zeros() {
    assert_eq!(hex2dec_text("0000000001"), Ok(1));
}

#[test]
fn hex2dec_empty_string_returns_num_error() {
    assert_eq!(hex2dec_text(""), Err(CellError::Num));
}

#[test]
fn hex2dec_invalid_hex_char_returns_num_error() {
    assert_eq!(hex2dec_text("G1"), Err(CellError::Num));
}

#[test]
fn hex2dec_too_long_returns_num_error() {
    assert_eq!(hex2dec_text("1FFFFFFFFFF"), Err(CellError::Num));
}

#[test]
fn hex2dec_nine_digits_stay_positive() {
    assert_eq!(hex2dec_text("FFFFFFFFF"), Ok(68_719_476_735));
}

#[test]
fn hex2dec_non_ascii_is_num_error() {
    assert_eq!(hex2dec_text("é"), Err(CellError::Num));
}

#[test]
fn dec2hex_basic() {
    assert_eq!(dec2hex_value(255, None), Ok("FF".to_string()));
    assert_eq!(dec2hex_value(0, None), Ok("0".to_string()));
    assert_eq!(dec2hex_value(165, None), Ok("A5".to_string()));
}

#[test]
fn dec2hex_max_positive() {
    assert_eq!(dec2hex_value(549_755_813_887, None), Ok("7FFFFFFFFF".to_string()));
}

#[test]
fn dec2hex_with_places() {
    assert_eq!(dec2hex_value(255, Some(4)), Ok("00FF".to_string()));
    assert_eq!(dec2hex_value(255, Some(2)), Ok("FF".to_string()));
    assert_eq!(dec2hex_value(0, Some(4)), Ok("0000".to_string()));
    assert_eq!(dec2hex_value(1, Some(10)), Ok("0000000001".to_string()));
}

#[test]
fn dec2hex_negative_twos_complement() {
    assert_eq!(dec2hex_value(-1, None), Ok("FFFFFFFFFF".to_string()));
    assert_eq!(dec2hex_value(-549_755_813_888, None), Ok("8000000000".to_string()));
    assert_eq!(dec2hex_value(-256, None), Ok("FFFFFFFF00".to_string()));
}

#[test]
fn dec2hex_zero_with_single_place() {
    assert_eq!(dec2hex_value(0, Some(1)), Ok("0".to_string()));
}

#[test]
fn dec2hex_out_of_range() {
    assert_eq!(dec2hex_value(549_755_813_888, None), Err(CellError::Num));
    assert_eq!(dec2hex_value(-549_755_813_889, None), Err(CellError::Num));
}

#[test]
fn dec2hex_places_too_small() {
    assert_eq!(dec2hex_value(255, Some(1)), Err(CellError::Num));
}

#[test]
fn dec2hex_places_out_of_bounds() {
    assert_eq!(dec2hex_value(255, Some(0)), Err(CellError::Num));
    assert_eq!(dec2hex_value(255, Some(11)), Err(CellError::Num));
}

#[test]
fn dec2hex_negative_with_places_too_small() {
    assert_eq!(dec2hex_value(-1, Some(2)), Err(CellError::Num));
}

#[test]
fn hex_round_trip_on_samples() {
    for n in [-549_755_813_888i64, -256, -1, 0, 1, 165, 255, 4096, 549_755_813_887] {
        let text = dec2hex_value(n, None).unwrap();
        assert_eq!(hex2dec_text(&text), Ok(n));
    }
}
