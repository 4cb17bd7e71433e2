use xlstream::cell_error::CellError;
use xlstream::coerce::text_to_bool;
use xlstream::text::trim_str;
use xlstream::text_functions::{char_count, left_text, mid_text, right_text};

#[test]
fn left_default_one_char() {
    assert_eq!(left_text("Hello", 1), "H");
}

#[test]
fn left_explicit_count() {
    assert_eq!(left_text("Hello", 3), "Hel");
}

#[test]
fn left_count_exceeds_length() {
    assert_eq!(left_text("Hi", 10), "Hi");
}

#[test]
fn left_zero_count_returns_empty() {
    assert_eq!(left_text("Hello", 0), "");
}

#[test]
fn left_empty_string() {
    assert_eq!(left_text("", 1), "");
}

#[test]
fn left_counts_characters_not_bytes() {
    assert_eq!(left_text("héllo", 2), "hé");
}

#[test]
fn right_default_one_char() {
    assert_eq!(right_text("Hello", 1), "o");
}

#[test]
fn right_explicit_count() {
    assert_eq!(right_text("Hello", 3), "llo");
}

#[test]
fn right_count_exceeds_length() {
    assert_eq!(right_text("Hi", 10), "Hi");
}

#[test]
fn right_zero_count_returns_empty() {
    assert_eq!(right_text("Hello", 0), "");
}

#[test]
fn right_empty_string() {
    assert_eq!(right_text("", 1), "");
}

#[test]
fn mid_basic_substring() {
    assert_eq!(mid_text("Hello World", 7, 5), Ok("World".to_string()));
}

#[test]
fn mid_start_beyond_length() {
    assert_eq!(mid_text("Hi", 10, 5), Ok(String::new()));
}

#[test]
fn mid_count_exceeds_remaining() {
    assert_eq!(mid_text("Hello", 4, 100), Ok("lo".to_string()));
}

#[test]
fn mid_start_zero_returns_value_error() {
    assert_eq!(mid_text("Hello", 0, 1), Err(CellError::Value));
}

#[test]
fn mid_from_one_matches_left() {
    for n in 0..8 {
        assert_eq!(mid_text("Hello", 1, n), Ok(left_text("Hello", n)));
    }
}

#[test]
fn left_and_mid_rebuild_the_text() {
    let s = "spreadsheet";
    for k in 0..15 {
        let rebuilt = format!("{}{}", left_text(s, k), mid_text(s, k + 1, s.len()).unwrap());
        assert_eq!(rebuilt, s);
    }
}

#[test]
fn len_basic_string() {
    assert_eq!(char_count("Hello"), 5);
}

#[test]
fn len_empty_string() {
    assert_eq!(char_count(""), 0);
}

#[test]
fn len_counts_characters() {
    assert_eq!(char_count("日本"), 2);
}

#[test]
fn trim_removes_unicode_white_space() {
    assert_eq!(trim_str("  a b \t\n"), "a b");
    assert_eq!(trim_str("\u{3000}x\u{a0}"), "x");
    assert_eq!(trim_str("   "), "");
    assert_eq!(trim_str("x"), "x");
}

#[test]
fn text_to_bool_reads_boolean_words() {
    assert_eq!(text_to_bool("TRUE"), Ok(true));
    assert_eq!(text_to_bool("true"), Ok(true));
    assert_eq!(text_to_bool("False"), Ok(false));
    assert_eq!(text_to_bool("yes"), Err(CellError::Value));
    assert_eq!(text_to_bool(" true"), Err(CellError::Value));
}
