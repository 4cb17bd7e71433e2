use std::collections::HashMap;

use xlstream::lookup::{CaseFoldedText, LookupValue};
use xlstream::lookup_sheet::LookupSheet;

/// The key of a number: its place in the total order of `f64` values.
fn num(x: f64) -> Option<LookupValue> {
    let x = if x == 0.0 { 0.0 } else { x };
    let bits = x.to_bits() as i64;
    Some(LookupValue::Number(bits ^ ((((bits >> 63) as u64) >> 1) as i64)))
}

fn text(s: &str) -> Option<LookupValue> {
    Some(LookupValue::Text(CaseFoldedText::new(s)))
}

fn key(k: Option<LookupValue>) -> LookupValue {
    k.unwrap()
}

fn sample_rows() -> Vec<Vec<Option<LookupValue>>> {
    vec![
        vec![text("EMEA"), num(100.0), text("Europe")],
        vec![text("APAC"), num(200.0), text("Asia")],
        vec![text("AMER"), num(300.0), text("Americas")],
    ]
}

#[test]
fn col_index_exact_hit() {
    let mut sheet = LookupSheet::new(sample_rows());
    sheet.build_col_index(0);
    assert_eq!(sheet.col_lookup(0, &key(text("apac"))), Some(1));
}

#[test]
fn col_index_exact_miss() {
    let mut sheet = LookupSheet::new(sample_rows());
    sheet.build_col_index(0);
    assert_eq!(sheet.col_lookup(0, &key(text("LATAM"))), None);
}

#[test]
fn col_index_first_match_wins() {
    let rows = vec![vec![text("A"), num(1.0)], vec![text("A"), num(2.0)]];
    let mut sheet = LookupSheet::new(rows);
    sheet.build_col_index(0);
    assert_eq!(sheet.col_lookup(0, &key(text("A"))), Some(0));
}

#[test]
fn col_lookup_without_index_is_none() {
    let sheet = LookupSheet::new(sample_rows());
    assert_eq!(sheet.col_lookup(0, &key(text("EMEA"))), None);
}

#[test]
fn col_index_skips_cells_without_key() {
    let rows = vec![vec![None], vec![text("x")], vec![], vec![num(3.0)]];
    let mut sheet = LookupSheet::new(rows);
    sheet.build_col_index(0);
    assert_eq!(sheet.col_lookup(0, &key(text("X"))), Some(1));
    assert_eq!(sheet.col_lookup(0, &key(num(3.0))), Some(3));
    assert_eq!(sheet.col_lookup(0, &key(num(4.0))), None);
}

#[test]
fn row_index_for_hlookup() {
    let rows = vec![
        vec![text("Name"), text("Age"), text("City")],
        vec![text("Alice"), num(30.0), text("NYC")],
    ];
    let mut sheet = LookupSheet::new(rows);
    sheet.build_row_index(0);
    assert_eq!(sheet.row_lookup(0, &key(text("age"))), Some(1));
    assert_eq!(sheet.row_lookup(1, &key(text("alice"))), None);
}

#[test]
fn row_index_past_last_row_is_empty() {
    let mut sheet = LookupSheet::new(sample_rows());
    sheet.build_row_index(7);
    assert_eq!(sheet.row_lookup(7, &key(text("EMEA"))), None);
}

#[test]
fn num_rows_and_cols() {
    let sheet = LookupSheet::new(sample_rows());
    assert_eq!(sheet.num_rows(), 3);
    assert_eq!(sheet.num_cols(), 3);
    let empty = LookupSheet::new(Vec::new());
    assert_eq!(empty.num_rows(), 0);
    assert_eq!(empty.num_cols(), 0);
}

#[test]
fn col_approx_lookup_finds_largest_lte() {
    let rows = vec![
        vec![num(10.0), text("ten")],
        vec![num(20.0), text("twenty")],
        vec![num(30.0), text("thirty")],
    ];
    let mut sheet = LookupSheet::new(rows);
    sheet.build_col_sorted(0);
    assert_eq!(sheet.col_approx_lookup(0, &key(num(25.0))), Some(1));
}

#[test]
fn col_approx_lookup_below_first_returns_none() {
    let rows = vec![vec![num(10.0)], vec![num(20.0)]];
    let mut sheet = LookupSheet::new(rows);
    sheet.build_col_sorted(0);
    assert_eq!(sheet.col_approx_lookup(0, &key(num(5.0))), None);
}

#[test]
fn col_approx_lookup_exact_hit() {
    let rows = vec![vec![num(10.0)], vec![num(20.0)]];
    let mut sheet = LookupSheet::new(rows);
    sheet.build_col_sorted(0);
    assert_eq!(sheet.col_approx_lookup(0, &key(num(20.0))), Some(1));
}

#[test]
fn col_approx_lookup_unsorted_rows_and_duplicates() {
    let rows = vec![vec![num(30.0)], vec![num(10.0)], vec![num(20.0)], vec![num(10.0)], vec![text("a")]];
    let mut sheet = LookupSheet::new(rows);
    sheet.build_col_sorted(0);
    assert_eq!(sheet.col_approx_lookup(0, &key(num(15.0))), Some(3));
    assert_eq!(sheet.col_approx_lookup(0, &key(num(10.0))), Some(3));
    assert_eq!(sheet.col_approx_lookup(0, &key(num(99.0))), Some(0));
    assert_eq!(sheet.col_approx_lookup(0, &key(text("zz"))), Some(4));
    assert_eq!(sheet.col_approx_lookup(0, &key(num(-1.0))), None);
}

#[test]
fn number_and_text_one_differ() {
    assert_ne!(num(1.0), text("1"));
}

#[test]
fn text_case_insensitive() {
    assert_eq!(text("ABC"), text("abc"));
    assert_eq!(text("ABC"), text("AbC"));
}

#[test]
fn text_case_insensitive_hashes_equal() {
    let mut map: HashMap<LookupValue, i32> = HashMap::new();
    map.insert(key(text("Hello")), 42);
    assert_eq!(map.get(&key(text("hello"))), Some(&42));
}

#[test]
fn number_hashes_consistently() {
    let mut map: HashMap<LookupValue, i32> = HashMap::new();
    map.insert(key(num(7.25)), 99);
    assert_eq!(map.get(&key(num(7.25))), Some(&99));
}

#[test]
fn bool_true_and_false_differ() {
    assert_ne!(LookupValue::Bool(true), LookupValue::Bool(false));
}

#[test]
fn negative_zero_equals_positive_zero() {
    assert_eq!(num(-0.0), num(0.0));
}

#[test]
fn number_ordering() {
    assert!(key(num(1.0)) < key(num(2.0)));
    assert!(key(num(-2.0)) < key(num(-1.0)));
    assert!(key(num(-1.0)) < key(num(0.5)));
}

#[test]
fn different_types_use_tier_ordering() {
    let n = key(num(999.0));
    let t = key(text("a"));
    let b = LookupValue::Bool(false);
    assert!(n < t);
    assert!(t < b);
}

#[test]
fn compare_agrees_with_order() {
    let keys = [key(num(-3.5)), key(num(2.0)), key(text("")), key(text("ab")), key(text("b")), LookupValue::Bool(false), LookupValue::Bool(true)];
    for (i, a) in keys.iter().enumerate() {
        for (j, b) in keys.iter().enumerate() {
            let c = a.compare(b);
            assert_eq!(c < 0, i < j);
            assert_eq!(c == 0, i == j);
        }
    }
}
