use xlstream::criteria::WildcardPattern;
use xlstream::evaluate::{strip_xlfn_prefix, EvaluateSummary};
use xlstream::lookup::CaseFoldedText;
use xlstream::multi_conditional::build_composite_key;
use xlstream::prelude::BoundedRangeKey;

#[test]
fn wildcard_star_matches() {
    let p = WildcardPattern::new("a*z");
    assert!(p.matches("abcz"));
    assert!(p.matches("az"));
    assert!(!p.matches("abc"));
}

#[test]
fn wildcard_question_matches() {
    let p = WildcardPattern::new("a?c");
    assert!(p.matches("abc"));
    assert!(!p.matches("ac"));
    assert!(!p.matches("abbc"));
}

#[test]
fn wildcard_case_insensitive() {
    let p = WildcardPattern::new("HELLO*");
    assert!(p.matches("hello world"));
    assert!(p.matches("HELLO"));
    let q = WildcardPattern::new("Hello*");
    assert!(q.matches("hello world"));
}

#[test]
fn wildcard_edge_cases() {
    assert!(WildcardPattern::new("").matches(""));
    assert!(!WildcardPattern::new("").matches("a"));
    assert!(WildcardPattern::new("*").matches(""));
    assert!(WildcardPattern::new("**").matches("anything"));
    assert!(WildcardPattern::new("*a*").matches("banana"));
    assert!(!WildcardPattern::new("*x*").matches("banana"));
    assert!(WildcardPattern::new("?*?").matches("ab"));
    assert!(!WildcardPattern::new("?*?").matches("a"));
    assert!(WildcardPattern::new("b?n*").matches("BANANA"));
}

#[test]
fn case_folded_text_equal_ignoring_case() {
    let a = CaseFoldedText::new("Hello");
    let b = CaseFoldedText::new("hello");
    assert_eq!(a, b);
    assert_eq!(a.to_text(), "hello");
    assert_ne!(CaseFoldedText::new("Héllo").to_text(), "hello");
    assert_eq!(CaseFoldedText::new("ÉA").to_text(), "Éa");
}

#[test]
fn bounded_range_key_fields() {
    let key = BoundedRangeKey { sheet: None, col: 1, start_row: 2, end_row: 100 };
    assert_eq!(key.col, 1);
    assert_eq!(key.clone(), key);
}

#[test]
fn evaluate_summary_default() {
    let s = EvaluateSummary::default();
    assert_eq!(s.rows_processed, 0);
    assert_eq!(s.formulas_evaluated, 0);
    assert_eq!(s.clone(), s);
}

#[test]
fn strip_xlfn_prefixes() {
    assert_eq!(strip_xlfn_prefix("_xlfn.CONCAT(A1,B1)"), "CONCAT(A1,B1)");
    assert_eq!(strip_xlfn_prefix("_xlfn._xlws.SORT(A1:A3)"), "SORT(A1:A3)");
    assert_eq!(strip_xlfn_prefix("SUM(A1)+_xlfn.IFS(A1>0,1)"), "SUM(A1)+IFS(A1>0,1)");
    assert_eq!(strip_xlfn_prefix("_xlfn"), "_xlfn");
    assert_eq!(strip_xlfn_prefix(""), "");
}

#[test]
fn composite_keys() {
    assert_eq!(build_composite_key(&["east".to_string(), "2024".to_string()]), "east\u{0}2024");
    assert_eq!(build_composite_key(&[]), "");
    assert_eq!(build_composite_key(&["a".to_string()]), "a");
}

#[test]
fn composite_key_lower_cases_each_value() {
    assert_eq!(build_composite_key(&["East".to_string(), "Q1".to_string()]), "east\u{0}q1");
    assert_eq!(build_composite_key(&["ÉA".to_string()]), "Éa");
}

#[test]
fn pattern_upper_and_lower_case_match_alike() {
    for p in ["Hello*", "a?C", "*X*y"] {
        let same = WildcardPattern::new(p);
        let upper = WildcardPattern::new(&p.to_ascii_uppercase());
        let lower = WildcardPattern::new(&p.to_ascii_lowercase());
        for t in ["hello world", "HELLO", "abc", "AbC", "xy", "zXzY", ""] {
            assert_eq!(same.matches(t), upper.matches(t));
            assert_eq!(same.matches(t), lower.matches(t));
            assert_eq!(same.matches(t), same.matches(&t.to_ascii_uppercase()));
        }
    }
}

#[test]
fn folded_text_of_upper_case_is_the_same() {
    assert_eq!(CaseFoldedText::new("MiXeD_1").to_text(), CaseFoldedText::new("mixed_1").to_text());
    assert_eq!(
        CaseFoldedText::new(&"MiXeD_1".to_ascii_uppercase()).to_text(),
        CaseFoldedText::new("MiXeD_1").to_text()
    );
}
