use xlstream::evaluate::column_dependencies;
use xlstream::plan::{eq_ignore_ascii_case, main_sheet, push_sheet_once};

#[test]
fn main_sheet_is_first_with_formulas() {
    assert_eq!(main_sheet(&[false, true, true]), Some(1));
    assert_eq!(main_sheet(&[true]), Some(0));
    assert_eq!(main_sheet(&[false, false]), None);
    assert_eq!(main_sheet(&[]), None);
}

#[test]
fn names_compare_ignoring_ascii_case() {
    assert!(eq_ignore_ascii_case("Lookup1", "LOOKUP1"));
    assert!(!eq_ignore_ascii_case("Lookup1", "Lookup2"));
    assert!(!eq_ignore_ascii_case("Éa", "éa"));
    assert!(eq_ignore_ascii_case("", ""));
    assert!(!eq_ignore_ascii_case("a", "ab"));
}

#[test]
fn sheets_are_listed_once_whatever_their_case() {
    let mut sheets: Vec<String> = Vec::new();
    push_sheet_once(&mut sheets, "Lookup1");
    push_sheet_once(&mut sheets, "LOOKUP1");
    push_sheet_once(&mut sheets, "Holidays");
    push_sheet_once(&mut sheets, "lookup1");
    assert_eq!(sheets, vec!["Lookup1".to_string(), "Holidays".to_string()]);
}

#[test]
fn column_dependencies_are_zero_based_and_exclude_self() {
    // references to columns 3 (C), 1 (A), 3 again, 0 and 5 from column 2 (C)
    let (deps, self_ref) = column_dependencies(2, &vec![3, 1, 3, 0, 5]);
    assert_eq!(deps, vec![0, 4]);
    assert!(self_ref);
    let (deps, self_ref) = column_dependencies(7, &vec![2, 2, 1]);
    assert_eq!(deps, vec![1, 0]);
    assert!(!self_ref);
    let (deps, self_ref) = column_dependencies(0, &vec![]);
    assert!(deps.is_empty());
    assert!(!self_ref);
}
