use xlstream::formula_template::{extract_row_refs, FormulaTemplate};

#[test]
fn simple_refs_both_detected() {
    let refs = extract_row_refs("A2+B2");
    assert_eq!(refs, vec![(1, 2, 2), (4, 5, 2)]);
}

#[test]
fn absolute_row_skipped() {
    let refs = extract_row_refs("$A$2+B2");
    assert_eq!(refs, vec![(6, 7, 2)]);
}

#[test]
fn mixed_absolute_and_relative_in_range() {
    let refs = extract_row_refs("SUM($A$1:A2)");
    assert_eq!(refs, vec![(10, 11, 2)]);
}

#[test]
fn cross_sheet_ref() {
    let refs = extract_row_refs("Sheet1!A2");
    assert_eq!(refs, vec![(8, 9, 2)]);
}

#[test]
fn whole_column_ref_has_no_row_refs() {
    let refs = extract_row_refs("SUM(A:A)");
    assert_eq!(refs, vec![]);
}

#[test]
fn multi_digit_row() {
    let refs = extract_row_refs("A100");
    assert_eq!(refs, vec![(1, 4, 100)]);
}

#[test]
fn no_cell_refs_in_pure_arithmetic() {
    let refs = extract_row_refs("1+2");
    assert_eq!(refs, vec![]);
}

#[test]
fn quoted_sheet_name_skipped() {
    let refs = extract_row_refs("'My Sheet'!A2");
    assert_eq!(refs, vec![(12, 13, 2)]);
}

#[test]
fn function_name_not_matched() {
    let refs = extract_row_refs("SUM(A2)");
    assert_eq!(refs, vec![(5, 6, 2)]);
}

#[test]
fn range_both_endpoints_detected() {
    let refs = extract_row_refs("A2:B10");
    assert_eq!(refs, vec![(1, 2, 2), (4, 6, 10)]);
}

#[test]
fn absolute_col_relative_row() {
    let refs = extract_row_refs("$A2");
    assert_eq!(refs, vec![(2, 3, 2)]);
}

#[test]
fn sheet_name_looks_like_cell_ref_skipped() {
    let refs = extract_row_refs("AB!C2");
    assert_eq!(refs, vec![(4, 5, 2)]);
}

#[test]
fn max_row_number() {
    let refs = extract_row_refs("A1048576");
    assert_eq!(refs, vec![(1, 8, 1_048_576)]);
}

#[test]
fn string_literal_not_scanned() {
    let refs = extract_row_refs(r#"IF(A2="B3",C2,0)"#);
    assert_eq!(refs.len(), 2);
    assert_eq!(refs[0].2, 2);
    assert_eq!(refs[1].2, 2);
}

#[test]
fn escaped_quotes_in_string_literal() {
    let refs = extract_row_refs(r#"IF(A2="""",C2,0)"#);
    assert_eq!(refs.len(), 2);
    assert_eq!(refs[0].2, 2);
    assert_eq!(refs[1].2, 2);
}

#[test]
fn reconstruct_shifts_row_forward() {
    let t = FormulaTemplate::new("A2+B2".into(), 2);
    assert_eq!(t.reconstruct(5), "A5+B5");
}

#[test]
fn reconstruct_shifts_row_backward() {
    let t = FormulaTemplate::new("A10+B10".into(), 10);
    assert_eq!(t.reconstruct(3), "A3+B3");
}

#[test]
fn reconstruct_absolute_refs_unchanged() {
    let t = FormulaTemplate::new("$A$1+B2".into(), 2);
    assert_eq!(t.reconstruct(5), "$A$1+B5");
}

#[test]
fn reconstruct_no_refs_returns_text_unchanged() {
    let t = FormulaTemplate::new("SUM(A:A)".into(), 2);
    assert_eq!(t.reconstruct(100), "SUM(A:A)");
}

#[test]
fn reconstruct_large_row_number() {
    let t = FormulaTemplate::new("A2".into(), 2);
    assert_eq!(t.reconstruct(1_048_576), "A1048576");
}

#[test]
fn reconstruct_same_row_returns_original() {
    let t = FormulaTemplate::new("A5+B5".into(), 5);
    assert_eq!(t.reconstruct(5), "A5+B5");
}

#[test]
fn reconstruct_multi_digit_to_single() {
    let t = FormulaTemplate::new("A100".into(), 100);
    assert_eq!(t.reconstruct(2), "A2");
}

#[test]
fn reconstruct_clamps_to_max_row() {
    let t = FormulaTemplate::new("A1".into(), 1);
    let result = t.reconstruct(1_048_577);
    assert!(result.contains("1048576"));
}

#[test]
fn reconstruct_clamps_to_min_row() {
    let t = FormulaTemplate::new("A2".into(), 100);
    let result = t.reconstruct(1);
    assert_eq!(result, "A1");
}

#[test]
fn lowercase_and_long_column_letters_are_not_refs() {
    assert_eq!(extract_row_refs("a2+ABCD2"), vec![]);
    assert_eq!(extract_row_refs("A2_x+B2"), vec![(6, 7, 2)]);
    assert_eq!(extract_row_refs("A0+B4294967296"), vec![]);
}

#[test]
fn leading_zeros_are_rewritten_in_plain_decimal() {
    let t = FormulaTemplate::new("A007".into(), 7);
    assert_eq!(t.reconstruct(7), "A7");
}

#[test]
fn non_ascii_text_positions_are_bytes() {
    let t = FormulaTemplate::new("\"é\"&A2".into(), 2);
    assert_eq!(extract_row_refs("\"é\"&A2"), vec![(6, 7, 2)]);
    assert_eq!(extract_row_refs("é+A2"), vec![(4, 5, 2)]);
    assert_eq!(t.reconstruct(3), "\"é\"&A3");
}

#[test]
fn base_row_gives_the_text_back() {
    for text in ["A2+B10*$C$3", "SUM(A1:A9)", "'S 1'!A2+Z99", "IF(A2=\"B3\",1,0)"] {
        let t = FormulaTemplate::new(text.to_string(), 7);
        assert_eq!(t.reconstruct(7), text);
    }
}

#[test]
fn reconstruction_changes_digits_only() {
    let text = "A2+B10*$C$3+'S 1'!D4";
    let t = FormulaTemplate::new(text.to_string(), 2);
    let strip = |s: &str| s.chars().filter(|c| !c.is_ascii_digit()).collect::<String>();
    for row in [1u32, 2, 3, 500, 1_048_576, u32::MAX] {
        assert_eq!(strip(&t.reconstruct(row)), strip(text));
    }
    assert_eq!(t.reconstruct(500), "A500+B508*$C$3+'S 1'!D502");
}

#[test]
fn template_of_a_reconstruction_reconstructs_alike() {
    let text = "SUM(A2:A10)+$B$1*C7+\"D9\"&'S 2'!E3";
    let t = FormulaTemplate::new(text.to_string(), 2);
    let r5 = t.reconstruct(5);
    assert_eq!(r5, "SUM(A5:A13)+$B$1*C10+\"D9\"&'S 2'!E6");
    let t5 = FormulaTemplate::new(r5.clone(), 5);
    for y in [1u32, 2, 3, 5, 40, 1_000] {
        assert_eq!(t5.reconstruct(y), t.reconstruct(y));
    }
    assert_eq!(extract_row_refs(&r5).len(), extract_row_refs(text).len());
}
