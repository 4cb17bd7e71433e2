use xlstream::formula_lexer::formulas_streaming_eq;

#[test]
fn streaming_eq_same_formula() {
    assert!(formulas_streaming_eq("A2+B2", "A2+B2"));
}

#[test]
fn streaming_eq_different_rows() {
    assert!(formulas_streaming_eq("A2+B2", "A3+B3"));
}

#[test]
fn streaming_eq_preserves_plain_numbers() {
    assert!(formulas_streaming_eq("MOD(A2,1000)", "MOD(A3,1000)"));
    assert!(!formulas_streaming_eq("MOD(A2,1000)", "MOD(A3,2000)"));
}

#[test]
fn streaming_eq_absolute_refs() {
    assert!(formulas_streaming_eq("$A$2+$B$3", "$A$5+$B$6"));
}

#[test]
fn streaming_eq_range_bounds_must_match() {
    assert!(!formulas_streaming_eq("SUM(A2:A10)", "SUM(A2:A5)"));
    assert!(formulas_streaming_eq("SUM(A2:A10)", "SUM(A2:A10)"));
}

#[test]
fn streaming_eq_cross_sheet_rows_must_match() {
    assert!(!formulas_streaming_eq("Data!B2+B2", "Data!B3+B3"));
}

#[test]
fn streaming_eq_same_sheet_cell_refs() {
    assert!(formulas_streaming_eq(
        "VLOOKUP(A2,Sheet1!A:B,2,FALSE)",
        "VLOOKUP(A3,Sheet1!A:B,2,FALSE)",
    ));
}

#[test]
fn streaming_eq_string_literals_preserved() {
    assert!(formulas_streaming_eq("IF(A2=\"Row1\",B2,C2)", "IF(A3=\"Row1\",B3,C3)",));
    assert!(!formulas_streaming_eq("IF(A2=\"Row1\",B2,C2)", "IF(A3=\"Row2\",B3,C3)",));
}

#[test]
fn streaming_eq_different_functions() {
    assert!(!formulas_streaming_eq("SUM(A2)", "AVG(A2)"));
}

#[test]
fn streaming_eq_different_columns() {
    assert!(!formulas_streaming_eq("A2+B2", "A2+C2"));
}

#[test]
fn streaming_eq_multi_letter_columns() {
    assert!(formulas_streaming_eq("AA100+AB200", "AA101+AB201"));
}

#[test]
fn streaming_eq_function_names_with_digits() {
    assert!(!formulas_streaming_eq("LOG10(A2)", "LOG2(A3)"));
}

#[test]
fn streaming_eq_sheet_names_with_digits() {
    assert!(!formulas_streaming_eq("Sheet2!A2", "Sheet3!A3"));
}

#[test]
fn streaming_eq_cross_sheet_dollar_col() {
    assert!(!formulas_streaming_eq("Sheet1!$A2", "Sheet1!$A3"));
}

#[test]
fn streaming_eq_cross_sheet_absolute() {
    assert!(!formulas_streaming_eq("Sheet1!$A$2", "Sheet1!$A$3"));
}

#[test]
fn streaming_eq_cross_sheet_multi_letter_col() {
    assert!(!formulas_streaming_eq("Sheet1!$AB2", "Sheet1!$AB3"));
}

#[test]
fn streaming_eq_named_ranges_with_digits() {
    assert!(!formulas_streaming_eq("RATE2+A2", "RATE3+A3"));
}

#[test]
fn streaming_eq_scientific_notation() {
    assert!(!formulas_streaming_eq("1E2+A2", "1E3+A3"));
}

#[test]
fn streaming_eq_absolute_range_end() {
    assert!(!formulas_streaming_eq("SUM($A$2:$B$5)", "SUM($A$2:$B$6)"));
}

#[test]
fn streaming_eq_quoted_sheet_with_space() {
    assert!(!formulas_streaming_eq("'My Sheet'!A2", "'My Sheet'!A3"));
}

#[test]
fn streaming_eq_quoted_sheet_digit_space() {
    assert!(!formulas_streaming_eq("'Sheet 2'!A2", "'Sheet 2'!A3"));
}

#[test]
fn streaming_eq_cross_sheet_range_start() {
    assert!(!formulas_streaming_eq("Sheet1!A2:A10", "Sheet1!A3:A10"));
}

#[test]
fn streaming_eq_cross_sheet_range_end() {
    assert!(!formulas_streaming_eq("Sheet1!A2:A10", "Sheet1!A2:A11"));
}

#[test]
fn streaming_eq_cross_sheet_absolute_range() {
    assert!(!formulas_streaming_eq("Sheet1!$A$2:$B$5", "Sheet1!$A$2:$B$6"));
}

#[test]
fn streaming_eq_quoted_sheet_dollar_col() {
    assert!(!formulas_streaming_eq("'Sheet1'!$A2", "'Sheet1'!$A3"));
}

#[test]
fn streaming_eq_two_cross_sheet_refs() {
    assert!(!formulas_streaming_eq("Sheet1!A2+Sheet2!A2", "Sheet1!A3+Sheet2!A3"));
}

#[test]
fn streaming_eq_mixed_same_and_cross_sheet() {
    assert!(formulas_streaming_eq("A1+Sheet1!A1", "A2+Sheet1!A1"));
}

#[test]
fn streaming_eq_mixed_cross_sheet_row_differs() {
    assert!(!formulas_streaming_eq("A1+Sheet1!A1", "A2+Sheet1!A2"));
}

#[test]
fn streaming_eq_sheet_name_ending_in_digit() {
    assert!(!formulas_streaming_eq("Sheet10!A2", "Sheet10!A3"));
}

#[test]
fn streaming_eq_attack_2d_range_both_rows_shift() {
    assert!(
        !formulas_streaming_eq("SUM(A2:B2)", "SUM(A3:B3)"),
        "2D range row shift: different data rectangles must not be equivalent"
    );
}

#[test]
fn streaming_eq_attack_2d_range_end_differs() {
    assert!(!formulas_streaming_eq("SUM(A2:B2)", "SUM(A2:B3)"), "range end row differs");
}

#[test]
fn streaming_eq_attack_index_different_row_arg() {
    assert!(
        !formulas_streaming_eq("INDEX(A2:D10,2,3)", "INDEX(A2:D10,3,3)"),
        "INDEX row argument differs — different cell selected"
    );
}

#[test]
fn streaming_eq_attack_offset_anchor_row() {
    assert!(
        formulas_streaming_eq("OFFSET(A2,1,0)", "OFFSET(A3,1,0)"),
        "OFFSET anchor is a same-sheet ref — row resolved from current row"
    );
}

#[test]
fn streaming_eq_attack_array_constant_differs() {
    assert!(
        !formulas_streaming_eq("{1,2;3,4}+A2", "{1,2;3,5}+A3"),
        "array constant value differs"
    );
}

#[test]
fn streaming_eq_attack_indirect_string_ref() {
    assert!(
        !formulas_streaming_eq("INDIRECT(\"A2\")", "INDIRECT(\"A3\")"),
        "string content differs (even if it looks like a cell ref)"
    );
}

#[test]
fn streaming_eq_attack_single_cell_range() {
    assert!(
        !formulas_streaming_eq("A2:A2", "A3:A3"),
        "A2:A2 vs A3:A3 — different single-cell ranges"
    );
}

#[test]
fn streaming_eq_attack_abs_col_single_cell_range() {
    assert!(
        !formulas_streaming_eq("$A2:$A2", "$A3:$A3"),
        "$A2:$A2 vs $A3:$A3 — different single-cell ranges"
    );
}

#[test]
fn streaming_eq_attack_dollar_row_range_start() {
    assert!(
        !formulas_streaming_eq("SUM(A$2:A$10)", "SUM(A$3:A$10)"),
        "absolute row in range start differs"
    );
}

#[test]
fn streaming_eq_attack_dollar_row_range_end() {
    assert!(
        !formulas_streaming_eq("SUM(A$2:A$10)", "SUM(A$2:A$11)"),
        "absolute row in range end differs"
    );
}

#[test]
fn streaming_eq_attack_sumproduct_range_mismatch() {
    assert!(
        !formulas_streaming_eq("SUMPRODUCT(A2:A10,B2:B10)", "SUMPRODUCT(A2:A10,B2:B11)"),
        "second SUMPRODUCT range end differs"
    );
}

#[test]
fn streaming_eq_attack_different_length() {
    assert!(
        !formulas_streaming_eq("A2+B2", "A2+B2+C2"),
        "formulas have different structure (extra term)"
    );
}

#[test]
fn streaming_eq_attack_row_digit_count() {
    assert!(
        formulas_streaming_eq("A2", "A20"),
        "A2 vs A20 are same-sheet refs differing only in row — should be equivalent"
    );
}

#[test]
fn streaming_eq_attack_different_column_width() {
    assert!(!formulas_streaming_eq("A2", "AA2"), "A2 vs AA2 — different columns");
}

#[test]
fn streaming_eq_attack_empty_strings() {
    assert!(formulas_streaming_eq("", ""), "empty vs empty should be equal");
}

#[test]
fn streaming_eq_pentest_short_funcname_digit() {
    assert!(!formulas_streaming_eq("IF2(A2)", "IF3(A3)"));
}

#[test]
fn streaming_eq_pentest_two_letter_col_like_ident() {
    assert!(formulas_streaming_eq("PI2+A2", "PI3+A3"));
}

#[test]
fn streaming_eq_pentest_adjacent_refs_no_operator() {
    assert!(!formulas_streaming_eq("A1B2", "A1B3"));
}

#[test]
fn streaming_eq_pentest_different_literal_arg() {
    assert!(!formulas_streaming_eq("SUM(A2,B2,3)", "SUM(A3,B3,4)"));
}

#[test]
fn streaming_eq_pentest_float_scientific() {
    assert!(!formulas_streaming_eq("1.5E2+A2", "1.5E3+A3"));
}

#[test]
fn streaming_eq_pentest_pure_scientific() {
    assert!(!formulas_streaming_eq("0.1E10", "0.1E20"));
}

#[test]
fn streaming_eq_pentest_single_letter_func_t() {
    assert!(formulas_streaming_eq("T2+A2", "T3+A3"));
}

#[test]
fn streaming_eq_pentest_single_letter_func_n() {
    assert!(formulas_streaming_eq("N2+A2", "N3+A3"));
}

#[test]
fn streaming_eq_pentest_true_followed_by_digit() {
    assert!(!formulas_streaming_eq("TRUE2", "TRUE3"));
}

#[test]
fn streaming_eq_pentest_long_funcname_digit() {
    assert!(!formulas_streaming_eq("MATCH2", "MATCH3"));
}

#[test]
fn streaming_eq_pentest_different_if_branch_literal() {
    assert!(!formulas_streaming_eq("IF(A2>0,1,2)", "IF(A3>0,1,3)"));
}

#[test]
fn streaming_eq_pentest_string_literal_content() {
    assert!(formulas_streaming_eq("A2&\"test1\"", "A3&\"test1\""));
    assert!(!formulas_streaming_eq("A2&\"test1\"", "A3&\"test2\""));
}

#[test]
fn streaming_eq_is_symmetric_on_examples() {
    for (a, b) in [("A2+B2", "A3+B3"), ("SUM(A2:A10)", "SUM(A2:A5)"), ("", "A1"), ("Data!B2", "Data!B3")] {
        assert_eq!(formulas_streaming_eq(a, b), formulas_streaming_eq(b, a));
    }
}

#[test]
fn streaming_eq_reflexive_on_examples() {
    for a in ["", "A1", "SUM($A$2:B7)", "'My Sheet'!A2&\"x\"", "1E2+LOG10(Q3)"] {
        assert!(formulas_streaming_eq(a, a));
    }
}

#[test]
fn streaming_eq_non_ascii_text() {
    assert!(formulas_streaming_eq("A2&\"é\"", "A3&\"é\""));
    assert!(!formulas_streaming_eq("A2&\"é\"", "A3&\"è\""));
}

#[test]
fn only_row_digits_of_same_sheet_refs_may_differ() {
    assert!(formulas_streaming_eq("A2+1", "A3+1"));
    assert!(!formulas_streaming_eq("A2+1", "A3+2"));
    assert!(!formulas_streaming_eq("Sheet2!A2+B2", "Sheet2!A3+B3"));
    assert!(!formulas_streaming_eq("\"x2\"&A2", "\"x3\"&A3"));
    assert!(formulas_streaming_eq("$A$1+B10", "$A$1+B11"));
}
