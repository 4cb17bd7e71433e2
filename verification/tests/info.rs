use xlstream::cell_error::CellError;
use xlstream::info::{
    builtin_isblank, builtin_iserror, builtin_islogical, builtin_isna, builtin_isnontext,
    builtin_isnumber, builtin_isref, builtin_istext, builtin_na, builtin_type, InfoValue,
    ValueKind,
};

#[test]
fn isblank_empty_is_true() {
    assert_eq!(builtin_isblank(&[ValueKind::Empty]), InfoValue::Bool(true));
}

#[test]
fn isblank_zero_is_false() {
    assert_eq!(builtin_isblank(&[ValueKind::Number]), InfoValue::Bool(false));
}

#[test]
fn isblank_empty_string_is_false() {
    assert_eq!(builtin_isblank(&[ValueKind::Text]), InfoValue::Bool(false));
}

#[test]
fn isblank_number_is_false() {
    assert_eq!(builtin_isblank(&[ValueKind::Number]), InfoValue::Bool(false));
}

#[test]
fn isblank_error_is_false() {
    assert_eq!(builtin_isblank(&[ValueKind::Error(CellError::Na)]), InfoValue::Bool(false));
}

#[test]
fn isblank_bool_is_false() {
    assert_eq!(builtin_isblank(&[ValueKind::Bool]), InfoValue::Bool(false));
}

#[test]
fn isblank_wrong_arg_count() {
    assert_eq!(builtin_isblank(&[]), InfoValue::Error(CellError::Value));
}

#[test]
fn isnumber_number_is_true() {
    assert_eq!(builtin_isnumber(&[ValueKind::Number]), InfoValue::Bool(true));
}

#[test]
fn isnumber_integer_is_true() {
    assert_eq!(builtin_isnumber(&[ValueKind::Integer]), InfoValue::Bool(true));
}

#[test]
fn isnumber_date_is_true() {
    assert_eq!(
        builtin_isnumber(&[ValueKind::Date]),
        InfoValue::Bool(true)
    );
}

#[test]
fn isnumber_text_is_false() {
    assert_eq!(builtin_isnumber(&[ValueKind::Text]), InfoValue::Bool(false));
}

#[test]
fn isnumber_bool_is_false() {
    assert_eq!(builtin_isnumber(&[ValueKind::Bool]), InfoValue::Bool(false));
}

#[test]
fn isnumber_empty_is_false() {
    assert_eq!(builtin_isnumber(&[ValueKind::Empty]), InfoValue::Bool(false));
}

#[test]
fn isnumber_error_is_false() {
    assert_eq!(builtin_isnumber(&[ValueKind::Error(CellError::Div0)]), InfoValue::Bool(false));
}

#[test]
fn isnumber_wrong_arg_count() {
    assert_eq!(builtin_isnumber(&[]), InfoValue::Error(CellError::Value));
}

#[test]
fn istext_text_is_true() {
    assert_eq!(builtin_istext(&[ValueKind::Text]), InfoValue::Bool(true));
}

#[test]
fn istext_empty_text_is_true() {
    assert_eq!(builtin_istext(&[ValueKind::Text]), InfoValue::Bool(true));
}

#[test]
fn istext_number_is_false() {
    assert_eq!(builtin_istext(&[ValueKind::Number]), InfoValue::Bool(false));
}

#[test]
fn istext_bool_is_false() {
    assert_eq!(builtin_istext(&[ValueKind::Bool]), InfoValue::Bool(false));
}

#[test]
fn istext_empty_is_false() {
    assert_eq!(builtin_istext(&[ValueKind::Empty]), InfoValue::Bool(false));
}

#[test]
fn istext_error_is_false() {
    assert_eq!(builtin_istext(&[ValueKind::Error(CellError::Na)]), InfoValue::Bool(false));
}

#[test]
fn istext_wrong_arg_count() {
    assert_eq!(
        builtin_istext(&[ValueKind::Text, ValueKind::Text]),
        InfoValue::Error(CellError::Value)
    );
}

#[test]
fn iserror_div0_is_true() {
    assert_eq!(builtin_iserror(&[ValueKind::Error(CellError::Div0)]), InfoValue::Bool(true));
}

#[test]
fn iserror_na_is_true() {
    assert_eq!(builtin_iserror(&[ValueKind::Error(CellError::Na)]), InfoValue::Bool(true));
}

#[test]
fn iserror_value_error_is_true() {
    assert_eq!(builtin_iserror(&[ValueKind::Error(CellError::Value)]), InfoValue::Bool(true));
}

#[test]
fn iserror_ref_is_true() {
    assert_eq!(builtin_iserror(&[ValueKind::Error(CellError::Ref)]), InfoValue::Bool(true));
}

#[test]
fn iserror_num_is_true() {
    assert_eq!(builtin_iserror(&[ValueKind::Error(CellError::Num)]), InfoValue::Bool(true));
}

#[test]
fn iserror_number_is_false() {
    assert_eq!(builtin_iserror(&[ValueKind::Number]), InfoValue::Bool(false));
}

#[test]
fn iserror_text_is_false() {
    assert_eq!(builtin_iserror(&[ValueKind::Text]), InfoValue::Bool(false));
}

#[test]
fn iserror_wrong_arg_count() {
    assert_eq!(builtin_iserror(&[]), InfoValue::Error(CellError::Value));
}

#[test]
fn isna_na_is_true() {
    assert_eq!(builtin_isna(&[ValueKind::Error(CellError::Na)]), InfoValue::Bool(true));
}

#[test]
fn isna_div0_is_false() {
    assert_eq!(builtin_isna(&[ValueKind::Error(CellError::Div0)]), InfoValue::Bool(false));
}

#[test]
fn isna_value_error_is_false() {
    assert_eq!(builtin_isna(&[ValueKind::Error(CellError::Value)]), InfoValue::Bool(false));
}

#[test]
fn isna_number_is_false() {
    assert_eq!(builtin_isna(&[ValueKind::Number]), InfoValue::Bool(false));
}

#[test]
fn isna_empty_is_false() {
    assert_eq!(builtin_isna(&[ValueKind::Empty]), InfoValue::Bool(false));
}

#[test]
fn isna_wrong_arg_count() {
    assert_eq!(builtin_isna(&[]), InfoValue::Error(CellError::Value));
}

#[test]
fn islogical_true_is_true() {
    assert_eq!(builtin_islogical(&[ValueKind::Bool]), InfoValue::Bool(true));
}

#[test]
fn islogical_false_is_true() {
    assert_eq!(builtin_islogical(&[ValueKind::Bool]), InfoValue::Bool(true));
}

#[test]
fn islogical_number_is_false() {
    assert_eq!(builtin_islogical(&[ValueKind::Number]), InfoValue::Bool(false));
}

#[test]
fn islogical_text_is_false() {
    assert_eq!(builtin_islogical(&[ValueKind::Text]), InfoValue::Bool(false));
}

#[test]
fn islogical_empty_is_false() {
    assert_eq!(builtin_islogical(&[ValueKind::Empty]), InfoValue::Bool(false));
}

#[test]
fn islogical_wrong_arg_count() {
    assert_eq!(builtin_islogical(&[]), InfoValue::Error(CellError::Value));
}

#[test]
fn isnontext_number_is_true() {
    assert_eq!(builtin_isnontext(&[ValueKind::Number]), InfoValue::Bool(true));
}

#[test]
fn isnontext_empty_is_true() {
    assert_eq!(builtin_isnontext(&[ValueKind::Empty]), InfoValue::Bool(true));
}

#[test]
fn isnontext_bool_is_true() {
    assert_eq!(builtin_isnontext(&[ValueKind::Bool]), InfoValue::Bool(true));
}

#[test]
fn isnontext_error_is_true() {
    assert_eq!(builtin_isnontext(&[ValueKind::Error(CellError::Na)]), InfoValue::Bool(true));
}

#[test]
fn isnontext_text_is_false() {
    assert_eq!(builtin_isnontext(&[ValueKind::Text]), InfoValue::Bool(false));
}

#[test]
fn isnontext_wrong_arg_count() {
    assert_eq!(builtin_isnontext(&[]), InfoValue::Error(CellError::Value));
}

#[test]
fn isref_number_is_false() {
    assert_eq!(builtin_isref(&[ValueKind::Number]), InfoValue::Bool(false));
}

#[test]
fn isref_text_is_false() {
    assert_eq!(builtin_isref(&[ValueKind::Text]), InfoValue::Bool(false));
}

#[test]
fn isref_empty_is_false() {
    assert_eq!(builtin_isref(&[ValueKind::Empty]), InfoValue::Bool(false));
}

#[test]
fn isref_error_is_false() {
    assert_eq!(builtin_isref(&[ValueKind::Error(CellError::Ref)]), InfoValue::Bool(false));
}

#[test]
fn isref_bool_is_false() {
    assert_eq!(builtin_isref(&[ValueKind::Bool]), InfoValue::Bool(false));
}

#[test]
fn isref_wrong_arg_count() {
    assert_eq!(builtin_isref(&[]), InfoValue::Error(CellError::Value));
}

#[test]
fn na_no_args_returns_na() {
    assert_eq!(builtin_na(&[]), InfoValue::Error(CellError::Na));
}

#[test]
fn na_with_arg_returns_value_error() {
    assert_eq!(builtin_na(&[ValueKind::Number]), InfoValue::Error(CellError::Value));
}

#[test]
fn na_with_two_args_returns_value_error() {
    assert_eq!(
        builtin_na(&[ValueKind::Number, ValueKind::Number]),
        InfoValue::Error(CellError::Value)
    );
}

#[test]
fn na_with_empty_arg_returns_value_error() {
    assert_eq!(builtin_na(&[ValueKind::Empty]), InfoValue::Error(CellError::Value));
}

#[test]
fn na_with_error_arg_returns_value_error() {
    assert_eq!(builtin_na(&[ValueKind::Error(CellError::Na)]), InfoValue::Error(CellError::Value));
}

#[test]
fn type_number_returns_1() {
    assert_eq!(builtin_type(&[ValueKind::Number]), InfoValue::Code(1));
}

#[test]
fn type_integer_returns_1() {
    assert_eq!(builtin_type(&[ValueKind::Integer]), InfoValue::Code(1));
}

#[test]
fn type_empty_returns_1() {
    assert_eq!(builtin_type(&[ValueKind::Empty]), InfoValue::Code(1));
}

#[test]
fn type_date_returns_1() {
    assert_eq!(builtin_type(&[ValueKind::Date]), InfoValue::Code(1));
}

#[test]
fn type_text_returns_2() {
    assert_eq!(builtin_type(&[ValueKind::Text]), InfoValue::Code(2));
}

#[test]
fn type_bool_returns_4() {
    assert_eq!(builtin_type(&[ValueKind::Bool]), InfoValue::Code(4));
}

#[test]
fn type_error_returns_16() {
    assert_eq!(builtin_type(&[ValueKind::Error(CellError::Na)]), InfoValue::Code(16));
}

#[test]
fn type_wrong_arg_count() {
    assert_eq!(builtin_type(&[]), InfoValue::Error(CellError::Value));
}
