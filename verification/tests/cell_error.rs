use xlstream::cell_error::{format_cell_error, CellError};

#[test]
fn each_variant_is_distinct() {
    assert_ne!(CellError::Div0, CellError::Value);
    assert_ne!(CellError::Value, CellError::Ref);
    assert_ne!(CellError::Ref, CellError::Name);
    assert_ne!(CellError::Name, CellError::Na);
    assert_ne!(CellError::Na, CellError::Num);
    assert_ne!(CellError::Num, CellError::Null);
}

#[test]
fn variants_are_clone_and_copy() {
    let a = CellError::Div0;
    let b = a;
    let _ = a;
    assert_eq!(a, b);
}

#[test]
fn to_text_from_error() {
    assert_eq!(format_cell_error(CellError::Div0), "#DIV/0!");
}

#[test]
fn cell_error_texts() {
    assert_eq!(format_cell_error(CellError::Value), "#VALUE!");
    assert_eq!(format_cell_error(CellError::Ref), "#REF!");
    assert_eq!(format_cell_error(CellError::Name), "#NAME?");
    assert_eq!(format_cell_error(CellError::Na), "#N/A");
    assert_eq!(format_cell_error(CellError::Num), "#NUM!");
    assert_eq!(format_cell_error(CellError::Null), "#NULL!");
}

#[test]
fn error_texts_are_distinct() {
    let all = [
        CellError::Div0,
        CellError::Value,
        CellError::Ref,
        CellError::Name,
        CellError::Na,
        CellError::Num,
        CellError::Null,
    ];
    for (i, a) in all.iter().enumerate() {
        for (j, b) in all.iter().enumerate() {
            assert_eq!(format_cell_error(*a) == format_cell_error(*b), i == j);
        }
    }
}
