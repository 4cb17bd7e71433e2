use xlstream::aggregate::{count, counta, countblank};
use xlstream::cell_error::CellError;
use xlstream::info::ValueKind;

#[test]
fn count_numbers_only() {
    let vals = [ValueKind::Number, ValueKind::Text, ValueKind::Number];
    assert_eq!(count(&vals).unwrap(), 2);
}

#[test]
fn count_empty_returns_zero() {
    assert_eq!(count(&[]).unwrap(), 0);
}

#[test]
fn count_skips_text_bool_empty() {
    let vals = [ValueKind::Text, ValueKind::Bool, ValueKind::Empty];
    assert_eq!(count(&vals).unwrap(), 0);
}

#[test]
fn count_skips_errors() {
    let vals = [ValueKind::Number, ValueKind::Error(CellError::Na)];
    assert_eq!(count(&vals).unwrap(), 1);
}

#[test]
fn counta_counts_non_empty() {
    let vals = [ValueKind::Number, ValueKind::Empty, ValueKind::Text];
    assert_eq!(counta(&vals).unwrap(), 2);
}

#[test]
fn counta_counts_errors() {
    let vals = [ValueKind::Error(CellError::Na), ValueKind::Empty];
    assert_eq!(counta(&vals).unwrap(), 1);
}

#[test]
fn counta_counts_bool() {
    let vals = [ValueKind::Bool, ValueKind::Empty];
    assert_eq!(counta(&vals).unwrap(), 1);
}

#[test]
fn counta_empty_returns_zero() {
    assert_eq!(counta(&[]).unwrap(), 0);
}

#[test]
fn countblank_counts_empty() {
    let vals = [ValueKind::Empty, ValueKind::Number, ValueKind::Empty];
    assert_eq!(countblank(&vals).unwrap(), 2);
}

#[test]
fn countblank_ignores_non_empty() {
    let vals = [ValueKind::Number, ValueKind::Text, ValueKind::Bool];
    assert_eq!(countblank(&vals).unwrap(), 0);
}

#[test]
fn countblank_ignores_errors() {
    let vals = [ValueKind::Error(CellError::Na), ValueKind::Empty];
    assert_eq!(countblank(&vals).unwrap(), 1);
}

#[test]
fn countblank_empty_range() {
    assert_eq!(countblank(&[]).unwrap(), 0);
}

#[test]
fn count_with_integer() {
    let vals = [ValueKind::Integer, ValueKind::Text];
    assert_eq!(count(&vals).unwrap(), 1);
}

#[test]
fn counta_and_countblank_add_up_to_the_range() {
    let vals = [
        ValueKind::Empty,
        ValueKind::Number,
        ValueKind::Text,
        ValueKind::Empty,
        ValueKind::Error(CellError::Div0),
        ValueKind::Date,
        ValueKind::Bool,
    ];
    assert_eq!(counta(&vals).unwrap() + countblank(&vals).unwrap(), vals.len() as u64);
    assert_eq!(count(&vals).unwrap(), 2);
    assert_eq!(counta(&vals).unwrap(), 5);
}
