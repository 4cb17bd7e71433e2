//! The information functions `ISBLANK`, `ISNUMBER`, `ISTEXT`, `ISERROR`,
//! `ISNA`, `ISLOGICAL`, `ISNONTEXT`, `ISREF`, `NA` and `TYPE`: each reads
//! only which kind of value its argument is.
use vstd::prelude::*;

use crate::cell_error::CellError;

verus! {

/// Which kind of value a cell holds; an error keeps its code.
#[derive(Debug, Clone, Copy, PartialEq, Eq, Structural)]
pub enum ValueKind {
    /// A blank cell.
    Empty,
    /// A floating-point number.
    Number,
    /// An integer.
    Integer,
    /// Text.
    Text,
    /// A boolean.
    Bool,
    /// A date.
    Date,
    /// An error.
    Error(CellError),
}

/// What an information function gives back.
#[derive(Debug, Clone, Copy, PartialEq, Eq, Structural)]
pub enum InfoValue {
    /// `TRUE` or `FALSE`.
    Bool(bool),
    /// A type code of `TYPE`.
    Code(u8),
    /// An error value.
    Error(CellError),
}

/// A number for Excel: numbers, integers and dates.
pub open spec fn is_numeric(k: ValueKind) -> bool {
    k is Number || k is Integer || k is Date
}

/// The answer of a one-argument test: `#VALUE!` unless there is exactly one
/// argument.
pub open spec fn one_arg_test(args: Seq<ValueKind>, holds: bool) -> InfoValue {
    if args.len() != 1 {
        InfoValue::Error(CellError::Value)
    } else {
        InfoValue::Bool(holds)
    }
}

/// `ISBLANK(x)`: whether `x` is a blank cell.
pub fn builtin_isblank(args: &[ValueKind]) -> (r: InfoValue)
    ensures
        r == one_arg_test(args@, args@.len() == 1 && args@[0] is Empty),
{
    if args.len() != 1 {
        return InfoValue::Error(CellError::Value);
    }
    InfoValue::Bool(matches!(args[0], ValueKind::Empty))
}

/// `ISNUMBER(x)`: whether `x` is a number, an integer or a date.
pub fn builtin_isnumber(args: &[ValueKind]) -> (r: InfoValue)
    ensures
        r == one_arg_test(args@, args@.len() == 1 && is_numeric(args@[0])),
{
    if args.len() != 1 {
        return InfoValue::Error(CellError::Value);
    }
    InfoValue::Bool(matches!(args[0], ValueKind::Number | ValueKind::Integer | ValueKind::Date))
}

/// `ISTEXT(x)`: whether `x` is text.
pub fn builtin_istext(args: &[ValueKind]) -> (r: InfoValue)
    ensures
        r == one_arg_test(args@, args@.len() == 1 && args@[0] is Text),
{
    if args.len() != 1 {
        return InfoValue::Error(CellError::Value);
    }
    InfoValue::Bool(matches!(args[0], ValueKind::Text))
}

/// `ISERROR(x)`: whether `x` is any error.
pub fn builtin_iserror(args: &[ValueKind]) -> (r: InfoValue)
    ensures
        r == one_arg_test(args@, args@.len() == 1 && args@[0] is Error),
{
    if args.len() != 1 {
        return InfoValue::Error(CellError::Value);
    }
    InfoValue::Bool(matches!(args[0], ValueKind::Error(_)))
}

/// `ISNA(x)`: whether `x` is the `#N/A` error.
pub fn builtin_isna(args: &[ValueKind]) -> (r: InfoValue)
    ensures
        r == one_arg_test(args@, args@.len() == 1 && args@[0] == ValueKind::Error(CellError::Na)),
{
    if args.len() != 1 {
        return InfoValue::Error(CellError::Value);
    }
    InfoValue::Bool(matches!(args[0], ValueKind::Error(CellError::Na)))
}

/// `ISLOGICAL(x)`: whether `x` is a boolean.
pub fn builtin_islogical(args: &[ValueKind]) -> (r: InfoValue)
    ensures
        r == one_arg_test(args@, args@.len() == 1 && args@[0] is Bool),
{
    if args.len() != 1 {
        return InfoValue::Error(CellError::Value);
    }
    InfoValue::Bool(matches!(args[0], ValueKind::Bool))
}

/// `ISNONTEXT(x)`: whether `x` is anything but text.
pub fn builtin_isnontext(args: &[ValueKind]) -> (r: InfoValue)
    ensures
        r == one_arg_test(args@, args@.len() == 1 && !(args@[0] is Text)),
{
    if args.len() != 1 {
        return InfoValue::Error(CellError::Value);
    }
    InfoValue::Bool(!matches!(args[0], ValueKind::Text))
}

/// `ISREF(x)`: always `FALSE`, since references are resolved to values
/// before a function runs.
pub fn builtin_isref(args: &[ValueKind]) -> (r: InfoValue)
    ensures
        r == one_arg_test(args@, false),
{
    if args.len() != 1 {
        return InfoValue::Error(CellError::Value);
    }
    InfoValue::Bool(false)
}

/// `NA()`: `#N/A`; with any argument, `#VALUE!`.
pub fn builtin_na(args: &[ValueKind]) -> (r: InfoValue)
    ensures
        r == (if args@.len() == 0 {
            InfoValue::Error(CellError::Na)
        } else {
            InfoValue::Error(CellError::Value)
        }),
{
    if args.len() == 0 {
        InfoValue::Error(CellError::Na)
    } else {
        InfoValue::Error(CellError::Value)
    }
}

/// The type code of `TYPE`: 1 for numbers, integers, dates and blanks, 2 for
/// text, 4 for booleans, 16 for errors.
pub open spec fn type_code(k: ValueKind) -> u8 {
    match k {
        ValueKind::Text => 2,
        ValueKind::Bool => 4,
        ValueKind::Error(_) => 16,
        _ => 1,
    }
}

/// `TYPE(x)`: the type code of `x`.
pub fn builtin_type(args: &[ValueKind]) -> (r: InfoValue)
    ensures
        r == (if args@.len() != 1 {
            InfoValue::Error(CellError::Value)
        } else {
            InfoValue::Code(type_code(args@[0]))
        }),
{
    if args.len() != 1 {
        return InfoValue::Error(CellError::Value);
    }
    let code: u8 = match args[0] {
        ValueKind::Number | ValueKind::Integer | ValueKind::Empty | ValueKind::Date => 1,
        ValueKind::Text => 2,
        ValueKind::Bool => 4,
        ValueKind::Error(_) => 16,
    };
    InfoValue::Code(code)
}

} // verus!
