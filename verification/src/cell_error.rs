//! [`CellError`]: Excel's in-cell error values.
use vstd::prelude::*;

verus! {

/// Excel cell-level errors. These are values, not exceptions: a cell can hold
/// `#DIV/0!` just as it can hold a number, and formulas that consume it
/// propagate the error.
#[derive(Debug, Clone, Copy, PartialEq, Eq, Hash, Structural)]
pub enum CellError {
    /// `#DIV/0!`: division by zero.
    Div0,
    /// `#VALUE!`: an argument or operand has the wrong type.
    Value,
    /// `#REF!`: a referenced cell is invalid.
    Ref,
    /// `#NAME?`: an unrecognised name.
    Name,
    /// `#N/A`: a value is not available.
    Na,
    /// `#NUM!`: a numeric value is out of range.
    Num,
    /// `#NULL!`: an intersection is empty.
    Null,
}

/// The text Excel displays for a cell error.
pub open spec fn cell_error_text(e: CellError) -> Seq<char> {
    match e {
        CellError::Div0 => "#DIV/0!"@,
        CellError::Value => "#VALUE!"@,
        CellError::Ref => "#REF!"@,
        CellError::Name => "#NAME?"@,
        CellError::Na => "#N/A"@,
        CellError::Num => "#NUM!"@,
        CellError::Null => "#NULL!"@,
    }
}

/// The text Excel displays for a cell error (`#DIV/0!`, `#N/A`, ...).
pub fn format_cell_error(e: CellError) -> (r: String)
    ensures
        r@ == cell_error_text(e),
{
    let t: &str = match e {
        CellError::Div0 => "#DIV/0!",
        CellError::Value => "#VALUE!",
        CellError::Ref => "#REF!",
        CellError::Name => "#NAME?",
        CellError::Na => "#N/A",
        CellError::Num => "#NUM!",
        CellError::Null => "#NULL!",
    };
    t.to_string()
}

/// Distinct errors display distinct texts.
pub proof fn law_error_texts_distinct(a: CellError, b: CellError)
    requires
        a != b,
    ensures
        cell_error_text(a) != cell_error_text(b),
{
    reveal_strlit("#DIV/0!");
    reveal_strlit("#VALUE!");
    reveal_strlit("#REF!");
    reveal_strlit("#NAME?");
    reveal_strlit("#N/A");
    reveal_strlit("#NUM!");
    reveal_strlit("#NULL!");
    let ta = cell_error_text(a);
    let tb = cell_error_text(b);
    if ta == tb {
        assert(ta.len() == tb.len());
        assert(ta[1] == tb[1]);
        assert(ta[2] == tb[2]);
        assert(ta[ta.len() - 1] == tb[tb.len() - 1]);
    }
}

} // verus!
