//! Output options.
use vstd::prelude::*;

verus! {

/// What is written to formula cells in the output workbook.
#[derive(Debug, Clone, Copy, PartialEq, Eq, Structural)]
pub enum OutputMode {
    /// Formula text and cached value.
    Formulas,
    /// Cached value only.
    ValuesOnly,
}

impl OutputMode {
    /// Whether this mode omits formula text from the output.
    pub fn is_values_only(self) -> (r: bool)
        ensures
            r == (self == OutputMode::ValuesOnly),
    {
        match self {
            OutputMode::ValuesOnly => true,
            OutputMode::Formulas => false,
        }
    }
}

impl Default for OutputMode {
    /// Formulas are written by default.
    fn default() -> (r: Self)
        ensures
            r == OutputMode::Formulas,
    {
        OutputMode::Formulas
    }
}

} // verus!
