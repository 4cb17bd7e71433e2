//! Reading a boolean from text, as cell coercion does.
use vstd::prelude::*;

use crate::cell_error::CellError;
use crate::text::{lower_seq, str_equals, to_ascii_lowercase};

verus! {

/// Text read as a boolean: `TRUE` and `FALSE` in any ASCII case; any other
/// text is `#VALUE!`.
pub open spec fn spec_text_to_bool(s: Seq<char>) -> Result<bool, CellError> {
    if lower_seq(s) == "true"@ {
        Ok(true)
    } else if lower_seq(s) == "false"@ {
        Ok(false)
    } else {
        Err(CellError::Value)
    }
}

/// Reads `TRUE` or `FALSE` (any case) from text.
pub fn text_to_bool(s: &str) -> (r: Result<bool, CellError>)
    ensures
        r == spec_text_to_bool(s@),
{
    let lowered = to_ascii_lowercase(s);
    if str_equals(lowered.as_str(), "true") {
        Ok(true)
    } else if str_equals(lowered.as_str(), "false") {
        Ok(false)
    } else {
        Err(CellError::Value)
    }
}

} // verus!
