//! Keys of data computed before the row-streaming pass.
use vstd::prelude::*;

verus! {

/// Key of a cached bounded range: the values of one column between two rows,
/// kept so that the row pass can expand them without re-reading.
#[derive(Debug, Clone, PartialEq, Eq, Hash)]
pub struct BoundedRangeKey {
    /// Sheet name (`None` = main streaming sheet).
    pub sheet: Option<String>,
    /// 1-based column index.
    pub col: u32,
    /// 1-based start row (inclusive).
    pub start_row: u32,
    /// 1-based end row (inclusive).
    pub end_row: u32,
}

} // verus!
