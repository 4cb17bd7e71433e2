//! The counting aggregates `COUNT`, `COUNTA` and `COUNTBLANK`, which read
//! only which kind each value of a range is.
use vstd::prelude::*;

use crate::cell_error::CellError;
use crate::info::{is_numeric, ValueKind};

verus! {

/// Which values a counting aggregate counts.
#[derive(Debug, Clone, Copy, PartialEq, Eq, Structural)]
pub enum Counted {
    /// Numbers, integers and dates (`COUNT`).
    Numeric,
    /// Everything but blanks (`COUNTA`).
    NonBlank,
    /// Blanks only (`COUNTBLANK`).
    Blank,
}

/// Whether a value of kind `k` is counted.
pub open spec fn counts(c: Counted, k: ValueKind) -> bool {
    match c {
        Counted::Numeric => is_numeric(k),
        Counted::NonBlank => !(k is Empty),
        Counted::Blank => k is Empty,
    }
}

/// How many values of `s` are counted.
pub open spec fn count_where(s: Seq<ValueKind>, c: Counted) -> nat
    decreases s.len(),
{
    if s.len() == 0 {
        0
    } else {
        count_where(s.drop_last(), c) + if counts(c, s.last()) {
            1nat
        } else {
            0nat
        }
    }
}

proof fn lemma_count_where_step(s: Seq<ValueKind>, c: Counted, i: int)
    requires
        0 <= i < s.len(),
    ensures
        count_where(s.take(i + 1), c) == count_where(s.take(i), c) + if counts(c, s[i]) {
            1nat
        } else {
            0nat
        },
        count_where(s.take(i), c) <= i,
    decreases i,
{
    assert(s.take(i + 1).drop_last() =~= s.take(i));
    if i > 0 {
        lemma_count_where_step(s, c, i - 1);
    } else {
        assert(s.take(0).len() == 0);
    }
}

fn is_counted(c: Counted, k: ValueKind) -> (r: bool)
    ensures
        r == counts(c, k),
{
    match c {
        Counted::Numeric => matches!(k, ValueKind::Number | ValueKind::Integer | ValueKind::Date),
        Counted::NonBlank => !matches!(k, ValueKind::Empty),
        Counted::Blank => matches!(k, ValueKind::Empty),
    }
}

fn count_kinds(values: &[ValueKind], c: Counted) -> (n: u64)
    ensures
        n == count_where(values@, c),
{
    assert(values@.len() == values.len());
    let mut n: u64 = 0;
    let mut i: usize = 0;
    while i < values.len()
        invariant
            i <= values@.len(),
            values@.len() <= u64::MAX,
            n == count_where(values@.take(i as int), c),
        decreases values@.len() - i,
    {
        proof {
            lemma_count_where_step(values@, c, i as int);
        }
        if is_counted(c, values[i]) {
            n = n + 1;
        }
        i += 1;
    }
    proof {
        assert(values@.take(i as int) =~= values@);
    }
    n
}

/// `COUNT`: how many values are numbers, integers or dates; text, booleans,
/// blanks and errors are skipped. It never fails.
pub fn count(values: &[ValueKind]) -> (r: Result<u64, CellError>)
    ensures
        r matches Ok(n) && n == count_where(values@, Counted::Numeric),
{
    Ok(count_kinds(values, Counted::Numeric))
}

/// `COUNTA`: how many values are not blank; errors count. It never fails.
pub fn counta(values: &[ValueKind]) -> (r: Result<u64, CellError>)
    ensures
        r matches Ok(n) && n == count_where(values@, Counted::NonBlank),
{
    Ok(count_kinds(values, Counted::NonBlank))
}

/// `COUNTBLANK`: how many values are blank; text and errors are not. It
/// never fails.
pub fn countblank(values: &[ValueKind]) -> (r: Result<u64, CellError>)
    ensures
        r matches Ok(n) && n == count_where(values@, Counted::Blank),
{
    Ok(count_kinds(values, Counted::Blank))
}

/// Every value is either blank or not: `COUNTA` and `COUNTBLANK` add up to
/// the number of values.
pub proof fn law_counta_plus_countblank(s: Seq<ValueKind>)
    ensures
        count_where(s, Counted::NonBlank) + count_where(s, Counted::Blank) == s.len(),
        count_where(s, Counted::Numeric) <= count_where(s, Counted::NonBlank),
    decreases s.len(),
{
    if s.len() > 0 {
        law_counta_plus_countblank(s.drop_last());
    }
}

} // verus!
