use vstd::prelude::*;

verus! {

/// Whether an `AGGREGATE` options code asks for error values to be skipped.
///
/// Codes 2, 3, 6 and 7 ignore errors; every other code keeps them.
pub fn options_ignore_errors(options: u8) -> (r: bool)
    ensures
        r <==> (options == 2 || options == 3 || options == 6 || options == 7),
{
    options == 2 || options == 3 || options == 6 || options == 7
}

/// The canonical `SUBTOTAL` function number (`1..=11`) of a code: `1..=11`
/// stand for themselves, `101..=111` for the same functions skipping hidden
/// rows; any other code has none.
pub open spec fn spec_subtotal_fn(n: int) -> Option<int> {
    if 1 <= n <= 11 {
        Some(n)
    } else if 101 <= n <= 111 {
        Some(n - 100)
    } else {
        None
    }
}

/// Resolves a whole `SUBTOTAL` function code.
pub fn resolve_subtotal_num(n: i32) -> (r: Option<u8>)
    ensures
        match r {
            Some(k) => spec_subtotal_fn(n as int) == Some(k as int),
            None => spec_subtotal_fn(n as int) is None,
        },
{
    if 1 <= n && n <= 11 {
        Some(n as u8)
    } else if 101 <= n && n <= 111 {
        Some((n - 100) as u8)
    } else {
        None
    }
}

/// A code and the same code plus 100 name the same function.
pub proof fn law_subtotal_codes_pair_up(n: int)
    requires
        1 <= n <= 11,
    ensures
        spec_subtotal_fn(n) == spec_subtotal_fn(n + 100),
        spec_subtotal_fn(n) == Some(n),
{
}

} // verus!
