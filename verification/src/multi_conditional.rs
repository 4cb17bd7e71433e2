//! Keys of multi-criteria conditional aggregates (`SUMIFS`, `COUNTIFS`).
use vstd::prelude::*;

use crate::text::{lower_seq, push_str, to_ascii_lowercase};

verus! {

/// The strings of `list` joined with `sep` between neighbours.
pub open spec fn join_with(list: Seq<Seq<char>>, sep: Seq<char>) -> Seq<char>
    decreases list.len(),
{
    if list.len() == 0 {
        Seq::empty()
    } else if list.len() == 1 {
        list[0]
    } else {
        join_with(list.drop_last(), sep) + sep + list.last()
    }
}

/// The composite bucket key of a row: its criteria values, each ASCII
/// lower-cased, joined by `\0`.
pub fn build_composite_key(criteria_values: &[String]) -> (r: String)
    ensures
        r@ == join_with(criteria_values@.map_values(|v: String| lower_seq(v@)), "\0"@),
{
    let ghost list = criteria_values@.map_values(|v: String| lower_seq(v@));
    let mut s = String::new();
    let mut i: usize = 0;
    while i < criteria_values.len()
        invariant
            i <= criteria_values@.len(),
            list == criteria_values@.map_values(|v: String| lower_seq(v@)),
            s@ == join_with(list.take(i as int), "\0"@),
        decreases criteria_values@.len() - i,
    {
        if i > 0 {
            push_str(&mut s, "\0");
        }
        let lowered = to_ascii_lowercase(criteria_values[i].as_str());
        push_str(&mut s, lowered.as_str());
        proof {
            assert(list.take(i + 1).drop_last() =~= list.take(i as int));
            assert(list.take(i + 1).last() == lower_seq(criteria_values@[i as int]@));
            if i == 0 {
                assert(s@ =~= list.take(1)[0]);
            }
        }
        i += 1;
    }
    proof {
        assert(list.take(i as int) =~= list);
    }
    s
}

} // verus!
