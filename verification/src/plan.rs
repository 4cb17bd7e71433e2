//! Choices made while planning an evaluation: which sheet is the main one,
//! and the list of sheets to pre-load for lookups, each named once
//! whatever its case.
use vstd::prelude::*;

use crate::text::{lower_chars, lower_seq};

verus! {

/// The first sheet that holds formulas is the main sheet.
pub open spec fn spec_main_sheet(has_formulas: Seq<bool>) -> Option<int>
    decreases has_formulas.len(),
{
    if has_formulas.len() == 0 {
        None
    } else {
        match spec_main_sheet(has_formulas.drop_last()) {
            Some(i) => Some(i),
            None => if has_formulas.last() {
                Some(has_formulas.len() - 1)
            } else {
                None
            },
        }
    }
}

/// The index of the main sheet among sheets of which `has_formulas` tells
/// which hold formulas; `None` when none does.
pub fn main_sheet(has_formulas: &[bool]) -> (r: Option<usize>)
    ensures
        match r {
            Some(i) => spec_main_sheet(has_formulas@) == Some(i as int),
            None => spec_main_sheet(has_formulas@) is None,
        },
{
    let mut i: usize = 0;
    while i < has_formulas.len()
        invariant
            i <= has_formulas@.len(),
            spec_main_sheet(has_formulas@.take(i as int)) is None,
        decreases has_formulas@.len() - i,
    {
        proof {
            assert(has_formulas@.take(i + 1).drop_last() =~= has_formulas@.take(i as int));
        }
        if has_formulas[i] {
            proof {
                lemma_main_sheet_prefix(has_formulas@, i as int);
            }
            return Some(i);
        }
        i += 1;
    }
    proof {
        assert(has_formulas@.take(i as int) =~= has_formulas@);
    }
    None
}

proof fn lemma_main_sheet_prefix(s: Seq<bool>, i: int)
    requires
        0 <= i < s.len(),
        s[i],
        spec_main_sheet(s.take(i)) is None,
    ensures
        spec_main_sheet(s) == Some(i),
    decreases s.len(),
{
    if i < s.len() - 1 {
        assert(s.drop_last().take(i) =~= s.take(i));
        lemma_main_sheet_prefix(s.drop_last(), i);
    } else {
        assert(s.drop_last() =~= s.take(i));
    }
}

/// The main sheet holds formulas, and no sheet before it does.
pub proof fn law_main_sheet_is_first_with_formulas(s: Seq<bool>)
    ensures
        match spec_main_sheet(s) {
            Some(i) => 0 <= i < s.len() && s[i] && forall|j: int| 0 <= j < i ==> !s[j],
            None => forall|j: int| 0 <= j < s.len() ==> !s[j],
        },
    decreases s.len(),
{
    if s.len() > 0 {
        law_main_sheet_is_first_with_formulas(s.drop_last());
        assert forall|j: int| 0 <= j < s.len() - 1 implies s[j] == s.drop_last()[j] by {}
    }
}

/// Two names are equal ignoring ASCII case (`str::eq_ignore_ascii_case`).
pub fn eq_ignore_ascii_case(a: &str, b: &str) -> (r: bool)
    ensures
        r == (lower_seq(a@) == lower_seq(b@)),
{
    let la = lower_chars(a);
    let lb = lower_chars(b);
    if la.len() != lb.len() {
        return false;
    }
    let mut i: usize = 0;
    while i < la.len()
        invariant
            i <= la@.len(),
            la@.len() == lb@.len(),
            la@ == lower_seq(a@),
            lb@ == lower_seq(b@),
            la@.take(i as int) == lb@.take(i as int),
        decreases la@.len() - i,
    {
        if la[i] != lb[i] {
            proof {
                assert(la@ != lb@) by {
                    if la@ == lb@ {
                        assert(la@[i as int] == lb@[i as int]);
                    }
                }
            }
            return false;
        }
        i += 1;
        proof {
            assert(la@.take(i as int) =~= la@.take(i - 1).push(la@[i - 1]));
            assert(lb@.take(i as int) =~= lb@.take(i - 1).push(lb@[i - 1]));
        }
    }
    proof {
        assert(la@.take(i as int) =~= la@);
        assert(lb@.take(i as int) =~= lb@);
    }
    true
}

/// No two names of `names` are equal ignoring ASCII case.
pub open spec fn names_distinct_ignoring_case(names: Seq<String>) -> bool {
    forall|i: int, j: int|
        0 <= i < j < names.len() ==> lower_seq(#[trigger] names[i]@) != lower_seq(#[trigger] names[j]@)
}

/// Adds sheet `name` to `sheets` unless a sheet of that name, in any case,
/// is there already.
pub fn push_sheet_once(sheets: &mut Vec<String>, name: &str)
    ensures
        (exists|i: int| 0 <= i < old(sheets)@.len() && lower_seq(old(sheets)@[i]@) == lower_seq(name@))
            ==> final(sheets)@ == old(sheets)@,
        !(exists|i: int| 0 <= i < old(sheets)@.len() && lower_seq(old(sheets)@[i]@) == lower_seq(name@))
            ==> final(sheets)@.len() == old(sheets)@.len() + 1 && final(sheets)@.take(
            old(sheets)@.len() as int,
        ) == old(sheets)@ && final(sheets)@.last()@ == name@,
        names_distinct_ignoring_case(old(sheets)@) ==> names_distinct_ignoring_case(final(sheets)@),
{
    let mut i: usize = 0;
    while i < sheets.len()
        invariant
            i <= sheets@.len(),
            sheets@ == old(sheets)@,
            forall|j: int| 0 <= j < i ==> lower_seq(#[trigger] sheets@[j]@) != lower_seq(name@),
        decreases sheets@.len() - i,
    {
        if eq_ignore_ascii_case(sheets[i].as_str(), name) {
            return;
        }
        i += 1;
    }
    let ghost before = sheets@;
    sheets.push(name.to_string());
    proof {
        assert(sheets@.take(before.len() as int) =~= before);
        assert forall|a: int, b: int|
            names_distinct_ignoring_case(before) && 0 <= a < b < sheets@.len() implies lower_seq(
            #[trigger] sheets@[a]@,
        ) != lower_seq(#[trigger] sheets@[b]@) by {
            if b == before.len() {
                assert(sheets@[a] == before[a]);
            } else {
                assert(sheets@[a] == before[a]);
                assert(sheets@[b] == before[b]);
            }
        }
    }
}

} // verus!
