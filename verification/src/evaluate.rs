//! Evaluation summary, formula-text normalisation, and the column
//! dependencies of an evaluation plan.
use vstd::prelude::*;

use crate::text::{chars_of, string_from_chars};

verus! {

/// Summary statistics returned by an evaluation run.
#[derive(Debug, Default, PartialEq, Eq)]
pub struct EvaluateSummary {
    /// Total rows written across all sheets (including header rows).
    pub rows_processed: u64,
    /// Total formula cells evaluated.
    pub formulas_evaluated: u64,
    /// Wall-clock duration of the full evaluation run.
    pub duration: std::time::Duration,
}

impl Clone for EvaluateSummary {
    fn clone(&self) -> (r: Self)
        ensures
            r == *self,
    {
        EvaluateSummary {
            rows_processed: self.rows_processed,
            formulas_evaluated: self.formulas_evaluated,
            duration: self.duration,
        }
    }
}

/// `s` occurs in `t` at index `i`.
pub open spec fn occurs_at(t: Seq<char>, i: int, s: Seq<char>) -> bool {
    0 <= i && i + s.len() <= t.len() && t.subrange(i, i + s.len()) == s
}

/// `t` from index `i` on, with every occurrence of the non-empty `s` found
/// left to right removed (`str::replace(s, "")`).
pub open spec fn remove_from(t: Seq<char>, s: Seq<char>, i: int) -> Seq<char>
    decreases t.len() - i,
{
    if i < 0 || i >= t.len() {
        Seq::empty()
    } else if s.len() > 0 && occurs_at(t, i, s) {
        remove_from(t, s, i + s.len())
    } else {
        seq![t[i]] + remove_from(t, s, i + 1)
    }
}

/// `t` with every occurrence of `s` removed, left to right.
pub open spec fn remove_all(t: Seq<char>, s: Seq<char>) -> Seq<char> {
    remove_from(t, s, 0)
}

fn occurs_at_exec(t: &Vec<char>, i: usize, s: &Vec<char>) -> (r: bool)
    requires
        i <= t@.len(),
    ensures
        r == occurs_at(t@, i as int, s@),
{
    let n = t.len();
    if s.len() > n - i {
        return false;
    }
    let mut k: usize = 0;
    while k < s.len()
        invariant
            n == t@.len(),
            k <= s@.len(),
            i <= t@.len(),
            i + s@.len() <= t@.len(),
            forall|j: int| 0 <= j < k ==> t@[i + j] == s@[j],
        decreases s@.len() - k,
    {
        if t[i + k] != s[k] {
            proof {
                assert(t@.subrange(i as int, i + s@.len())[k as int] != s@[k as int]);
            }
            return false;
        }
        k += 1;
    }
    proof {
        assert(t@.subrange(i as int, i + s@.len()) =~= s@);
    }
    true
}

/// `t` with every occurrence of `s` removed, left to right.
fn remove_all_exec(t: &Vec<char>, s: &Vec<char>) -> (r: Vec<char>)
    ensures
        r@ == remove_all(t@, s@),
{
    let mut out: Vec<char> = Vec::new();
    let mut i: usize = 0;
    while i < t.len()
        invariant
            i <= t@.len(),
            remove_all(t@, s@) == out@ + remove_from(t@, s@, i as int),
        decreases t@.len() - i,
    {
        if s.len() > 0 && occurs_at_exec(t, i, s) {
            i += s.len();
        } else {
            proof {
                assert(out@.push(t@[i as int]) + remove_from(t@, s@, i + 1) =~= out@ + (seq![
                    t@[i as int],
                ] + remove_from(t@, s@, i + 1)));
            }
            out.push(t[i]);
            i += 1;
        }
    }
    proof {
        assert(out@ + remove_from(t@, s@, i as int) =~= out@);
    }
    out
}

/// The formula text with the `_xlfn._xlws.` and then the `_xlfn.` prefixes
/// removed: xlsx files mark "future" functions (CONCAT, IFS, ...) with them,
/// and they are not part of the function name.
pub fn strip_xlfn_prefix(formula: &str) -> (r: String)
    ensures
        r@ == remove_all(remove_all(formula@, "_xlfn._xlws."@), "_xlfn."@),
{
    let t = chars_of(formula);
    let long = chars_of("_xlfn._xlws.");
    let short = chars_of("_xlfn.");
    let once = remove_all_exec(&t, &long);
    let twice = remove_all_exec(&once, &short);
    string_from_chars(twice.as_slice())
}

/// The 0-based column named by the 1-based column number of a cell
/// reference (`saturating_sub(1)`).
pub open spec fn ref_col_index(c: u32) -> u32 {
    if c == 0 {
        0
    } else {
        (c - 1) as u32
    }
}

/// Some reference of `ref_cols` names column `x`.
pub open spec fn names_col(ref_cols: Seq<u32>, x: u32) -> bool {
    exists|k: int| 0 <= k < ref_cols.len() && ref_col_index(#[trigger] ref_cols[k]) == x
}

/// The dependencies of formula column `col` (0-based), given the 1-based
/// columns of the cell references in its formulas: every column they name,
/// once, other than `col` itself; and whether `col` names itself (a
/// self-referential column).
pub fn column_dependencies(col: u32, ref_cols: &Vec<u32>) -> (r: (Vec<u32>, bool))
    ensures
        forall|x: u32| r.0@.contains(x) <==> (x != col && names_col(ref_cols@, x)),
        r.0@.no_duplicates(),
        r.1 == names_col(ref_cols@, col),
{
    let mut deps: Vec<u32> = Vec::new();
    let mut self_ref = false;
    let mut i: usize = 0;
    while i < ref_cols.len()
        invariant
            i <= ref_cols@.len(),
            forall|x: u32| deps@.contains(x) <==> (x != col && names_col(ref_cols@.take(i as int), x)),
            deps@.no_duplicates(),
            self_ref == names_col(ref_cols@.take(i as int), col),
        decreases ref_cols@.len() - i,
    {
        let x = ref_cols[i].saturating_sub(1);
        let ghost d0 = deps@;
        let ghost before = ref_cols@.take(i as int);
        let ghost after = ref_cols@.take(i + 1);
        proof {
            assert(after == before.push(ref_cols@[i as int]));
            assert(ref_col_index(ref_cols@[i as int]) == x);
            assert forall|y: u32| names_col(after, y) <==> (names_col(before, y) || y == x) by {
                if names_col(after, y) {
                    let k = choose|k: int| 0 <= k < after.len() && ref_col_index(#[trigger] after[k]) == y;
                    if k < before.len() {
                        assert(before[k] == after[k]);
                    }
                }
                if names_col(before, y) {
                    let k = choose|k: int| 0 <= k < before.len() && ref_col_index(#[trigger] before[k]) == y;
                    assert(after[k] == before[k]);
                }
                if y == x {
                    assert(ref_col_index(after[i as int]) == y);
                }
            }
        }
        if x == col {
            self_ref = true;
            proof {
                assert(deps@ == d0);
            }
        } else {
            let mut found = false;
            let mut k: usize = 0;
            while k < deps.len()
                invariant
                    k <= deps@.len(),
                    found == (exists|m: int| 0 <= m < k && deps@[m] == x),
                decreases deps@.len() - k,
            {
                if deps[k] == x {
                    found = true;
                }
                k += 1;
            }
            if !found {
                let ghost old_deps = deps@;
                deps.push(x);
                proof {
                    assert(deps@[old_deps.len() as int] == x);
                    assert(deps@.contains(x));
                    assert forall|a: int, b: int| 0 <= a < b < deps@.len() implies deps@[a] != deps@[b] by {
                        if b == deps@.len() - 1 {
                            assert(deps@[a] == old_deps[a]);
                        } else {
                            assert(old_deps[a] != old_deps[b]);
                        }
                    }
                    assert forall|y: u32| deps@.contains(y) <==> (old_deps.contains(y) || y == x) by {
                        if deps@.contains(y) {
                            let m = deps@.index_of(y);
                            if m < old_deps.len() {
                                assert(old_deps[m] == y);
                            }
                        }
                        if old_deps.contains(y) {
                            let m = old_deps.index_of(y);
                            assert(deps@[m] == y);
                        }
                        if y == x {
                            assert(deps@[old_deps.len() as int] == x);
                        }
                    }
                }
            } else {
                proof {
                    let m = choose|m: int| 0 <= m < k && deps@[m] == x;
                    assert(deps@.contains(x));
                    assert(deps@ == d0);
                }
            }
        }
        proof {
            assert forall|y: u32| deps@.contains(y) <==> (d0.contains(y) || (y == x && x != col)) by {
                if x != col && y == x {
                    assert(deps@.contains(x));
                }
            }
            assert forall|y: u32| deps@.contains(y) <==> (y != col && names_col(after, y)) by {
                assert(names_col(after, y) <==> (names_col(before, y) || y == x));
                assert(d0.contains(y) <==> (y != col && names_col(before, y)));
            }
        }
        i += 1;
    }
    proof {
        assert(ref_cols@.take(i as int) =~= ref_cols@);
    }
    (deps, self_ref)
}

} // verus!
