//! Indexes of a pre-loaded lookup sheet: exact match (the first row or
//! column holding a key) and approximate match (the last entry whose key is
//! at most the probe), over the keys of its cells.
use std::collections::HashMap;

use vstd::prelude::*;

use crate::lookup::{key_le, key_lt, lemma_key_lt_transitive, lemma_key_order, KeyView, LookupValue};

verus! {

broadcast use vstd::std_specs::hash::group_hash_axioms;

/// The key a cell stands for.
pub open spec fn opt_view(o: Option<LookupValue>) -> Option<KeyView> {
    match o {
        Some(v) => Some(v.view()),
        None => None,
    }
}

/// The keys of a line of cells.
pub open spec fn line_view(line: Seq<Option<LookupValue>>) -> Seq<Option<KeyView>> {
    line.map_values(|o: Option<LookupValue>| opt_view(o))
}

/// The first position of `line` holding key `k`.
pub open spec fn first_position(line: Seq<Option<KeyView>>, k: KeyView) -> Option<int>
    decreases line.len(),
{
    if line.len() == 0 {
        None
    } else {
        match first_position(line.drop_last(), k) {
            Some(i) => Some(i),
            None => if line.last() == Some(k) {
                Some(line.len() - 1)
            } else {
                None
            },
        }
    }
}

/// An exact match is the first position holding the key, and there is none
/// exactly when no position holds it.
pub proof fn law_first_match_wins(line: Seq<Option<KeyView>>, k: KeyView)
    ensures
        match first_position(line, k) {
            Some(i) => 0 <= i < line.len() && line[i] == Some(k) && forall|j: int|
                0 <= j < i ==> line[j] != Some(k),
            None => forall|j: int| 0 <= j < line.len() ==> line[j] != Some(k),
        },
    decreases line.len(),
{
    if line.len() > 0 {
        law_first_match_wins(line.drop_last(), k);
        match first_position(line.drop_last(), k) {
            Some(i) => {
                assert forall|j: int| 0 <= j < i implies line[j] != Some(k) by {
                    assert(line[j] == line.drop_last()[j]);
                }
                assert(line[i] == line.drop_last()[i]);
            },
            None => {
                assert forall|j: int| 0 <= j < line.len() - 1 implies line[j] != Some(k) by {
                    assert(line[j] == line.drop_last()[j]);
                }
            },
        }
    }
}

/// `(key, position)` pairs in order of key, then position.
pub open spec fn pair_lt(a: (KeyView, int), b: (KeyView, int)) -> bool {
    key_lt(a.0, b.0) || (a.0 == b.0 && a.1 < b.1)
}

/// `r` is an approximate match of `probe` in `line`: among the positions
/// whose key is at most `probe`, the one with the greatest key, and of
/// those the last.
pub open spec fn is_approx_match(line: Seq<Option<KeyView>>, probe: KeyView, r: int) -> bool {
    &&& 0 <= r < line.len()
    &&& line[r] is Some
    &&& key_le(line[r]->0, probe)
    &&& forall|j: int|
        0 <= j < line.len() && line[j] is Some && key_le(line[j]->0, probe) ==> (j == r || pair_lt(
            (line[j]->0, j),
            (line[r]->0, r),
        ))
}

/// No position of `line` has a key at most `probe`.
pub open spec fn no_key_at_most(line: Seq<Option<KeyView>>, probe: KeyView) -> bool {
    forall|j: int| 0 <= j < line.len() && line[j] is Some ==> !key_le(line[j]->0, probe)
}

/// When the probe itself occurs, the approximate match is its last
/// occurrence.
pub proof fn law_approx_match_of_present_key(line: Seq<Option<KeyView>>, probe: KeyView, r: int, i: int)
    requires
        is_approx_match(line, probe, r),
        0 <= i < line.len(),
        line[i] == Some(probe),
    ensures
        line[r] == Some(probe),
        forall|j: int| r < j < line.len() ==> line[j] != Some(probe),
{
    lemma_key_order(line[r]->0, probe);
    lemma_key_order(probe, probe);
    if i != r {
        assert(pair_lt((line[i]->0, i), (line[r]->0, r)));
    }
    assert forall|j: int| r < j < line.len() implies line[j] != Some(probe) by {
        if line[j] == Some(probe) {
            assert(pair_lt((line[j]->0, j), (line[r]->0, r)));
        }
    }
}

/// Keys of `e` strictly increase.
pub open spec fn keys_increase(e: Seq<(LookupValue, usize)>) -> bool {
    forall|i: int, j: int| 0 <= i < j < e.len() ==> key_lt(#[trigger] e[i].0.view(), #[trigger] e[j].0.view())
}

/// `(key, position)` pairs of `e` strictly increase.
pub open spec fn pairs_increase(e: Seq<(LookupValue, usize)>) -> bool {
    forall|i: int, j: int|
        0 <= i < j < e.len() ==> pair_lt(
            (#[trigger] e[i].0.view(), e[i].1 as int),
            (#[trigger] e[j].0.view(), e[j].1 as int),
        )
}

/// An exact-match index of one line: each key with its first position.
pub struct KeyIndex {
    entries: Vec<(LookupValue, usize)>,
}

/// An approximate-match index of one line: every keyed position, sorted
/// by key and then position.
pub struct SortedKeys {
    entries: Vec<(LookupValue, usize)>,
}

impl KeyIndex {
    /// This index holds, for every key of `line`, its first position.
    pub closed spec fn indexes(&self, line: Seq<Option<KeyView>>) -> bool {
        Self::entries_index(self.entries@, line)
    }

    spec fn entries_index(e: Seq<(LookupValue, usize)>, line: Seq<Option<KeyView>>) -> bool {
        &&& keys_increase(e)
        &&& forall|j: int|
            0 <= j < e.len() ==> first_position(line, #[trigger] e[j].0.view()) == Some(
                e[j].1 as int,
            )
        &&& forall|k: KeyView|
            #[trigger] first_position(line, k) is Some ==> exists|j: int|
                0 <= j < e.len() && e[j].0.view() == k
    }

    /// Binary search: `Ok(j)` where entry `j` has the key, else `Err(p)`
    /// with the keys before `p` smaller and the others greater.
    fn find(entries: &Vec<(LookupValue, usize)>, key: &LookupValue) -> (r: Result<usize, usize>)
        requires
            keys_increase(entries@),
        ensures
            match r {
                Ok(j) => j < entries@.len() && entries@[j as int].0.view() == key.view(),
                Err(p) => p <= entries@.len() && (forall|j: int|
                    0 <= j < p ==> key_lt(#[trigger] entries@[j].0.view(), key.view())) && (forall|j: int|
                    p <= j < entries@.len() ==> key_lt(key.view(), #[trigger] entries@[j].0.view())),
            },
    {
        let mut lo: usize = 0;
        let mut hi: usize = entries.len();
        while lo < hi
            invariant
                lo <= hi <= entries@.len(),
                keys_increase(entries@),
                forall|j: int| 0 <= j < lo ==> key_lt(#[trigger] entries@[j].0.view(), key.view()),
                forall|j: int| hi <= j < entries@.len() ==> key_lt(key.view(), #[trigger] entries@[j].0.view()),
            decreases hi - lo,
        {
            let mid = lo + (hi - lo) / 2;
            let c = entries[mid].0.compare(key);
            if c == 0 {
                return Ok(mid);
            } else if c < 0 {
                proof {
                    assert forall|j: int| 0 <= j < mid + 1 implies key_lt(
                        #[trigger] entries@[j].0.view(),
                        key.view(),
                    ) by {
                        if j < mid {
                            lemma_key_lt_transitive(entries@[j].0.view(), entries@[mid as int].0.view(), key.view());
                        }
                    }
                }
                lo = mid + 1;
            } else {
                proof {
                    assert forall|j: int| mid <= j < entries@.len() implies key_lt(
                        key.view(),
                        #[trigger] entries@[j].0.view(),
                    ) by {
                        if j > mid {
                            lemma_key_lt_transitive(key.view(), entries@[mid as int].0.view(), entries@[j].0.view());
                        }
                    }
                }
                hi = mid;
            }
        }
        Err(lo)
    }

    /// Indexes `line`: every key with the first position holding it.
    pub fn build(line: &Vec<Option<LookupValue>>) -> (r: Self)
        ensures
            r.indexes(line_view(line@)),
    {
        let ghost lv = line_view(line@);
        let mut entries: Vec<(LookupValue, usize)> = Vec::new();
        let mut i: usize = 0;
        while i < line.len()
            invariant
                i <= line@.len(),
                lv == line_view(line@),
                Self::entries_index(entries@, lv.take(i as int)),
            decreases line@.len() - i,
        {
            let ghost old_e = entries@;
            let ghost pre = lv.take(i as int);
            let ghost next = lv.take(i + 1);
            proof {
                assert(next.drop_last() =~= pre);
                assert(next.last() == lv[i as int]);
            }
            match &line[i] {
                None => {
                    proof {
                        assert forall|k: KeyView| first_position(next, k) == first_position(pre, k) by {}
                    }
                },
                Some(key) => {
                    proof {
                        assert(lv[i as int] == Some(key.view()));
                    }
                    match Self::find(&entries, key) {
                        Ok(_) => {
                            proof {
                                assert forall|k: KeyView| first_position(next, k) == first_position(pre, k) by {
                                    if k == key.view() {
                                        let j = choose|j: int| 0 <= j < old_e.len() && old_e[j].0.view() == k;
                                        assert(first_position(pre, old_e[j].0.view()) is Some);
                                    }
                                }
                            }
                        },
                        Err(p) => {
                            proof {
                                if first_position(pre, key.view()) is Some {
                                    let j = choose|j: int| 0 <= j < old_e.len() && old_e[j].0.view() == key.view();
                                    lemma_key_order(key.view(), key.view());
                                }
                                assert(first_position(pre, key.view()) is None);
                                assert(first_position(next, key.view()) == Some(i as int));
                                assert forall|k: KeyView| k != key.view() implies first_position(next, k)
                                    == first_position(pre, k) by {}
                            }
                            let copy = key.copy();
                            entries.insert(p, (copy, i));
                            proof {
                                let e = entries@;
                                assert(e =~= old_e.insert(p as int, (copy, i)));
                                assert forall|a: int, b: int| 0 <= a < b < e.len() implies key_lt(
                                    #[trigger] e[a].0.view(),
                                    #[trigger] e[b].0.view(),
                                ) by {
                                    if b < p {
                                    } else if a < p && b == p {
                                    } else if a < p && b > p {
                                        lemma_key_lt_transitive(e[a].0.view(), key.view(), e[b].0.view());
                                    } else if a == p {
                                    } else {
                                    }
                                }
                                assert forall|j: int| 0 <= j < e.len() implies first_position(
                                    next,
                                    #[trigger] e[j].0.view(),
                                ) == Some(e[j].1 as int) by {
                                    if j < p {
                                        assert(e[j] == old_e[j]);
                                        lemma_key_order(e[j].0.view(), key.view());
                                    } else if j > p {
                                        assert(e[j] == old_e[j - 1]);
                                        lemma_key_order(e[j].0.view(), key.view());
                                    }
                                }
                                assert forall|k: KeyView| #[trigger] first_position(next, k) is Some implies exists|j: int|
                                    0 <= j < e.len() && e[j].0.view() == k by {
                                    if k == key.view() {
                                        assert(e[p as int].0.view() == k);
                                    } else {
                                        assert(first_position(pre, k) is Some);
                                        let j = choose|j: int| 0 <= j < old_e.len() && old_e[j].0.view() == k;
                                        if j < p {
                                            assert(e[j] == old_e[j]);
                                        } else {
                                            assert(e[j + 1] == old_e[j]);
                                        }
                                    }
                                }
                            }
                        },
                    }
                },
            }
            i += 1;
        }
        proof {
            assert(lv.take(i as int) =~= lv);
        }
        KeyIndex { entries }
    }

    /// The first position of `line` holding `key`.
    pub(crate) fn get(&self, key: &LookupValue, Ghost(line): Ghost<Seq<Option<KeyView>>>) -> (r: Option<usize>)
        requires
            self.indexes(line),
        ensures
            match r {
                Some(i) => first_position(line, key.view()) == Some(i as int),
                None => first_position(line, key.view()) is None,
            },
    {
        match Self::find(&self.entries, key) {
            Ok(j) => Some(self.entries[j].1),
            Err(p) => {
                proof {
                    if first_position(line, key.view()) is Some {
                        let j = choose|j: int|
                            0 <= j < self.entries@.len() && self.entries@[j].0.view() == key.view();
                        lemma_key_order(key.view(), key.view());
                    }
                }
                None
            },
        }
    }
}

/// Keys of entries before `p` are at most `k`, the others greater.
pub open spec fn split_at_key(e: Seq<(LookupValue, usize)>, k: KeyView, p: int) -> bool {
    &&& 0 <= p <= e.len()
    &&& forall|j: int| 0 <= j < p ==> key_le(#[trigger] e[j].0.view(), k)
    &&& forall|j: int| p <= j < e.len() ==> key_lt(k, #[trigger] e[j].0.view())
}

proof fn lemma_pair_lt_keys(a: (KeyView, int), b: (KeyView, int))
    requires
        pair_lt(a, b),
    ensures
        key_le(a.0, b.0),
{
}

proof fn lemma_key_le_transitive(a: KeyView, b: KeyView, c: KeyView)
    requires
        key_le(a, b),
        key_le(b, c),
    ensures
        key_le(a, c),
{
    if key_lt(a, b) && key_lt(b, c) {
        lemma_key_lt_transitive(a, b, c);
    }
}

impl SortedKeys {
    /// This index holds exactly the keyed positions of `line`, in order of
    /// key and then position.
    pub closed spec fn holds(&self, line: Seq<Option<KeyView>>) -> bool {
        Self::entries_hold(self.entries@, line)
    }

    spec fn entries_hold(e: Seq<(LookupValue, usize)>, line: Seq<Option<KeyView>>) -> bool {
        &&& pairs_increase(e)
        &&& forall|j: int|
            0 <= j < e.len() ==> (#[trigger] e[j]).1 < line.len() && line[e[j].1 as int] == Some(
                e[j].0.view(),
            )
        &&& forall|r: int|
            0 <= r < line.len() && #[trigger] line[r] is Some ==> exists|j: int|
                0 <= j < e.len() && e[j].1 == r
    }

    /// The number of entries whose key is at most `key`.
    fn partition(entries: &Vec<(LookupValue, usize)>, key: &LookupValue) -> (p: usize)
        requires
            pairs_increase(entries@),
        ensures
            split_at_key(entries@, key.view(), p as int),
    {
        let mut lo: usize = 0;
        let mut hi: usize = entries.len();
        while lo < hi
            invariant
                lo <= hi <= entries@.len(),
                pairs_increase(entries@),
                forall|j: int| 0 <= j < lo ==> key_le(#[trigger] entries@[j].0.view(), key.view()),
                forall|j: int| hi <= j < entries@.len() ==> key_lt(key.view(), #[trigger] entries@[j].0.view()),
            decreases hi - lo,
        {
            let mid = lo + (hi - lo) / 2;
            let c = entries[mid].0.compare(key);
            let ghost m = entries@[mid as int].0.view();
            if c <= 0 {
                proof {
                    assert forall|j: int| 0 <= j < mid + 1 implies key_le(
                        #[trigger] entries@[j].0.view(),
                        key.view(),
                    ) by {
                        if j < mid {
                            lemma_pair_lt_keys(
                                (entries@[j].0.view(), entries@[j].1 as int),
                                (m, entries@[mid as int].1 as int),
                            );
                            lemma_key_le_transitive(entries@[j].0.view(), m, key.view());
                        }
                    }
                }
                lo = mid + 1;
            } else {
                proof {
                    assert forall|j: int| mid <= j < entries@.len() implies key_lt(
                        key.view(),
                        #[trigger] entries@[j].0.view(),
                    ) by {
                        if j > mid {
                            lemma_pair_lt_keys(
                                (m, entries@[mid as int].1 as int),
                                (entries@[j].0.view(), entries@[j].1 as int),
                            );
                            if m != entries@[j].0.view() {
                                lemma_key_lt_transitive(key.view(), m, entries@[j].0.view());
                            }
                        }
                    }
                }
                hi = mid;
            }
        }
        lo
    }

    /// Indexes every keyed position of `line`, sorted by key and position.
    pub fn build(line: &Vec<Option<LookupValue>>) -> (r: Self)
        ensures
            r.holds(line_view(line@)),
    {
        let ghost lv = line_view(line@);
        let mut entries: Vec<(LookupValue, usize)> = Vec::new();
        let mut i: usize = 0;
        while i < line.len()
            invariant
                i <= line@.len(),
                lv == line_view(line@),
                lv.len() == line@.len(),
                Self::entries_hold(entries@, lv.take(i as int)),
                forall|j: int| 0 <= j < entries@.len() ==> (#[trigger] entries@[j]).1 < i,
            decreases line@.len() - i,
        {
            let ghost old_e = entries@;
            let ghost pre = lv.take(i as int);
            let ghost next = lv.take(i + 1);
            match &line[i] {
                None => {
                    proof {
                        assert(next[i as int] == lv[i as int]);
                        assert forall|r: int|
                            0 <= r < next.len() && #[trigger] next[r] is Some implies exists|j: int|
                                0 <= j < old_e.len() && old_e[j].1 == r by {
                            assert(next[r] == pre[r]);
                        }
                        assert forall|j: int| 0 <= j < old_e.len() implies (#[trigger] old_e[j]).1 < next.len()
                            && next[old_e[j].1 as int] == Some(old_e[j].0.view()) by {
                            assert(next[old_e[j].1 as int] == pre[old_e[j].1 as int]);
                        }
                    }
                },
                Some(key) => {
                    let p = Self::partition(&entries, key);
                    let copy = key.copy();
                    entries.insert(p, (copy, i));
                    proof {
                        let e = entries@;
                        let k = key.view();
                        assert(lv[i as int] == Some(k));
                        assert(e =~= old_e.insert(p as int, (copy, i)));
                        assert forall|a: int, b: int| 0 <= a < b < e.len() implies pair_lt(
                            (#[trigger] e[a].0.view(), e[a].1 as int),
                            (#[trigger] e[b].0.view(), e[b].1 as int),
                        ) by {
                            if b < p {
                            } else if a < p && b == p {
                                assert(e[a] == old_e[a]);
                            } else if a < p && b > p {
                                assert(e[a] == old_e[a]);
                                assert(e[b] == old_e[b - 1]);
                            } else if a == p {
                                assert(e[b] == old_e[b - 1]);
                            } else {
                                assert(e[a] == old_e[a - 1]);
                                assert(e[b] == old_e[b - 1]);
                            }
                        }
                        assert forall|j: int| 0 <= j < e.len() implies (#[trigger] e[j]).1 < next.len()
                            && next[e[j].1 as int] == Some(e[j].0.view()) by {
                            if j < p {
                                assert(e[j] == old_e[j]);
                                assert(next[old_e[j].1 as int] == pre[old_e[j].1 as int]);
                            } else if j > p {
                                assert(e[j] == old_e[j - 1]);
                                assert(next[old_e[j - 1].1 as int] == pre[old_e[j - 1].1 as int]);
                            }
                        }
                        assert forall|r: int|
                            0 <= r < next.len() && #[trigger] next[r] is Some implies exists|j: int|
                                0 <= j < e.len() && e[j].1 == r by {
                            if r == i {
                                assert(e[p as int].1 == r);
                            } else {
                                assert(next[r] == pre[r]);
                                let j = choose|j: int| 0 <= j < old_e.len() && old_e[j].1 == r;
                                if j < p {
                                    assert(e[j] == old_e[j]);
                                } else {
                                    assert(e[j + 1] == old_e[j]);
                                }
                            }
                        }
                        assert forall|j: int| 0 <= j < e.len() implies (#[trigger] e[j]).1 < i + 1 by {
                            if j < p {
                                assert(e[j] == old_e[j]);
                            } else if j > p {
                                assert(e[j] == old_e[j - 1]);
                            }
                        }
                    }
                },
            }
            i += 1;
        }
        proof {
            assert(lv.take(i as int) =~= lv);
        }
        SortedKeys { entries }
    }

    /// The approximate match of `probe` in `line`.
    pub(crate) fn approx(&self, probe: &LookupValue, Ghost(line): Ghost<Seq<Option<KeyView>>>) -> (r: Option<usize>)
        requires
            self.holds(line),
        ensures
            match r {
                Some(i) => is_approx_match(line, probe.view(), i as int),
                None => no_key_at_most(line, probe.view()),
            },
    {
        let p = Self::partition(&self.entries, probe);
        let ghost e = self.entries@;
        let ghost k = probe.view();
        if p == 0 {
            proof {
                assert forall|r: int| 0 <= r < line.len() && line[r] is Some implies !key_le(
                    line[r]->0,
                    k,
                ) by {
                    let j = choose|j: int| 0 <= j < e.len() && e[j].1 == r;
                    assert(line[e[j].1 as int] == Some(e[j].0.view()));
                    lemma_key_order(e[j].0.view(), k);
                }
            }
            None
        } else {
            let r = self.entries[p - 1].1;
            proof {
                let top = e[p - 1];
                assert(line[top.1 as int] == Some(top.0.view()));
                assert forall|q: int|
                    0 <= q < line.len() && line[q] is Some && key_le(line[q]->0, k) implies (q == r
                        || pair_lt((line[q]->0, q), (line[r as int]->0, r as int))) by {
                    let j = choose|j: int| 0 <= j < e.len() && e[j].1 == q;
                    assert(line[e[j].1 as int] == Some(e[j].0.view()));
                    if j >= p {
                        lemma_key_order(e[j].0.view(), k);
                    } else if j < p - 1 {
                        assert(pair_lt((e[j].0.view(), e[j].1 as int), (top.0.view(), top.1 as int)));
                    }
                }
            }
            Some(r)
        }
    }
}

/// The key of cell `c` of a row; none past its end.
pub open spec fn key_at(row: Seq<Option<KeyView>>, c: int) -> Option<KeyView> {
    if 0 <= c < row.len() {
        row[c]
    } else {
        None
    }
}

/// The keys of column `c`, one per row.
pub open spec fn column_of(rows: Seq<Seq<Option<KeyView>>>, c: int) -> Seq<Option<KeyView>> {
    Seq::new(rows.len(), |r: int| key_at(rows[r], c))
}

/// The keys of row `r`; none past the last row.
pub open spec fn row_of(rows: Seq<Seq<Option<KeyView>>>, r: int) -> Seq<Option<KeyView>> {
    if 0 <= r < rows.len() {
        rows[r]
    } else {
        Seq::<Option<KeyView>>::empty()
    }
}

/// The keys of rows of cells.
pub open spec fn rows_view(rows: Seq<Vec<Option<LookupValue>>>) -> Seq<Seq<Option<KeyView>>> {
    rows.map_values(|row: Vec<Option<LookupValue>>| line_view(row@))
}

/// A copy of a cell's key.
fn copy_cell(o: &Option<LookupValue>) -> (r: Option<LookupValue>)
    ensures
        opt_view(r) == opt_view(*o),
{
    match o {
        Some(v) => Some(v.copy()),
        None => None,
    }
}

/// Copies of the keys of column `col`.
fn column_line(rows: &Vec<Vec<Option<LookupValue>>>, col: u32) -> (line: Vec<Option<LookupValue>>)
    ensures
        line_view(line@) == column_of(rows_view(rows@), col as int),
{
    let ghost target = column_of(rows_view(rows@), col as int);
    let mut line: Vec<Option<LookupValue>> = Vec::new();
    let mut r: usize = 0;
    while r < rows.len()
        invariant
            r <= rows@.len(),
            target == column_of(rows_view(rows@), col as int),
            line_view(line@) == target.take(r as int),
            line@.len() == r,
        decreases rows@.len() - r,
    {
        let row = &rows[r];
        let cell = if (col as usize) < row.len() {
            copy_cell(&row[col as usize])
        } else {
            None
        };
        proof {
            assert(rows_view(rows@)[r as int] == line_view(row@));
            assert(opt_view(cell) == target[r as int]);
        }
        let ghost before = line@;
        let ghost cv = opt_view(cell);
        line.push(cell);
        r += 1;
        proof {
            assert forall|k: int| 0 <= k < r implies #[trigger] line_view(line@)[k] == target.take(r as int)[k] by {
                if k < r - 1 {
                    assert(line@[k] == before[k]);
                    assert(line_view(before)[k] == target.take(r - 1)[k]);
                }
            }
            assert(line_view(line@) =~= target.take(r as int));
        }
    }
    proof {
        assert(target.take(r as int) =~= target);
    }
    line
}

/// Copies of the keys of row `row`; empty past the last row.
fn row_line(rows: &Vec<Vec<Option<LookupValue>>>, row: u32) -> (line: Vec<Option<LookupValue>>)
    ensures
        line_view(line@) == row_of(rows_view(rows@), row as int),
{
    let mut line: Vec<Option<LookupValue>> = Vec::new();
    if (row as usize) < rows.len() {
        let cells = &rows[row as usize];
        let ghost target = line_view(cells@);
        let mut c: usize = 0;
        while c < cells.len()
            invariant
                c <= cells@.len(),
                target == line_view(cells@),
                line_view(line@) == target.take(c as int),
                line@.len() == c,
            decreases cells@.len() - c,
        {
            let cell = copy_cell(&cells[c]);
            let ghost before = line@;
            line.push(cell);
            c += 1;
            proof {
                assert forall|k: int| 0 <= k < c implies #[trigger] line_view(line@)[k] == target.take(c as int)[k] by {
                    if k < c - 1 {
                        assert(line@[k] == before[k]);
                        assert(line_view(before)[k] == target.take(c - 1)[k]);
                    }
                }
                assert(line_view(line@) =~= target.take(c as int));
            }
        }
        proof {
            assert(target.take(c as int) =~= target);
            assert(rows_view(rows@)[row as int] == target);
        }
    } else {
        proof {
            assert(line_view(line@) =~= Seq::<Option<KeyView>>::empty());
        }
    }
    line
}

/// A pre-loaded lookup sheet: the key of every cell, row by row, with the
/// exact-match indexes of some columns and rows and the approximate-match
/// indexes of some columns.
pub struct LookupSheet {
    rows: Vec<Vec<Option<LookupValue>>>,
    col_indexes: HashMap<u32, KeyIndex>,
    row_indexes: HashMap<u32, KeyIndex>,
    col_sorted: HashMap<u32, SortedKeys>,
}

impl LookupSheet {
    /// The keys of the cells, row by row.
    pub closed spec fn keys(&self) -> Seq<Seq<Option<KeyView>>> {
        rows_view(self.rows@)
    }

    /// Column `col` has an exact-match index.
    pub closed spec fn has_col_index(&self, col: u32) -> bool {
        self.col_indexes@.contains_key(col)
    }

    /// Row `row` has an exact-match index.
    pub closed spec fn has_row_index(&self, row: u32) -> bool {
        self.row_indexes@.contains_key(row)
    }

    /// Column `col` has an approximate-match index.
    pub closed spec fn has_col_sorted(&self, col: u32) -> bool {
        self.col_sorted@.contains_key(col)
    }

    /// Every index built indexes the current keys.
    pub closed spec fn wf(&self) -> bool {
        &&& forall|c: u32| #[trigger]
            self.col_indexes@.contains_key(c) ==> self.col_indexes@[c].indexes(
                column_of(self.keys(), c as int),
            )
        &&& forall|r: u32| #[trigger]
            self.row_indexes@.contains_key(r) ==> self.row_indexes@[r].indexes(
                row_of(self.keys(), r as int),
            )
        &&& forall|c: u32| #[trigger]
            self.col_sorted@.contains_key(c) ==> self.col_sorted@[c].holds(
                column_of(self.keys(), c as int),
            )
    }

    /// Wraps the keys of the cells, row by row; no index is built yet.
    pub fn new(rows: Vec<Vec<Option<LookupValue>>>) -> (r: Self)
        ensures
            r.wf(),
            r.keys() == rows_view(rows@),
            forall|c: u32| !r.has_col_index(c) && !r.has_row_index(c) && !r.has_col_sorted(c),
    {
        LookupSheet {
            rows,
            col_indexes: HashMap::new(),
            row_indexes: HashMap::new(),
            col_sorted: HashMap::new(),
        }
    }

    /// Builds the exact-match index of column `col` (0-based), unless it
    /// exists: the first row holding each key.
    pub fn build_col_index(&mut self, col: u32)
        requires
            old(self).wf(),
        ensures
            final(self).wf(),
            final(self).keys() == old(self).keys(),
            forall|c: u32| #[trigger] final(self).has_col_index(c) == (c == col || old(self).has_col_index(c)),
            forall|c: u32| #[trigger] final(self).has_row_index(c) == old(self).has_row_index(c),
            forall|c: u32| #[trigger] final(self).has_col_sorted(c) == old(self).has_col_sorted(c),
    {
        if self.col_indexes.contains_key(&col) {
            return;
        }
        let line = column_line(&self.rows, col);
        let index = KeyIndex::build(&line);
        self.col_indexes.insert(col, index);
    }

    /// Builds the exact-match index of row `row` (0-based), unless it
    /// exists: the first column holding each key.
    pub fn build_row_index(&mut self, row: u32)
        requires
            old(self).wf(),
        ensures
            final(self).wf(),
            final(self).keys() == old(self).keys(),
            forall|c: u32| #[trigger] final(self).has_row_index(c) == (c == row || old(self).has_row_index(c)),
            forall|c: u32| #[trigger] final(self).has_col_index(c) == old(self).has_col_index(c),
            forall|c: u32| #[trigger] final(self).has_col_sorted(c) == old(self).has_col_sorted(c),
    {
        if self.row_indexes.contains_key(&row) {
            return;
        }
        let line = row_line(&self.rows, row);
        let index = KeyIndex::build(&line);
        self.row_indexes.insert(row, index);
    }

    /// Builds the approximate-match index of column `col` (0-based), unless
    /// it exists.
    pub fn build_col_sorted(&mut self, col: u32)
        requires
            old(self).wf(),
        ensures
            final(self).wf(),
            final(self).keys() == old(self).keys(),
            forall|c: u32| #[trigger] final(self).has_col_sorted(c) == (c == col || old(self).has_col_sorted(c)),
            forall|c: u32| #[trigger] final(self).has_col_index(c) == old(self).has_col_index(c),
            forall|c: u32| #[trigger] final(self).has_row_index(c) == old(self).has_row_index(c),
    {
        if self.col_sorted.contains_key(&col) {
            return;
        }
        let line = column_line(&self.rows, col);
        let index = SortedKeys::build(&line);
        self.col_sorted.insert(col, index);
    }

    /// The first row (0-based) whose cell in column `col` holds `key`;
    /// `None` without that column's exact-match index.
    pub fn col_lookup(&self, col: u32, key: &LookupValue) -> (r: Option<usize>)
        requires
            self.wf(),
        ensures
            !self.has_col_index(col) ==> r is None,
            self.has_col_index(col) ==> match r {
                Some(i) => first_position(column_of(self.keys(), col as int), key.view()) == Some(
                    i as int,
                ),
                None => first_position(column_of(self.keys(), col as int), key.view()) is None,
            },
    {
        match self.col_indexes.get(&col) {
            Some(index) => index.get(key, Ghost(column_of(self.keys(), col as int))),
            None => None,
        }
    }

    /// The first column (0-based) whose cell in row `row` holds `key`;
    /// `None` without that row's exact-match index.
    pub fn row_lookup(&self, row: u32, key: &LookupValue) -> (r: Option<usize>)
        requires
            self.wf(),
        ensures
            !self.has_row_index(row) ==> r is None,
            self.has_row_index(row) ==> match r {
                Some(i) => first_position(row_of(self.keys(), row as int), key.view()) == Some(i as int),
                None => first_position(row_of(self.keys(), row as int), key.view()) is None,
            },
    {
        match self.row_indexes.get(&row) {
            Some(index) => index.get(key, Ghost(row_of(self.keys(), row as int))),
            None => None,
        }
    }

    /// Approximate match in column `col`: the row of the greatest key at
    /// most `key` (the last such row among equal keys); `None` when every
    /// key is greater, or without that column's approximate-match index.
    pub fn col_approx_lookup(&self, col: u32, key: &LookupValue) -> (r: Option<usize>)
        requires
            self.wf(),
        ensures
            !self.has_col_sorted(col) ==> r is None,
            self.has_col_sorted(col) ==> match r {
                Some(i) => is_approx_match(column_of(self.keys(), col as int), key.view(), i as int),
                None => no_key_at_most(column_of(self.keys(), col as int), key.view()),
            },
    {
        match self.col_sorted.get(&col) {
            Some(index) => index.approx(key, Ghost(column_of(self.keys(), col as int))),
            None => None,
        }
    }

    /// The number of rows.
    pub fn num_rows(&self) -> (r: usize)
        ensures
            r == self.keys().len(),
    {
        self.rows.len()
    }

    /// The number of columns: that of the first row, 0 without rows.
    pub fn num_cols(&self) -> (r: usize)
        ensures
            r == (if self.keys().len() == 0 {
                0
            } else {
                self.keys()[0].len()
            }),
    {
        if self.rows.len() == 0 {
            0
        } else {
            self.rows[0].len()
        }
    }
}

} // verus!
