//! Row-sharded parallel evaluation: how many workers, which rows each one
//! evaluates, and the collector that writes the rows the workers send back
//! in row order.
use std::collections::BTreeMap;

use vstd::prelude::*;

use crate::error::XlStreamError;

verus! {

broadcast use {vstd::std_specs::btree::group_btree_axioms, vstd::laws_cmp::group_laws_cmp};

/// Minimum data rows on the main sheet before parallel workers are used.
pub const PARALLEL_ROW_THRESHOLD: u32 = 10_000;

/// The most formula columns a row can have: the column limit of a sheet.
pub const MAX_FORMULAS_PER_ROW: u64 = 16_384;

/// `num_cpus::get`: the number of CPUs available to this process, which
/// the crate documents to be at least 1. It depends on the machine, so
/// nothing more is stated of it.
#[verifier::external_body]
fn available_cpus() -> (r: usize)
    ensures
        r >= 1,
{
    num_cpus::get()
}

/// The number of workers for a run: the requested count, or else the
/// number of CPUs; at least 1.
pub open spec fn spec_workers_for(requested: Option<usize>, cpus: usize) -> usize {
    let n = match requested {
        Some(w) => w,
        None => cpus,
    };
    if n >= 1 {
        n
    } else {
        1
    }
}

/// The number of workers for a run, given the number of CPUs: the requested
/// count, or else the CPUs; at least 1.
pub fn workers_for(requested: Option<usize>, cpus: usize) -> (r: usize)
    ensures
        r == spec_workers_for(requested, cpus),
{
    let n = match requested {
        Some(w) => w,
        None => cpus,
    };
    if n >= 1 {
        n
    } else {
        1
    }
}

/// The number of workers: the requested count, or else the CPUs of this
/// machine (as `num_cpus::get` reports them); at least 1.
pub fn worker_count(requested: Option<usize>) -> (r: usize)
    ensures
        r >= 1,
        requested matches Some(w) ==> r == (if w >= 1 {
            w
        } else {
            1
        }),
{
    let cpus = match requested {
        Some(_) => 1,
        None => available_cpus(),
    };
    workers_for(requested, cpus)
}

/// Whether the main sheet is evaluated by several workers: there must be
/// more than one worker, a main sheet with formula columns, and at least
/// [`PARALLEL_ROW_THRESHOLD`] data rows.
pub fn use_parallel(
    num_workers: usize,
    has_main_sheet: bool,
    has_formula_columns: bool,
    total_data_rows: u32,
) -> (r: bool)
    ensures
        r == (num_workers > 1 && has_main_sheet && has_formula_columns && total_data_rows
            >= PARALLEL_ROW_THRESHOLD),
{
    num_workers > 1 && has_main_sheet && has_formula_columns && total_data_rows
        >= PARALLEL_ROW_THRESHOLD
}

/// Rows per worker: `total` divided by `workers`, rounded up.
pub open spec fn chunk_size(total: int, workers: int) -> int {
    (total + workers - 1) / workers
}

/// The rows `[start, end)` that worker `id` of `workers` evaluates, data
/// rows being `1..=total` below the header row 0: chunk `id` of
/// [`chunk_size`] rows, the start saturating below `u32::MAX` and the end
/// at `u32::MAX` and at `total + 1`.
pub open spec fn spec_worker_rows(id: int, workers: int, total: int) -> (int, int) {
    let c = chunk_size(total, workers);
    let first = if id * c <= u32::MAX {
        id * c
    } else {
        u32::MAX - 1
    };
    let last = if 1 + (id + 1) * c <= u32::MAX {
        1 + (id + 1) * c
    } else {
        u32::MAX as int
    };
    (1 + first, if last <= 1 + total {
        last
    } else {
        1 + total
    })
}

/// The rows of worker `worker_id`.
pub fn worker_rows(worker_id: usize, num_workers: usize, total_data_rows: u32) -> (r: (u32, u32))
    requires
        num_workers >= 1,
        worker_id < num_workers,
        total_data_rows < u32::MAX,
        total_data_rows + num_workers <= usize::MAX,
        worker_id * chunk_size(total_data_rows as int, num_workers as int) != u32::MAX,
    ensures
        (r.0 as int, r.1 as int) == spec_worker_rows(
            worker_id as int,
            num_workers as int,
            total_data_rows as int,
        ),
{
    let total = total_data_rows as usize;
    let chunk = (total + num_workers - 1) / num_workers;
    proof {
        let a = total + num_workers - 1;
        vstd::arithmetic::div_mod::lemma_fundamental_div_mod(a as int, num_workers as int);
        vstd::arithmetic::div_mod::lemma_mod_bound(a as int, num_workers as int);
        assert(num_workers * chunk <= a);
        assert((worker_id + 1) * chunk <= num_workers * chunk) by (nonlinear_arith)
            requires
                worker_id + 1 <= num_workers,
                chunk >= 0,
        ;
        assert(worker_id * chunk <= (worker_id + 1) * chunk) by (nonlinear_arith)
            requires
                chunk >= 0,
        ;
    }
    let first_raw = worker_id * chunk;
    let first: u32 = if first_raw <= 0xFFFF_FFFF {
        first_raw as u32
    } else {
        0xFFFF_FFFE
    };
    let last_raw = 1 + (worker_id + 1) * chunk;
    let last: u32 = if last_raw <= 0xFFFF_FFFF {
        last_raw as u32
    } else {
        0xFFFF_FFFF
    };
    let end = if last <= 1 + total_data_rows {
        last
    } else {
        1 + total_data_rows
    };
    (1 + first, end)
}

/// Every data row is evaluated by exactly one worker: row `row` by worker
/// `(row - 1) / chunk_size`.
pub proof fn law_workers_partition_rows(workers: int, total: int, row: int, id: int)
    requires
        workers >= 1,
        0 <= total < u32::MAX,
        1 <= row <= total,
        0 <= id < workers,
    ensures
        (spec_worker_rows(id, workers, total).0 <= row < spec_worker_rows(id, workers, total).1)
            <==> id == (row - 1) / chunk_size(total, workers),
{
    let c = chunk_size(total, workers);
    vstd::arithmetic::div_mod::lemma_fundamental_div_mod(total + workers - 1, workers);
    vstd::arithmetic::div_mod::lemma_mod_bound(total + workers - 1, workers);
    assert(c >= 1) by (nonlinear_arith)
        requires
            c == (total + workers - 1) / workers,
            total >= 1,
            workers >= 1,
            c * workers + (total + workers - 1) % workers == total + workers - 1,
            0 <= (total + workers - 1) % workers < workers,
    ;
    let k = (row - 1) / c;
    vstd::arithmetic::div_mod::lemma_fundamental_div_mod(row - 1, c);
    vstd::arithmetic::div_mod::lemma_mod_bound(row - 1, c);
    assert(k * c <= row - 1 < (k + 1) * c) by (nonlinear_arith)
        requires
            c * k + (row - 1) % c == row - 1,
            0 <= (row - 1) % c < c,
    ;
    if id < k {
        assert((id + 1) * c <= k * c) by (nonlinear_arith)
            requires
                id + 1 <= k,
                c >= 1,
        ;
    } else if id > k {
        assert((k + 1) * c <= id * c) by (nonlinear_arith)
            requires
                k + 1 <= id,
                c >= 1,
        ;
    }
}

/// The formula counts of the rows `keys` of `pending`, added up.
pub open spec fn formulas_of<T>(pending: Map<u32, (T, u64)>, keys: Seq<u32>) -> int
    decreases keys.len(),
{
    if keys.len() == 0 {
        0
    } else {
        formulas_of(pending, keys.drop_last()) + pending[keys.last()].1
    }
}

/// `ready` is the run of consecutive rows of `pending` from row `e`: rows
/// `e, e + 1, ...` with their values, up to the first row missing.
pub open spec fn is_ready_run<T>(pending: Map<u32, (T, u64)>, e: int, ready: Seq<(u32, T)>) -> bool {
    &&& e + ready.len() <= u32::MAX
    &&& forall|i: int|
        0 <= i < ready.len() ==> #[trigger] ready[i].0 == e + i && pending.contains_key(ready[i].0)
            && ready[i].1 == pending[ready[i].0].0
    &&& !pending.contains_key((e + ready.len()) as u32)
}

/// `left` is `pending` without the `n` rows from row `e`.
pub open spec fn is_left_after_run<T>(
    left: Map<u32, (T, u64)>,
    pending: Map<u32, (T, u64)>,
    e: int,
    n: int,
) -> bool {
    &&& forall|k: u32| #[trigger] left.contains_key(k) <==> pending.contains_key(k) && !(e <= k < e + n)
    &&& forall|k: u32| #[trigger] left.contains_key(k) ==> left[k] == pending[k]
}

/// The rows of `rows` come in strictly increasing order.
pub open spec fn rows_increase<T>(rows: Seq<(u32, T)>) -> bool {
    forall|i: int, j: int| 0 <= i < j < rows.len() ==> #[trigger] rows[i].0 < #[trigger] rows[j].0
}

/// Collects the rows that workers send back, out of order, and hands them
/// out in row order: rows `1, 2, ...` as soon as each is there, the rest
/// when the workers are done. The header row is counted as processed.
pub struct RowCollector<T> {
    expected_row: u32,
    pending: BTreeMap<u32, (T, u64)>,
    lowest: u32,
    highest: u32,
    rows_processed: u64,
    formulas_evaluated: u64,
    first_error: Option<XlStreamError>,
    handed: Ghost<Seq<u32>>,
}

impl<T> RowCollector<T> {
    /// The data rows handed out so far, in the order they were handed out.
    pub closed spec fn handed_out(&self) -> Seq<u32> {
        self.handed@
    }

    /// The next row to hand out in order.
    pub closed spec fn expected(&self) -> u32 {
        self.expected_row
    }

    /// The rows received and not handed out, with their formula counts.
    pub closed spec fn pending(&self) -> Map<u32, (T, u64)> {
        self.pending@
    }

    /// Rows handed out so far, the header included.
    pub closed spec fn rows_processed(&self) -> u64 {
        self.rows_processed
    }

    /// Formulas of the rows handed out so far.
    pub closed spec fn formulas_evaluated(&self) -> u64 {
        self.formulas_evaluated
    }

    /// The first error a worker reported.
    pub closed spec fn first_error(&self) -> Option<XlStreamError> {
        self.first_error
    }

    /// The counts stay in range: rows below `u32::MAX`, at most
    /// [`MAX_FORMULAS_PER_ROW`] formulas per row.
    pub closed spec fn wf(&self) -> bool {
        &&& 1 <= self.expected_row
        &&& self.rows_processed <= self.expected_row
        &&& self.formulas_evaluated <= self.rows_processed * MAX_FORMULAS_PER_ROW
        &&& self.highest < u32::MAX
        &&& self.handed@.len() == self.expected_row - 1
        &&& forall|i: int| 0 <= i < self.handed@.len() ==> #[trigger] self.handed@[i] == i + 1
        &&& forall|k: u32| #[trigger]
            self.pending@.contains_key(k) ==> k < u32::MAX && self.lowest <= k <= self.highest
                && self.pending@[k].1 <= MAX_FORMULAS_PER_ROW
    }

    /// An empty collector, expecting row 1, with the header row counted.
    pub fn new() -> (r: Self)
        ensures
            r.wf(),
            r.expected() == 1,
            r.pending() == Map::<u32, (T, u64)>::empty(),
            r.rows_processed() == 1,
            r.formulas_evaluated() == 0,
            r.first_error() is None,
    {
        RowCollector {
            expected_row: 1,
            pending: BTreeMap::new(),
            lowest: 0,
            highest: 0,
            rows_processed: 1,
            formulas_evaluated: 0,
            first_error: None,
            handed: Ghost(Seq::empty()),
        }
    }

    /// Receives row `row` with `formulas` formulas evaluated, and hands out
    /// the rows now ready in order: the run of consecutive rows from the
    /// expected one that have arrived. A row received twice keeps its last
    /// values.
    pub fn accept_row(&mut self, row: u32, values: T, formulas: u64) -> (ready: Vec<(u32, T)>)
        requires
            old(self).wf(),
            row < u32::MAX,
            formulas <= MAX_FORMULAS_PER_ROW,
        ensures
            final(self).wf(),
            is_ready_run(old(self).pending().insert(row, (values, formulas)), old(self).expected() as int, ready@),
            final(self).expected() == old(self).expected() + ready@.len(),
            is_left_after_run(
                final(self).pending(),
                old(self).pending().insert(row, (values, formulas)),
                old(self).expected() as int,
                ready@.len() as int,
            ),
            final(self).rows_processed() == old(self).rows_processed() + ready@.len(),
            final(self).formulas_evaluated() == old(self).formulas_evaluated() + formulas_of(
                old(self).pending().insert(row, (values, formulas)),
                ready@.map_values(|x: (u32, T)| x.0),
            ),
            final(self).handed_out() == old(self).handed_out() + ready@.map_values(|x: (u32, T)| x.0),
            final(self).first_error() == old(self).first_error(),
    {
        if self.pending.is_empty() {
            self.lowest = row;
            self.highest = row;
        } else {
            if row < self.lowest {
                self.lowest = row;
            }
            if row > self.highest {
                self.highest = row;
            }
        }
        self.pending.insert(row, (values, formulas));
        let ghost p = self.pending@;
        let ghost e = self.expected_row as int;
        let mut ready: Vec<(u32, T)> = Vec::new();
        while self.pending.contains_key(&self.expected_row)
            invariant
                1 <= e <= self.expected_row,
                self.highest < u32::MAX,
                self.handed@ == old(self).handed@ + ready@.map_values(|x: (u32, T)| x.0),
                old(self).handed@.len() == e - 1,
                forall|i: int| 0 <= i < old(self).handed@.len() ==> #[trigger] old(self).handed@[i] == i + 1,
                self.expected_row == e + ready@.len(),
                self.rows_processed == old(self).rows_processed + ready@.len(),
                self.formulas_evaluated == old(self).formulas_evaluated + formulas_of(
                    p,
                    ready@.map_values(|x: (u32, T)| x.0),
                ),
                self.rows_processed <= self.expected_row,
                self.formulas_evaluated <= self.rows_processed * MAX_FORMULAS_PER_ROW,
                self.first_error == old(self).first_error,
                forall|i: int| 0 <= i < ready@.len() ==> p.contains_key(#[trigger] ready@[i].0),
                forall|i: int|
                    0 <= i < ready@.len() ==> #[trigger] ready@[i].0 == e + i && ready@[i].1 == p[(e + i) as u32].0,
                forall|k: u32|
                    #[trigger] self.pending@.contains_key(k) <==> p.contains_key(k) && !(e <= k < e
                        + ready@.len()),
                forall|k: u32| #[trigger] self.pending@.contains_key(k) ==> self.pending@[k] == p[k],
                forall|k: u32| #[trigger]
                    p.contains_key(k) ==> k < u32::MAX && p[k].1 <= MAX_FORMULAS_PER_ROW,
                forall|k: u32| #[trigger]
                    self.pending@.contains_key(k) ==> self.lowest <= k <= self.highest,
            decreases u32::MAX - self.expected_row,
        {
            let r = self.expected_row;
            let entry = self.pending.remove(&r);
            match entry {
                Some((vals, count)) => {
                    let ghost before = ready@;
                    proof {
                        assert(p.contains_key(r));
                        assert(count == p[r].1);
                    }
                    ready.push((r, vals));
                    self.handed = Ghost(self.handed@.push(r));
                    self.rows_processed = self.rows_processed + 1;
                    self.formulas_evaluated = self.formulas_evaluated + count;
                    self.expected_row = r + 1;
                    proof {
                        let keys = ready@.map_values(|x: (u32, T)| x.0);
                        assert(keys.drop_last() =~= before.map_values(|x: (u32, T)| x.0));
                        assert(keys.last() == r);
                        assert(self.handed@ =~= old(self).handed@ + keys);
                        assert(self.formulas_evaluated <= self.rows_processed * MAX_FORMULAS_PER_ROW)
                            by (nonlinear_arith)
                            requires
                                self.formulas_evaluated <= (self.rows_processed - 1) * MAX_FORMULAS_PER_ROW
                                    + count,
                                count <= MAX_FORMULAS_PER_ROW,
                        ;
                    }
                },
                None => {
                    proof {
                        assert(false);
                    }
                },
            }
        }
        ready
    }

    /// Ends the collection once every worker is done. With an error
    /// recorded: nothing more is handed out and the first error is the
    /// result. Otherwise every pending row is handed out in increasing row
    /// order, and the result is the number of rows and of formulas handed
    /// out in all.
    pub fn finish(self) -> (r: (Vec<(u32, T)>, Result<(u64, u64), XlStreamError>))
        requires
            self.wf(),
        ensures
            self.first_error() is Some ==> r.0@.len() == 0 && r.1 == Err::<(u64, u64), XlStreamError>(
                self.first_error()->0,
            ),
            self.first_error() is None ==> {
                &&& rows_increase(r.0@)
                &&& forall|i: int|
                    0 <= i < r.0@.len() ==> self.pending().contains_key(#[trigger] r.0@[i].0)
                        && r.0@[i].1 == self.pending()[r.0@[i].0].0
                &&& forall|k: u32|
                    #[trigger] self.pending().contains_key(k) ==> exists|i: int|
                        0 <= i < r.0@.len() && r.0@[i].0 == k
                &&& r.1 matches Ok((rows, formulas)) && rows == self.rows_processed() + r.0@.len()
                    && formulas == self.formulas_evaluated() + formulas_of(
                    self.pending(),
                    r.0@.map_values(|x: (u32, T)| x.0),
                )
            },
    {
        let ghost orig = self.pending@;
        let ghost rows0 = self.rows_processed;
        let ghost formulas0 = self.formulas_evaluated;
        let RowCollector {
            expected_row,
            mut pending,
            lowest,
            highest,
            mut rows_processed,
            mut formulas_evaluated,
            first_error,
            handed: _,
        } = self;
        if let Some(e) = first_error {
            return (Vec::new(), Err(e));
        }
        let mut out: Vec<(u32, T)> = Vec::new();
        if !pending.is_empty() {
            let hi: u64 = highest as u64;
            let mut r: u64 = lowest as u64;
            proof {
                assert forall|k: u32| #[trigger] orig.contains_key(k) implies lowest <= k by {}
            }
            while r <= hi
                invariant
                    lowest <= r <= hi + 1,
                    hi == highest,
                    hi < u32::MAX,
                    rows0 <= u32::MAX,
                    formulas0 <= rows0 * MAX_FORMULAS_PER_ROW,
                    forall|k: u32| #[trigger] orig.contains_key(k) ==> lowest <= k <= highest && orig[k].1
                        <= MAX_FORMULAS_PER_ROW,
                    forall|k: u32| #[trigger] pending@.contains_key(k) <==> orig.contains_key(k) && k >= r,
                    forall|k: u32| #[trigger] pending@.contains_key(k) ==> pending@[k] == orig[k],
                    out@.len() <= r - lowest,
                    rows_increase(out@),
                    forall|i: int| 0 <= i < out@.len() ==> #[trigger] out@[i].0 < r,
                    forall|i: int|
                        0 <= i < out@.len() ==> orig.contains_key(#[trigger] out@[i].0) && out@[i].1
                            == orig[out@[i].0].0,
                    forall|k: u32|
                        #[trigger] orig.contains_key(k) && k < r ==> exists|i: int|
                            0 <= i < out@.len() && out@[i].0 == k,
                    rows_processed == rows0 + out@.len(),
                    formulas_evaluated == formulas0 + formulas_of(orig, out@.map_values(|x: (u32, T)| x.0)),
                    formulas_evaluated <= formulas0 + out@.len() * MAX_FORMULAS_PER_ROW,
                decreases hi + 1 - r,
            {
                let key = r as u32;
                let entry = pending.remove(&key);
                match entry {
                    Some((vals, count)) => {
                        let ghost before = out@;
                        proof {
                            assert(orig.contains_key(key));
                            assert(count == orig[key].1);
                            assert(rows_processed + 1 <= u64::MAX);
                            assert(formulas_evaluated + count <= u64::MAX) by (nonlinear_arith)
                                requires
                                    formulas_evaluated <= formulas0 + before.len() * MAX_FORMULAS_PER_ROW,
                                    formulas0 <= rows0 * MAX_FORMULAS_PER_ROW,
                                    rows0 <= u32::MAX,
                                    before.len() <= u32::MAX,
                                    count <= MAX_FORMULAS_PER_ROW,
                            ;
                        }
                        out.push((key, vals));
                        rows_processed = rows_processed + 1;
                        formulas_evaluated = formulas_evaluated + count;
                        proof {
                            let keys = out@.map_values(|x: (u32, T)| x.0);
                            assert(keys.drop_last() =~= before.map_values(|x: (u32, T)| x.0));
                            assert(keys.last() == key);
                            assert(formulas_evaluated <= formulas0 + out@.len() * MAX_FORMULAS_PER_ROW)
                                by (nonlinear_arith)
                                requires
                                    formulas_evaluated <= formulas0 + before.len() * MAX_FORMULAS_PER_ROW
                                        + count,
                                    out@.len() == before.len() + 1,
                                    count <= MAX_FORMULAS_PER_ROW,
                            ;
                            assert forall|k: u32|
                                #[trigger] orig.contains_key(k) && k < r + 1 implies exists|i: int|
                                    0 <= i < out@.len() && out@[i].0 == k by {
                                if k == key {
                                    assert(out@[out@.len() - 1].0 == k);
                                } else {
                                    let i = choose|i: int| 0 <= i < before.len() && before[i].0 == k;
                                    assert(out@[i] == before[i]);
                                }
                            }
                        }
                    },
                    None => {
                        proof {
                            assert forall|k: u32|
                                #[trigger] orig.contains_key(k) && k < r + 1 implies exists|i: int|
                                    0 <= i < out@.len() && out@[i].0 == k by {
                                if k == key {
                                    assert(pending@.contains_key(k));
                                }
                            }
                        }
                    },
                }
                r = r + 1;
            }
        } else {
            proof {
                assert forall|k: u32| #[trigger] orig.contains_key(k) implies false by {
                    assert(pending@.contains_key(k));
                }
                assert(out@.map_values(|x: (u32, T)| x.0) =~= Seq::<u32>::empty());
            }
        }
        (out, Ok((rows_processed, formulas_evaluated)))
    }

    /// The rows handed out while collecting are `1, 2, ...`, each once and
    /// in order, up to the row expected next.
    pub proof fn law_rows_handed_out_in_order(&self)
        requires
            self.wf(),
        ensures
            self.handed_out() == Seq::new((self.expected() - 1) as nat, |i: int| (i + 1) as u32),
    {
        assert(self.handed_out() =~= Seq::new((self.expected() - 1) as nat, |i: int| (i + 1) as u32));
    }

    /// Records a worker's error; the first one is kept.
    pub fn record_error(&mut self, error: XlStreamError)
        requires
            old(self).wf(),
        ensures
            final(self).wf(),
            final(self).first_error() == (if old(self).first_error() is Some {
                old(self).first_error()
            } else {
                Some(error)
            }),
            final(self).expected() == old(self).expected(),
            final(self).pending() == old(self).pending(),
            final(self).rows_processed() == old(self).rows_processed(),
            final(self).formulas_evaluated() == old(self).formulas_evaluated(),
            final(self).handed_out() == old(self).handed_out(),
    {
        if self.first_error.is_none() {
            self.first_error = Some(error);
        }
    }
}

} // verus!
