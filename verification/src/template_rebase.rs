//! Reconstructing a reconstructed formula: the row references of a
//! reconstruction are the template's, moved, so a template built from it
//! reconstructs as the original template does.
use vstd::prelude::*;
use vstd::utf8::encode_utf8;

use crate::ascii::{digits_end, is_digit, is_upper, lemma_digits_end, lemma_digits_end_bounds};
use crate::formula_template::{
    clamp_row, digits_value, is_word_byte, lemma_decimal_bytes, lemma_digit_char_byte,
    lemma_encode_utf8_concat, lemma_runs, lemma_scan_delimited, lemma_scan_wf, quote_pos, rebuild,
    refs_delimited, refs_wf, scan_refs, sheet_name_end, string_literal_end, upper_run_end,
    EXCEL_MAX_ROWS,
};
use crate::text::{decimal, digit_char};

verus! {

/// The decimal bytes that replace the row of reference `k`.
pub open spec fn new_row_bytes(refs: Seq<(int, int, int)>, d: int, k: int) -> Seq<u8> {
    encode_utf8(decimal(clamp_row(refs[k].2 + d)))
}

/// How far the bytes after the first `k` references move.
pub open spec fn shift_before(refs: Seq<(int, int, int)>, d: int, k: int) -> int
    decreases k,
{
    if k <= 0 {
        0
    } else {
        shift_before(refs, d, k - 1) + new_row_bytes(refs, d, k - 1).len() - (refs[k - 1].1
            - refs[k - 1].0)
    }
}

/// Where the bytes between reference `k - 1` and reference `k` start.
pub open spec fn gap_start(refs: Seq<(int, int, int)>, k: int) -> int {
    if k <= 0 {
        0
    } else {
        refs[k - 1].1
    }
}

/// Where the bytes between reference `k - 1` and reference `k` end.
pub open spec fn gap_end(s: Seq<u8>, refs: Seq<(int, int, int)>, k: int) -> int {
    if k < refs.len() {
        refs[k].0
    } else {
        s.len() as int
    }
}

/// References in order and inside the text.
pub open spec fn refs_ordered(s: Seq<u8>, refs: Seq<(int, int, int)>) -> bool {
    &&& forall|k: int| 0 <= k < refs.len() ==> 0 <= (#[trigger] refs[k]).0 < refs[k].1 <= s.len()
    &&& forall|k: int| 0 <= k < refs.len() - 1 ==> (#[trigger] refs[k]).1 <= refs[k + 1].0
}

/// The rebuilt bytes before the gap after the first `k` references.
pub open spec fn rebuilt_prefix(s: Seq<u8>, refs: Seq<(int, int, int)>, d: int, k: int) -> Seq<u8>
    decreases k,
{
    if k <= 0 {
        Seq::empty()
    } else {
        rebuilt_prefix(s, refs, d, k - 1) + s.subrange(gap_start(refs, k - 1), refs[k - 1].0)
            + new_row_bytes(refs, d, k - 1)
    }
}

proof fn lemma_rebuild_split(s: Seq<u8>, refs: Seq<(int, int, int)>, d: int, k: int)
    requires
        refs_ordered(s, refs),
        0 <= k <= refs.len(),
    ensures
        rebuild(s, refs, d, 0, 0) == rebuilt_prefix(s, refs, d, k) + rebuild(
            s,
            refs,
            d,
            k,
            gap_start(refs, k),
        ),
        rebuilt_prefix(s, refs, d, k).len() == gap_start(refs, k) + shift_before(refs, d, k),
    decreases k,
{
    if k == 0 {
        assert(rebuilt_prefix(s, refs, d, 0) + rebuild(s, refs, d, 0, 0) =~= rebuild(s, refs, d, 0, 0));
    } else {
        lemma_rebuild_split(s, refs, d, k - 1);
        let m = k - 1;
        if m > 0 {
            assert(refs[m - 1].1 <= refs[m].0);
        }
        assert(0 <= refs[m].0 < refs[m].1 <= s.len());
        let pre = s.subrange(gap_start(refs, m), refs[m].0);
        let nb = new_row_bytes(refs, d, m);
        let rest = rebuild(s, refs, d, k, refs[m].1);
        assert(rebuild(s, refs, d, m, gap_start(refs, m)) == pre + nb + rest);
        assert(rebuilt_prefix(s, refs, d, m) + (pre + nb + rest) =~= rebuilt_prefix(s, refs, d, k)
            + rest);
    }
}

/// The bytes between references sit in the rebuilt text, moved by the
/// growth of the references before them.
proof fn lemma_rebuild_gap(s: Seq<u8>, refs: Seq<(int, int, int)>, d: int, k: int, t: int)
    requires
        refs_ordered(s, refs),
        0 <= k <= refs.len(),
        gap_start(refs, k) <= t < gap_end(s, refs, k),
    ensures
        0 <= t + shift_before(refs, d, k) < rebuild(s, refs, d, 0, 0).len(),
        rebuild(s, refs, d, 0, 0)[t + shift_before(refs, d, k)] == s[t],
{
    lemma_rebuild_split(s, refs, d, k);
    let p = rebuilt_prefix(s, refs, d, k);
    let r = rebuild(s, refs, d, k, gap_start(refs, k));
    if k > 0 {
        assert(0 <= refs[k - 1].0 < refs[k - 1].1 <= s.len());
    }
    if k < refs.len() {
        if k > 0 {
            assert(refs[k - 1].1 <= refs[k].0);
        }
        assert(0 <= refs[k].0 < refs[k].1 <= s.len());
        let pre = s.subrange(gap_start(refs, k), refs[k].0);
        assert(r == pre + new_row_bytes(refs, d, k) + rebuild(s, refs, d, k + 1, refs[k].1));
        assert(r[t - gap_start(refs, k)] == s[t]);
    } else {
        assert(r == s.subrange(gap_start(refs, k), s.len() as int));
    }
}

/// The new row digits of reference `k` sit where its old digits started,
/// moved by the growth of the references before it.
proof fn lemma_rebuild_run(s: Seq<u8>, refs: Seq<(int, int, int)>, d: int, k: int, t: int)
    requires
        refs_ordered(s, refs),
        0 <= k < refs.len(),
        0 <= t < new_row_bytes(refs, d, k).len(),
    ensures
        0 <= refs[k].0 + shift_before(refs, d, k) + t < rebuild(s, refs, d, 0, 0).len(),
        rebuild(s, refs, d, 0, 0)[refs[k].0 + shift_before(refs, d, k) + t] == new_row_bytes(
            refs,
            d,
            k,
        )[t],
{
    lemma_rebuild_split(s, refs, d, k + 1);
    if k > 0 {
        assert(refs[k - 1].1 <= refs[k].0);
    }
    assert(0 <= refs[k].0 < refs[k].1 <= s.len());
    let p = rebuilt_prefix(s, refs, d, k + 1);
    assert(p == rebuilt_prefix(s, refs, d, k) + s.subrange(gap_start(refs, k), refs[k].0)
        + new_row_bytes(refs, d, k));
    lemma_rebuild_split(s, refs, d, k);
}

/// The length of the rebuilt text.
proof fn lemma_rebuild_len(s: Seq<u8>, refs: Seq<(int, int, int)>, d: int)
    requires
        refs_ordered(s, refs),
    ensures
        rebuild(s, refs, d, 0, 0).len() == s.len() + shift_before(refs, d, refs.len() as int),
{
    let n = refs.len() as int;
    lemma_rebuild_split(s, refs, d, n);
    if n > 0 {
        assert(0 <= refs[n - 1].0 < refs[n - 1].1 <= s.len());
    }
    assert(rebuild(s, refs, d, n, gap_start(refs, n)) == s.subrange(gap_start(refs, n), s.len() as int));
}

/// `s1` holds the bytes `s[lo..hi]` at `o` further on, and reaches its end
/// exactly where `s` does.
pub open spec fn window(s: Seq<u8>, s1: Seq<u8>, lo: int, hi: int, o: int) -> bool {
    &&& 0 <= lo <= hi <= s.len()
    &&& 0 <= lo + o
    &&& hi + o <= s1.len()
    &&& forall|t: int| lo <= t < hi ==> s1[t + o] == #[trigger] s[t]
    &&& (hi == s.len() <==> hi + o == s1.len())
}

/// Past the window, both texts hold a digit (or both have ended).
pub open spec fn digit_wall(s: Seq<u8>, s1: Seq<u8>, hi: int, o: int) -> bool {
    hi < s.len() ==> is_digit(s[hi]) && is_digit(s1[hi + o])
}

proof fn lemma_window_upper(s: Seq<u8>, s1: Seq<u8>, lo: int, hi: int, o: int, a: int)
    requires
        window(s, s1, lo, hi, o),
        digit_wall(s, s1, hi, o),
        lo <= a <= hi,
    ensures
        upper_run_end(s1, a + o) == upper_run_end(s, a) + o,
        upper_run_end(s, a) <= hi,
    decreases hi - a,
{
    if a < hi {
        assert(s1[a + o] == s[a]);
        if is_upper(s[a]) {
            lemma_window_upper(s, s1, lo, hi, o, a + 1);
        }
    }
}

proof fn lemma_window_digits(s: Seq<u8>, s1: Seq<u8>, lo: int, hi: int, o: int, a: int)
    requires
        window(s, s1, lo, hi, o),
        lo <= a <= hi,
        digits_end(s, a) < hi || hi == s.len(),
    ensures
        digits_end(s1, a + o) == digits_end(s, a) + o,
    decreases hi - a,
{
    lemma_digits_end_bounds(s, a);
    if a < hi {
        assert(s1[a + o] == s[a]);
        if is_digit(s[a]) {
            lemma_window_digits(s, s1, lo, hi, o, a + 1);
        }
    }
}

proof fn lemma_window_string(s: Seq<u8>, s1: Seq<u8>, lo: int, hi: int, o: int, a: int)
    requires
        window(s, s1, lo, hi, o),
        digit_wall(s, s1, hi, o),
        lo <= a <= hi,
        string_literal_end(s, a) < hi || hi == s.len(),
    ensures
        string_literal_end(s1, a + o) == string_literal_end(s, a) + o,
    decreases hi - a,
{
    lemma_runs(s, a);
    if a < hi {
        assert(s1[a + o] == s[a]);
        if a + 1 < hi {
            assert(s1[a + 1 + o] == s[a + 1]);
        }
        if s[a] == 34u8 {
            if a + 1 < s.len() && s[a + 1] == 34u8 {
                lemma_window_string(s, s1, lo, hi, o, a + 2);
            }
        } else {
            lemma_window_string(s, s1, lo, hi, o, a + 1);
        }
    }
}

proof fn lemma_window_quote(s: Seq<u8>, s1: Seq<u8>, lo: int, hi: int, o: int, a: int)
    requires
        window(s, s1, lo, hi, o),
        lo <= a <= hi,
        quote_pos(s, a) < hi || hi == s.len(),
    ensures
        quote_pos(s1, a + o) == quote_pos(s, a) + o,
    decreases hi - a,
{
    lemma_runs(s, a);
    if a < hi {
        assert(s1[a + o] == s[a]);
        if s[a] != 39u8 {
            lemma_window_quote(s, s1, lo, hi, o, a + 1);
        }
    }
}

proof fn lemma_window_sheet(s: Seq<u8>, s1: Seq<u8>, lo: int, hi: int, o: int, a: int)
    requires
        window(s, s1, lo, hi, o),
        digit_wall(s, s1, hi, o),
        lo <= a <= hi,
        sheet_name_end(s, a) < hi || hi == s.len(),
    ensures
        sheet_name_end(s1, a + o) == sheet_name_end(s, a) + o,
{
    lemma_runs(s, a);
    let q = quote_pos(s, a);
    lemma_window_quote(s, s1, lo, hi, o, a);
    if q < s.len() && q + 1 < hi {
        assert(s1[q + 1 + o] == s[q + 1]);
    }
}

proof fn lemma_digits_value_agree(s: Seq<u8>, s1: Seq<u8>, from: int, to: int, o: int)
    requires
        forall|t: int| from <= t < to ==> s1[t + o] == #[trigger] s[t],
    ensures
        digits_value(s1, from + o, to + o) == digits_value(s, from, to),
    decreases to - from,
{
    if to > from {
        lemma_digits_value_agree(s, s1, from, to - 1, o);
        assert(s1[to - 1 + o] == s[to - 1]);
    }
}

/// The decimal bytes of `n` have the value `n`.
proof fn lemma_decimal_bytes_value(n: nat)
    ensures
        digits_value(encode_utf8(decimal(n)), 0, encode_utf8(decimal(n)).len() as int) == n,
    decreases n,
{
    lemma_decimal_bytes(n);
    let e = encode_utf8(decimal(n));
    if n < 10 {
        lemma_digit_char_byte(n);
        assert(e == seq![(48 + n) as u8]);
        assert(digits_value(e, 0, 0) == 0);
    } else {
        lemma_decimal_bytes_value(n / 10);
        lemma_digit_char_byte(n % 10);
        lemma_encode_utf8_concat(
            decimal(n / 10),
            seq![digit_char(n % 10)],
        );
        let pre = encode_utf8(decimal(n / 10));
        assert(e == pre + seq![(48 + n % 10) as u8]);
        assert forall|t: int| 0 <= t < pre.len() implies e[t + 0] == #[trigger] pre[t] by {}
        lemma_digits_value_agree(pre, e, 0, pre.len() as int, 0);
        assert(n / 10 * 10 + n % 10 == n);
    }
}

/// Every relative row moved by `d` stays inside the sheet.
pub open spec fn rows_stay_inside(refs: Seq<(int, int, int)>, d: int) -> bool {
    forall|k: int| 0 <= k < refs.len() ==> 1 <= (#[trigger] refs[k]).2 + d <= EXCEL_MAX_ROWS
}

/// The references `refs` of `s` as they lie in its reconstruction moved by
/// `d`.
pub open spec fn rebased_refs(refs: Seq<(int, int, int)>, d: int) -> Seq<(int, int, int)> {
    Seq::new(
        refs.len(),
        |k: int|
            (
                refs[k].0 + shift_before(refs, d, k),
                refs[k].0 + shift_before(refs, d, k) + new_row_bytes(refs, d, k).len(),
                refs[k].2 + d,
            ),
    )
}

/// The references are well formed and delimited in `s`.
#[verifier::opaque]
pub open spec fn refs_shape(s: Seq<u8>, refs: Seq<(int, int, int)>) -> bool {
    refs_wf(s, refs, 0) && refs_delimited(s, refs)
}

proof fn lemma_shape_of_scan(s: Seq<u8>)
    ensures
        refs_shape(s, scan_refs(s, 0)),
{
    reveal(refs_shape);
    lemma_scan_wf(s, 0);
    lemma_scan_delimited(s, 0);
}

proof fn lemma_shape_ordered(s: Seq<u8>, refs: Seq<(int, int, int)>)
    requires
        refs_shape(s, refs),
    ensures
        refs_ordered(s, refs),
{
    reveal(refs_shape);
}

/// What one reference looks like.
proof fn lemma_shape_ref(s: Seq<u8>, refs: Seq<(int, int, int)>, k: int)
    requires
        refs_shape(s, refs),
        0 <= k < refs.len(),
    ensures
        1 <= refs[k].0 < refs[k].1 <= s.len(),
        is_upper(s[refs[k].0 - 1]),
        forall|p: int| refs[k].0 <= p < refs[k].1 ==> is_digit(#[trigger] s[p]),
        refs[k].1 == s.len() || !(is_word_byte(s[refs[k].1]) || s[refs[k].1] == 33u8),
        refs[k].2 == digits_value(s, refs[k].0, refs[k].1),
        0 < refs[k].2 <= u32::MAX,
        k + 1 < refs.len() ==> refs[k].1 <= refs[k + 1].0,
{
    reveal(refs_shape);
    assert forall|p: int| refs[k].0 <= p < refs[k].1 implies is_digit(#[trigger] s[p]) by {
        assert(refs[k].0 <= p < refs[k].1);
    }
}

/// A position reached by the scan before reference `j` lies before it.
proof fn lemma_path_before_ref(s: Seq<u8>, refs: Seq<(int, int, int)>, i: int, j: int)
    requires
        refs_shape(s, refs),
        0 <= i,
        0 <= j < refs.len(),
        scan_refs(s, i) == refs.subrange(j, refs.len() as int),
    ensures
        i < refs[j].0,
{
    lemma_shape_ref(s, refs, j);
    lemma_scan_wf(s, i);
    assert(scan_refs(s, i)[0] == refs[j]);
    if i == refs[j].0 {
        assert(is_digit(s[i]));
        assert(scan_refs(s, i) == scan_refs(s, i + 1));
        lemma_scan_wf(s, i + 1);
    }
}

/// The bytes between reference `j - 1` and reference `j` are unchanged by
/// the reconstruction, only moved.
proof fn lemma_gap_window(s: Seq<u8>, refs: Seq<(int, int, int)>, d: int, j: int)
    requires
        refs_shape(s, refs),
        0 <= j <= refs.len(),
    ensures
        window(
            s,
            rebuild(s, refs, d, 0, 0),
            gap_start(refs, j),
            gap_end(s, refs, j),
            shift_before(refs, d, j),
        ),
        digit_wall(s, rebuild(s, refs, d, 0, 0), gap_end(s, refs, j), shift_before(refs, d, j)),
        j < refs.len() ==> gap_start(refs, j) < gap_end(s, refs, j) && is_upper(
            s[gap_end(s, refs, j) - 1],
        ),
        j > 0 ==> gap_start(refs, j) + shift_before(refs, d, j) >= 1 && is_digit(
            s[gap_start(refs, j) - 1],
        ) && is_digit(rebuild(s, refs, d, 0, 0)[gap_start(refs, j) + shift_before(refs, d, j) - 1]),
{
    let n = refs.len() as int;
    lemma_shape_ordered(s, refs);
    let s1 = rebuild(s, refs, d, 0, 0);
    let lo = gap_start(refs, j);
    let hi = gap_end(s, refs, j);
    let o = shift_before(refs, d, j);
    lemma_rebuild_len(s, refs, d);
    if j > 0 {
        lemma_shape_ref(s, refs, j - 1);
        lemma_decimal_bytes(clamp_row(refs[j - 1].2 + d));
        let nb = new_row_bytes(refs, d, j - 1);
        lemma_rebuild_run(s, refs, d, j - 1, nb.len() - 1);
        assert(is_digit(nb[nb.len() - 1]));
        assert(is_digit(s[refs[j - 1].1 - 1]));
    }
    if j < n {
        lemma_shape_ref(s, refs, j);
        lemma_decimal_bytes(clamp_row(refs[j].2 + d));
        lemma_rebuild_run(s, refs, d, j, 0);
        assert(is_digit(s[refs[j].0]));
        if j > 0 {
            if refs[j].0 - 1 < refs[j - 1].1 {
                assert(is_digit(s[refs[j].0 - 1]));
            }
        }
    }
    assert forall|t: int| lo <= t < hi implies s1[t + o] == #[trigger] s[t] by {
        lemma_rebuild_gap(s, refs, d, j, t);
    }
}

/// The reconstruction and `s` agree on whether the byte before a gap
/// position is a word byte.
proof fn lemma_word_before(s: Seq<u8>, refs: Seq<(int, int, int)>, d: int, i: int, j: int)
    requires
        refs_shape(s, refs),
        0 <= j <= refs.len(),
        gap_start(refs, j) <= i < gap_end(s, refs, j),
    ensures
        0 <= i + shift_before(refs, d, j) < rebuild(s, refs, d, 0, 0).len(),
        rebuild(s, refs, d, 0, 0)[i + shift_before(refs, d, j)] == s[i],
        (i > 0 && is_word_byte(s[i - 1])) == (i + shift_before(refs, d, j) > 0 && is_word_byte(
            rebuild(s, refs, d, 0, 0)[i + shift_before(refs, d, j) - 1],
        )),
{
    let s1 = rebuild(s, refs, d, 0, 0);
    let o = shift_before(refs, d, j);
    lemma_gap_window(s, refs, d, j);
    assert(s1[i + o] == s[i]);
    if i > 0 {
        if i - 1 >= gap_start(refs, j) {
            assert(s1[i - 1 + o] == s[i - 1]);
        } else {
            assert(j > 0);
            assert(is_digit(s[i - 1]));
            assert(is_digit(s1[i + o - 1]));
        }
    } else {
        if j > 0 {
            lemma_shape_ref(s, refs, j - 1);
        }
        assert(j == 0);
        assert(o == 0);
    }
}

/// Where the column letters of a possible reference at `i` start.
pub open spec fn cand_c0(s: Seq<u8>, i: int) -> int {
    if s[i] == 36u8 {
        i + 1
    } else {
        i
    }
}

/// Where the column letters of a possible reference at `i` end.
pub open spec fn cand_ce(s: Seq<u8>, i: int) -> int {
    upper_run_end(s, cand_c0(s, i))
}

/// The row of a possible reference at `i` is `$`-locked.
pub open spec fn cand_locked(s: Seq<u8>, i: int) -> bool {
    cand_ce(s, i) < s.len() && s[cand_ce(s, i)] == 36u8
}

/// Where the row digits of a possible reference at `i` start.
pub open spec fn cand_ds(s: Seq<u8>, i: int) -> int {
    if cand_locked(s, i) {
        cand_ce(s, i) + 1
    } else {
        cand_ce(s, i)
    }
}

/// A possible reference in a gap reads the same letters in the
/// reconstruction.
proof fn lemma_cand_shift(s: Seq<u8>, refs: Seq<(int, int, int)>, d: int, i: int, j: int)
    requires
        refs_shape(s, refs),
        0 <= j <= refs.len(),
        gap_start(refs, j) <= i < gap_end(s, refs, j),
    ensures
        cand_c0(rebuild(s, refs, d, 0, 0), i + shift_before(refs, d, j)) == cand_c0(s, i)
            + shift_before(refs, d, j),
        cand_ce(rebuild(s, refs, d, 0, 0), i + shift_before(refs, d, j)) == cand_ce(s, i)
            + shift_before(refs, d, j),
        cand_locked(rebuild(s, refs, d, 0, 0), i + shift_before(refs, d, j)) == cand_locked(s, i),
        cand_ds(rebuild(s, refs, d, 0, 0), i + shift_before(refs, d, j)) == cand_ds(s, i)
            + shift_before(refs, d, j),
        i <= cand_c0(s, i) <= cand_ce(s, i) <= gap_end(s, refs, j),
        cand_ds(s, i) <= gap_end(s, refs, j),
{
    let s1 = rebuild(s, refs, d, 0, 0);
    let lo = gap_start(refs, j);
    let hi = gap_end(s, refs, j);
    let o = shift_before(refs, d, j);
    lemma_gap_window(s, refs, d, j);
    lemma_word_before(s, refs, d, i, j);
    let c0 = cand_c0(s, i);
    lemma_runs(s, c0);
    lemma_window_upper(s, s1, lo, hi, o, c0);
    let ce = cand_ce(s, i);
    if ce < hi {
        assert(s1[ce + o] == s[ce]);
    }
}

/// The row digits of reference `k` in `s` and in the reconstruction.
proof fn lemma_ref_runs(s: Seq<u8>, refs: Seq<(int, int, int)>, d: int, k: int)
    requires
        refs_shape(s, refs),
        rows_stay_inside(refs, d),
        0 <= k < refs.len(),
    ensures
        digits_end(s, refs[k].0) == refs[k].1,
        digits_end(rebuild(s, refs, d, 0, 0), refs[k].0 + shift_before(refs, d, k)) == refs[k].1
            + shift_before(refs, d, k + 1),
        refs[k].1 + shift_before(refs, d, k + 1) == refs[k].0 + shift_before(refs, d, k)
            + new_row_bytes(refs, d, k).len(),
        refs[k].0 + shift_before(refs, d, k) < refs[k].1 + shift_before(refs, d, k + 1),
        digits_value(
            rebuild(s, refs, d, 0, 0),
            refs[k].0 + shift_before(refs, d, k),
            refs[k].1 + shift_before(refs, d, k + 1),
        ) == refs[k].2 + d,
        (refs[k].1 == s.len()) == (refs[k].1 + shift_before(refs, d, k + 1) == rebuild(
            s,
            refs,
            d,
            0,
            0,
        ).len()),
        refs[k].1 < s.len() ==> rebuild(s, refs, d, 0, 0)[refs[k].1 + shift_before(refs, d, k + 1)]
            == s[refs[k].1],
        is_digit(rebuild(s, refs, d, 0, 0)[refs[k].0 + shift_before(refs, d, k)]),
{
    let s1 = rebuild(s, refs, d, 0, 0);
    lemma_shape_ordered(s, refs);
    lemma_shape_ref(s, refs, k);
    let st = refs[k].0;
    let en = refs[k].1;
    lemma_digits_end(s, st, en);
    let v = refs[k].2;
    let nb = new_row_bytes(refs, d, k);
    lemma_decimal_bytes(clamp_row(v + d));
    lemma_decimal_bytes_value(clamp_row(v + d));
    lemma_rebuild_len(s, refs, d);
    let ds1 = st + shift_before(refs, d, k);
    let de1 = ds1 + nb.len();
    lemma_rebuild_run(s, refs, d, k, 0);
    lemma_rebuild_run(s, refs, d, k, nb.len() - 1);
    assert forall|t: int| 0 <= t < nb.len() implies s1[t + ds1] == #[trigger] nb[t] by {
        lemma_rebuild_run(s, refs, d, k, t);
    }
    assert forall|p: int| ds1 <= p < de1 implies is_digit(#[trigger] s1[p]) by {
        assert(s1[(p - ds1) + ds1] == nb[p - ds1]);
    }
    assert(s1[0 + ds1] == nb[0]);
    lemma_gap_window(s, refs, d, k + 1);
    if en < gap_end(s, refs, k + 1) {
        assert(s1[en + shift_before(refs, d, k + 1)] == s[en]);
    }
    lemma_digits_end(s1, ds1, de1);
    lemma_digits_value_agree(nb, s1, 0, nb.len() as int, ds1);
}

/// One step of the reference scan at `i`: the reference it finds there, if
/// any, and where it goes on.
pub open spec fn scan_outcome(s: Seq<u8>, i: int) -> (Option<(int, int, int)>, int) {
    if s[i] == 34u8 {
        (None, string_literal_end(s, i + 1))
    } else if s[i] == 39u8 {
        (None, sheet_name_end(s, i + 1))
    } else if i > 0 && is_word_byte(s[i - 1]) {
        (None, i + 1)
    } else {
        let letters = cand_ce(s, i) - cand_c0(s, i);
        if letters == 0 || letters > 3 {
            (None, i + 1)
        } else {
            let ds = cand_ds(s, i);
            let de = digits_end(s, ds);
            if ds == de {
                (None, i + 1)
            } else if de < s.len() && is_word_byte(s[de]) {
                (None, i + 1)
            } else if de < s.len() && s[de] == 33u8 {
                (None, de + 1)
            } else if !cand_locked(s, i) && 0 < digits_value(s, ds, de) <= u32::MAX {
                (Some((ds, de, digits_value(s, ds, de) as int)), de)
            } else {
                (None, de)
            }
        }
    }
}

proof fn lemma_scan_outcome(s: Seq<u8>, i: int)
    requires
        0 <= i < s.len(),
    ensures
        i < scan_outcome(s, i).1 <= s.len(),
        scan_refs(s, i) == match scan_outcome(s, i).0 {
            Some(r) => seq![r] + scan_refs(s, scan_outcome(s, i).1),
            None => scan_refs(s, scan_outcome(s, i).1),
        },
{
    lemma_runs(s, i);
    lemma_runs(s, i + 1);
    lemma_runs(s, cand_c0(s, i));
    if cand_ds(s, i) <= s.len() {
        lemma_runs(s, cand_ds(s, i));
    }
}

/// A step of the scan that stays in the gap before reference `j` takes the
/// same step in the reconstruction.
#[verifier::spinoff_prover]
proof fn lemma_outcome_in_gap(s: Seq<u8>, refs: Seq<(int, int, int)>, d: int, i: int, j: int)
    requires
        refs_shape(s, refs),
        0 <= j <= refs.len(),
        gap_start(refs, j) <= i < gap_end(s, refs, j),
        scan_outcome(s, i).0 is None,
        scan_outcome(s, i).1 < gap_end(s, refs, j) || j == refs.len(),
        !(j < refs.len() && cand_ds(s, i) == gap_end(s, refs, j) && !(s[i] == 34u8 || s[i]
            == 39u8 || (i > 0 && is_word_byte(s[i - 1]))) && 1 <= cand_ce(s, i) - cand_c0(s, i)
            <= 3),
    ensures
        scan_outcome(rebuild(s, refs, d, 0, 0), i + shift_before(refs, d, j)) == (
        None::<(int, int, int)>,
        scan_outcome(s, i).1 + shift_before(refs, d, j),
        ),
{
    let n = refs.len() as int;
    let s1 = rebuild(s, refs, d, 0, 0);
    let lo = gap_start(refs, j);
    let hi = gap_end(s, refs, j);
    let o = shift_before(refs, d, j);
    let i1 = i + o;
    lemma_gap_window(s, refs, d, j);
    lemma_word_before(s, refs, d, i, j);
    lemma_runs(s, i + 1);
    if s[i] == 34u8 {
        lemma_window_string(s, s1, lo, hi, o, i + 1);
    } else if s[i] == 39u8 {
        lemma_window_sheet(s, s1, lo, hi, o, i + 1);
    } else if i > 0 && is_word_byte(s[i - 1]) {
    } else {
        lemma_cand_shift(s, refs, d, i, j);
        let letters = cand_ce(s, i) - cand_c0(s, i);
        if !(letters == 0 || letters > 3) {
            let ds = cand_ds(s, i);
            lemma_runs(s, ds);
            let de = digits_end(s, ds);
            if j < n {
                assert(ds < hi);
                assert(!is_digit(s[hi - 1]));
                if de > hi - 1 {
                    assert(is_digit(s[hi - 1]));
                }
            }
            lemma_window_digits(s, s1, lo, hi, o, ds);
            if de < hi {
                assert(s1[de + o] == s[de]);
            }
            assert forall|t: int| ds <= t < de implies s1[t + o] == #[trigger] s[t] by {}
            lemma_digits_value_agree(s, s1, ds, de, o);
        }
    }
}

/// The step of the scan that finds reference `j` finds its rebased form in
/// the reconstruction.
#[verifier::spinoff_prover]
proof fn lemma_outcome_at_ref(s: Seq<u8>, refs: Seq<(int, int, int)>, d: int, i: int, j: int)
    requires
        refs_shape(s, refs),
        rows_stay_inside(refs, d),
        0 <= j < refs.len(),
        gap_start(refs, j) <= i < gap_end(s, refs, j),
        s[i] != 34u8,
        s[i] != 39u8,
        !(i > 0 && is_word_byte(s[i - 1])),
        1 <= cand_ce(s, i) - cand_c0(s, i) <= 3,
        cand_ds(s, i) == gap_end(s, refs, j),
    ensures
        scan_outcome(s, i) == (Some(refs[j]), refs[j].1),
        scan_outcome(rebuild(s, refs, d, 0, 0), i + shift_before(refs, d, j)) == (
        Some(rebased_refs(refs, d)[j]),
        refs[j].1 + shift_before(refs, d, j + 1),
        ),
{
    let s1 = rebuild(s, refs, d, 0, 0);
    let o = shift_before(refs, d, j);
    let i1 = i + o;
    lemma_word_before(s, refs, d, i, j);
    lemma_cand_shift(s, refs, d, i, j);
    lemma_shape_ref(s, refs, j);
    lemma_ref_runs(s, refs, d, j);
    let st = refs[j].0;
    if cand_locked(s, i) {
        assert(s[st - 1] == 36u8);
    }
}

/// Scanning the reconstruction from where the scan of `s` stands before
/// reference `j` finds the rebased references from `j` on.
proof fn lemma_rebase_scan(s: Seq<u8>, refs: Seq<(int, int, int)>, d: int, i: int, j: int)
    requires
        refs_shape(s, refs),
        rows_stay_inside(refs, d),
        0 <= j <= refs.len(),
        gap_start(refs, j) <= i <= gap_end(s, refs, j),
        scan_refs(s, i) == refs.subrange(j, refs.len() as int),
    ensures
        scan_refs(rebuild(s, refs, d, 0, 0), i + shift_before(refs, d, j)) == rebased_refs(
            refs,
            d,
        ).subrange(j, refs.len() as int),
    decreases s.len() - i,
{
    let n = refs.len() as int;
    let s1 = rebuild(s, refs, d, 0, 0);
    let o = shift_before(refs, d, j);
    let i1 = i + o;
    lemma_gap_window(s, refs, d, j);
    if j < n {
        lemma_path_before_ref(s, refs, i, j);
    }
    if i >= s.len() {
        assert(i1 == s1.len());
        assert(rebased_refs(refs, d).subrange(j, n) =~= Seq::<(int, int, int)>::empty());
    } else {
        lemma_word_before(s, refs, d, i, j);
        lemma_scan_outcome(s, i);
        lemma_scan_outcome(s1, i1);
        let nx = scan_outcome(s, i).1;
        let at_ref = j < n && cand_ds(s, i) == gap_end(s, refs, j) && !(s[i] == 34u8 || s[i]
            == 39u8 || (i > 0 && is_word_byte(s[i - 1]))) && 1 <= cand_ce(s, i) - cand_c0(s, i)
            <= 3;
        if at_ref {
            lemma_outcome_at_ref(s, refs, d, i, j);
            let tail = scan_refs(s, nx);
            assert(refs.subrange(j, n) == seq![refs[j]] + tail);
            assert(tail.len() == n - j - 1);
            assert forall|k: int| 0 <= k < tail.len() implies tail[k] == refs.subrange(j + 1, n)[k] by {
                assert(tail[k] == (seq![refs[j]] + tail)[k + 1]);
                assert(refs.subrange(j, n)[k + 1] == refs[j + 1 + k]);
            }
            assert(tail =~= refs.subrange(j + 1, n));
            lemma_shape_ref(s, refs, j);
            lemma_rebase_scan(s, refs, d, nx, j + 1);
            let rb = rebased_refs(refs, d);
            assert(rb.subrange(j, n) =~= seq![rb[j]] + rb.subrange(j + 1, n));
        } else {
            match scan_outcome(s, i).0 {
                Some(r) => {
                    if j < n {
                        assert(refs.subrange(j, n)[0] == refs[j]);
                        assert(r == refs[j]);
                        lemma_shape_ref(s, refs, j);
                        lemma_cand_shift(s, refs, d, i, j);
                    } else {
                        assert(refs.subrange(j, n).len() == 0);
                    }
                    assert(false);
                },
                None => {
                    lemma_scan_wf(s, nx);
                    if j < n {
                        lemma_path_before_ref(s, refs, nx, j);
                    }
                    lemma_outcome_in_gap(s, refs, d, i, j);
                    lemma_rebase_scan(s, refs, d, nx, j);
                },
            }
        }
    }
}

proof fn lemma_rebuild_rebased(
    s: Seq<u8>,
    refs: Seq<(int, int, int)>,
    d1: int,
    d2: int,
    k: int,
)
    requires
        refs_shape(s, refs),
        rows_stay_inside(refs, d1),
        0 <= k <= refs.len(),
    ensures
        rebuild(
            rebuild(s, refs, d1, 0, 0),
            rebased_refs(refs, d1),
            d2,
            k,
            gap_start(refs, k) + shift_before(refs, d1, k),
        ) == rebuild(s, refs, d1 + d2, k, gap_start(refs, k)),
    decreases refs.len() - k,
{
    let n = refs.len() as int;
    let s1 = rebuild(s, refs, d1, 0, 0);
    let rb = rebased_refs(refs, d1);
    let o = shift_before(refs, d1, k);
    let lo = gap_start(refs, k);
    let hi = gap_end(s, refs, k);
    lemma_gap_window(s, refs, d1, k);
    let a = s1.subrange(lo + o, hi + o);
    let b = s.subrange(lo, hi);
    assert forall|t: int| 0 <= t < b.len() implies a[t] == b[t] by {
        assert(s1[(lo + t) + o] == s[lo + t]);
    }
    assert(a =~= b);
    if k < n {
        lemma_ref_runs(s, refs, d1, k);
        lemma_rebuild_rebased(s, refs, d1, d2, k + 1);
        assert(rb[k].0 == hi + o);
        assert(rb[k].1 == gap_start(refs, k + 1) + shift_before(refs, d1, k + 1));
        assert(rb[k].2 + d2 == refs[k].2 + (d1 + d2));
    } else {
        lemma_shape_ordered(s, refs);
        lemma_rebuild_len(s, refs, d1);
    }
}

/// Reconstructing a reconstruction: when no relative row leaves the sheet
/// on the way from the template's row to row `x` (a shift by `d1`), the
/// reconstruction for `x` has the template's references, moved, and a
/// template built from it reconstructs every row as the original template
/// does (a further shift by `d2`).
pub proof fn law_reconstruct_twice(s: Seq<u8>, d1: int, d2: int)
    requires
        rows_stay_inside(scan_refs(s, 0), d1),
    ensures
        scan_refs(rebuild(s, scan_refs(s, 0), d1, 0, 0), 0) == rebased_refs(scan_refs(s, 0), d1),
        rebuild(
            rebuild(s, scan_refs(s, 0), d1, 0, 0),
            scan_refs(rebuild(s, scan_refs(s, 0), d1, 0, 0), 0),
            d2,
            0,
            0,
        ) == rebuild(s, scan_refs(s, 0), d1 + d2, 0, 0),
{
    let refs = scan_refs(s, 0);
    lemma_shape_of_scan(s);
    assert(refs.subrange(0, refs.len() as int) =~= refs);
    if refs.len() > 0 {
        lemma_shape_ref(s, refs, 0);
    }
    lemma_rebase_scan(s, refs, d1, 0, 0);
    assert(rebased_refs(refs, d1).subrange(0, refs.len() as int) =~= rebased_refs(refs, d1));
    lemma_rebuild_rebased(s, refs, d1, d2, 0);
}

} // verus!
