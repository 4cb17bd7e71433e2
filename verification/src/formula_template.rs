//! Formula template for reconstructing per-row formula text.
//!
//! Positions are byte offsets into the UTF-8 encoding of the formula text.
use vstd::prelude::*;
use vstd::string::StringSliceAdditionalSpecFns;
use vstd::utf8::{
    encode_utf8, encode_utf8_valid_utf8, is_ascii_chars, is_ascii_chars_encode_utf8,
    is_char_boundary, is_char_boundary_iff_not_is_continuation_byte,
    is_char_boundary_start_end_of_seq, is_continuation_byte, valid_utf8, valid_utf8_split,
};

use crate::ascii::{
    byte_is_alpha, byte_is_digit, digits_end, is_alpha, is_digit, is_upper,
    lemma_digits_end_bounds, scan_digits,
};
use crate::formula_lexer::strip_digits;
use crate::text::{decimal, digit_char, push_decimal, push_str};

verus! {

/// Maximum row count of an xlsx worksheet.
pub const EXCEL_MAX_ROWS: u64 = 1048576;

/// A byte that may not border a cell reference: ASCII letter, digit or `_`.
pub open spec fn is_word_byte(b: u8) -> bool {
    is_alpha(b) || is_digit(b) || b == 95u8
}

fn byte_is_upper(b: u8) -> (r: bool)
    ensures
        r == is_upper(b),
{
    65 <= b && b <= 90
}

fn byte_is_word(b: u8) -> (r: bool)
    ensures
        r == is_word_byte(b),
{
    byte_is_alpha(b) || byte_is_digit(b) || b == 95u8
}

/// First index at or after `i` whose byte is not an upper-case letter.
pub open spec fn upper_run_end(s: Seq<u8>, i: int) -> int
    decreases s.len() - i,
{
    if 0 <= i < s.len() && is_upper(s[i]) {
        upper_run_end(s, i + 1)
    } else {
        i
    }
}

/// Index just after a double-quoted string literal whose content starts at
/// `i` (a doubled `""` is an escaped quote); the length when unterminated.
pub open spec fn string_literal_end(s: Seq<u8>, i: int) -> int
    decreases s.len() - i,
{
    if i < 0 || i >= s.len() {
        i
    } else if s[i] == 34u8 {
        if i + 1 < s.len() && s[i + 1] == 34u8 {
            string_literal_end(s, i + 2)
        } else {
            i + 1
        }
    } else {
        string_literal_end(s, i + 1)
    }
}

/// First index at or after `i` holding `'`, or the length.
pub open spec fn quote_pos(s: Seq<u8>, i: int) -> int
    decreases s.len() - i,
{
    if 0 <= i < s.len() && s[i] != 39u8 {
        quote_pos(s, i + 1)
    } else {
        i
    }
}

/// Index after a single-quoted sheet name whose content starts at `i`,
/// including a following `!`.
pub open spec fn sheet_name_end(s: Seq<u8>, i: int) -> int {
    let q = quote_pos(s, i);
    let j = if q < s.len() { q + 1 } else { q };
    if j < s.len() && s[j] == 33u8 {
        j + 1
    } else {
        j
    }
}

/// The value of a decimal digit byte.
pub open spec fn digit_value(b: u8) -> nat {
    (b - 48) as nat
}

/// The decimal value of the digits `s[from..to]`.
pub open spec fn digits_value(s: Seq<u8>, from: int, to: int) -> nat
    decreases to - from,
{
    if to <= from {
        0
    } else {
        digits_value(s, from, to - 1) * 10 + digit_value(s[to - 1])
    }
}

/// The scanner's runs from `i` are what the specs say.
pub proof fn lemma_runs(s: Seq<u8>, i: int)
    requires
        0 <= i <= s.len(),
    ensures
        i <= upper_run_end(s, i) <= s.len(),
        i <= digits_end(s, i) <= s.len(),
        i <= string_literal_end(s, i) <= s.len(),
        i <= quote_pos(s, i) <= s.len(),
        i <= sheet_name_end(s, i) <= s.len(),
        forall|k: int| i <= k < upper_run_end(s, i) ==> is_upper(#[trigger] s[k]),
        forall|k: int| i <= k < digits_end(s, i) ==> is_digit(#[trigger] s[k]),
        upper_run_end(s, i) == s.len() || !is_upper(s[upper_run_end(s, i)]),
        digits_end(s, i) == s.len() || !is_digit(s[digits_end(s, i)]),
        quote_pos(s, i) == s.len() || s[quote_pos(s, i)] == 39u8,
    decreases s.len() - i,
{
    lemma_digits_end_bounds(s, i);
    if i < s.len() {
        lemma_runs(s, i + 1);
        if s[i] == 34u8 && i + 1 < s.len() && s[i + 1] == 34u8 {
            lemma_runs(s, i + 2);
        }
    }
}

/// The row references found by scanning from byte `i`: for each relative
/// (not `$`-locked) row of a cell reference, its start, its end and its row
/// number. String literals and quoted sheet names are skipped; a reference
/// must not be glued to a letter, digit or `_`, nor followed by `!`.
pub open spec fn scan_refs(s: Seq<u8>, i: int) -> Seq<(int, int, int)>
    decreases s.len() - i,
{
    if i < 0 || i >= s.len() {
        Seq::empty()
    } else {
        proof {
            lemma_runs(s, i + 1);
            lemma_runs(s, i);
        }
        if s[i] == 34u8 {
            scan_refs(s, string_literal_end(s, i + 1))
        } else if s[i] == 39u8 {
            scan_refs(s, sheet_name_end(s, i + 1))
        } else if i > 0 && is_word_byte(s[i - 1]) {
            scan_refs(s, i + 1)
        } else {
            let c0 = if s[i] == 36u8 { i + 1 } else { i };
            proof {
                lemma_runs(s, c0);
            }
            let ce = upper_run_end(s, c0);
            let letters = ce - c0;
            if letters == 0 || letters > 3 {
                scan_refs(s, i + 1)
            } else {
                let locked = ce < s.len() && s[ce] == 36u8;
                let ds = if locked { ce + 1 } else { ce };
                proof {
                    lemma_runs(s, ds);
                }
                let de = digits_end(s, ds);
                if ds == de {
                    scan_refs(s, i + 1)
                } else if de < s.len() && is_word_byte(s[de]) {
                    scan_refs(s, i + 1)
                } else if de < s.len() && s[de] == 33u8 {
                    scan_refs(s, de + 1)
                } else if !locked && 0 < digits_value(s, ds, de) <= u32::MAX {
                    seq![(ds, de, digits_value(s, ds, de) as int)] + scan_refs(s, de)
                } else {
                    scan_refs(s, de)
                }
            }
        }
    }
}

/// Row references that are ordered, disjoint, inside the text, and each a
/// non-empty run of digits whose value is the recorded row.
pub open spec fn refs_wf(s: Seq<u8>, refs: Seq<(int, int, int)>, from: int) -> bool {
    &&& forall|k: int|
        0 <= k < refs.len() ==> from <= (#[trigger] refs[k]).0 < refs[k].1 <= s.len()
    &&& forall|k: int| 0 <= k < refs.len() - 1 ==> (#[trigger] refs[k]).1 <= refs[k + 1].0
    &&& forall|k: int, p: int|
        0 <= k < refs.len() && (#[trigger] refs[k]).0 <= p < refs[k].1 ==> is_digit(
            #[trigger] s[p],
        )
    &&& forall|k: int|
        0 <= k < refs.len() ==> (#[trigger] refs[k]).2 == digits_value(s, refs[k].0, refs[k].1)
            && 0 < refs[k].2 <= u32::MAX
}

/// The references found from `i` are well formed, each starting at or after `i`.
pub proof fn lemma_scan_wf(s: Seq<u8>, i: int)
    requires
        0 <= i,
    ensures
        refs_wf(s, scan_refs(s, i), i),
    decreases s.len() - i,
{
    if i < s.len() {
        lemma_runs(s, i + 1);
        lemma_runs(s, i);
        if s[i] == 34u8 {
            lemma_scan_wf(s, string_literal_end(s, i + 1));
        } else if s[i] == 39u8 {
            lemma_scan_wf(s, sheet_name_end(s, i + 1));
        } else if i > 0 && is_word_byte(s[i - 1]) {
            lemma_scan_wf(s, i + 1);
        } else {
            let c0 = if s[i] == 36u8 { i + 1 } else { i };
            lemma_runs(s, c0);
            let ce = upper_run_end(s, c0);
            let letters = ce - c0;
            if letters == 0 || letters > 3 {
                lemma_scan_wf(s, i + 1);
            } else {
                let locked = ce < s.len() && s[ce] == 36u8;
                let ds = if locked { ce + 1 } else { ce };
                lemma_runs(s, ds);
                let de = digits_end(s, ds);
                if ds == de {
                    lemma_scan_wf(s, i + 1);
                } else if de < s.len() && is_word_byte(s[de]) {
                    lemma_scan_wf(s, i + 1);
                } else if de < s.len() && s[de] == 33u8 {
                    lemma_scan_wf(s, de + 1);
                } else {
                    lemma_scan_wf(s, de);
                    let rest = scan_refs(s, de);
                    if !locked && 0 < digits_value(s, ds, de) <= u32::MAX {
                        let r = seq![(ds, de, digits_value(s, ds, de) as int)] + rest;
                        assert forall|k: int, p: int|
                            0 <= k < r.len() && (#[trigger] r[k]).0 <= p < r[k].1 implies is_digit(
                                #[trigger] s[p],
                            ) by {
                            if k > 0 {
                                assert(r[k] == rest[k - 1]);
                            }
                        }
                        assert forall|k: int| 0 <= k < r.len() - 1 implies (#[trigger] r[k]).1
                            <= r[k + 1].0 by {
                            if k > 0 {
                                assert(r[k] == rest[k - 1]);
                                assert(r[k + 1] == rest[k]);
                            }
                        }
                    }
                }
            }
        }
    }
}

/// What each found reference looks like in the text: its row digits follow
/// an upper-case column letter directly, and the byte after them, if any, is
/// neither a letter, a digit, `_` nor `!`.
pub open spec fn refs_delimited(s: Seq<u8>, refs: Seq<(int, int, int)>) -> bool {
    forall|k: int|
        0 <= k < refs.len() ==> 1 <= (#[trigger] refs[k]).0 && is_upper(s[refs[k].0 - 1]) && (
        refs[k].1 == s.len() || !(is_word_byte(s[refs[k].1]) || s[refs[k].1] == 33u8))
}

/// The references found from `i` are delimited as `refs_delimited` says.
pub proof fn lemma_scan_delimited(s: Seq<u8>, i: int)
    requires
        0 <= i,
    ensures
        refs_delimited(s, scan_refs(s, i)),
    decreases s.len() - i,
{
    if i < s.len() {
        lemma_runs(s, i + 1);
        lemma_runs(s, i);
        if s[i] == 34u8 {
            lemma_scan_delimited(s, string_literal_end(s, i + 1));
        } else if s[i] == 39u8 {
            lemma_scan_delimited(s, sheet_name_end(s, i + 1));
        } else if i > 0 && is_word_byte(s[i - 1]) {
            lemma_scan_delimited(s, i + 1);
        } else {
            let c0 = if s[i] == 36u8 { i + 1 } else { i };
            lemma_runs(s, c0);
            let ce = upper_run_end(s, c0);
            let letters = ce - c0;
            if letters == 0 || letters > 3 {
                lemma_scan_delimited(s, i + 1);
            } else {
                let locked = ce < s.len() && s[ce] == 36u8;
                let ds = if locked { ce + 1 } else { ce };
                lemma_runs(s, ds);
                let de = digits_end(s, ds);
                if ds == de {
                    lemma_scan_delimited(s, i + 1);
                } else if de < s.len() && is_word_byte(s[de]) {
                    lemma_scan_delimited(s, i + 1);
                } else if de < s.len() && s[de] == 33u8 {
                    lemma_scan_delimited(s, de + 1);
                } else {
                    lemma_scan_delimited(s, de);
                    let rest = scan_refs(s, de);
                    if !locked && 0 < digits_value(s, ds, de) <= u32::MAX {
                        let r = seq![(ds, de, digits_value(s, ds, de) as int)] + rest;
                        assert(is_upper(s[ce - 1]));
                        assert forall|k: int| 0 <= k < r.len() implies 1 <= (#[trigger] r[k]).0
                            && is_upper(s[r[k].0 - 1]) && (r[k].1 == s.len() || !(is_word_byte(
                            s[r[k].1],
                        ) || s[r[k].1] == 33u8)) by {
                            if k > 0 {
                                assert(r[k] == rest[k - 1]);
                            }
                        }
                    }
                }
            }
        }
    }
}

/// The bytes of `s` with the reference at index `k` onwards rewritten, from
/// byte `last` on: each row moved by `delta`, clamped to the sheet, and
/// written in decimal.
pub open spec fn rebuild(s: Seq<u8>, refs: Seq<(int, int, int)>, delta: int, k: int, last: int) -> Seq<u8>
    decreases refs.len() - k,
{
    if k < 0 || k >= refs.len() {
        s.subrange(last, s.len() as int)
    } else {
        s.subrange(last, refs[k].0) + encode_utf8(decimal(clamp_row(refs[k].2 + delta)))
            + rebuild(s, refs, delta, k + 1, refs[k].1)
    }
}

/// A row number clamped to `1..=EXCEL_MAX_ROWS`.
pub open spec fn clamp_row(r: int) -> nat {
    if r < 1 {
        1
    } else if r > EXCEL_MAX_ROWS {
        EXCEL_MAX_ROWS as nat
    } else {
        r as nat
    }
}

/// Row references as mathematical integers.
pub open spec fn refs_view(v: Seq<(usize, usize, u32)>) -> Seq<(int, int, int)> {
    v.map_values(|r: (usize, usize, u32)| (r.0 as int, r.1 as int, r.2 as int))
}

fn skip_string_literal(s: &[u8], i: usize) -> (j: usize)
    requires
        i <= s@.len(),
    ensures
        j as int == string_literal_end(s@, i as int),
    decreases s@.len() - i,
{
    if i >= s.len() {
        i
    } else if s[i] == 34u8 {
        if i + 1 < s.len() && s[i + 1] == 34u8 {
            skip_string_literal(s, i + 2)
        } else {
            i + 1
        }
    } else {
        skip_string_literal(s, i + 1)
    }
}

fn skip_sheet_name(s: &[u8], i: usize) -> (j: usize)
    requires
        i <= s@.len(),
    ensures
        j as int == sheet_name_end(s@, i as int),
{
    let mut q = i;
    while q < s.len() && s[q] != 39u8
        invariant
            i <= q <= s@.len(),
            quote_pos(s@, i as int) == quote_pos(s@, q as int),
        decreases s@.len() - q,
    {
        q += 1;
    }
    let mut j = if q < s.len() {
        q + 1
    } else {
        q
    };
    if j < s.len() && s[j] == 33u8 {
        j += 1;
    }
    j
}

fn scan_upper(s: &[u8], i: usize) -> (j: usize)
    requires
        i <= s@.len(),
    ensures
        j as int == upper_run_end(s@, i as int),
{
    let mut j = i;
    while j < s.len() && byte_is_upper(s[j])
        invariant
            i <= j <= s@.len(),
            upper_run_end(s@, i as int) == upper_run_end(s@, j as int),
        decreases s@.len() - j,
    {
        j += 1;
    }
    j
}

proof fn lemma_digits_value_monotone(s: Seq<u8>, from: int, k: int, to: int)
    requires
        from <= k <= to,
        forall|p: int| from <= p < to ==> is_digit(#[trigger] s[p]),
    ensures
        digits_value(s, from, k) <= digits_value(s, from, to),
    decreases to - k,
{
    if k < to {
        lemma_digits_value_monotone(s, from, k, to - 1);
        let v = digits_value(s, from, to - 1);
        assert(v * 10 + digit_value(s[to - 1]) >= v) by (nonlinear_arith);
    }
}

/// The value of the digits `s[from..to]` as a `u32`, `None` when it does not
/// fit (`str::parse::<u32>` on a digit run).
fn parse_digits_u32(s: &[u8], from: usize, to: usize) -> (r: Option<u32>)
    requires
        from <= to <= s@.len(),
        forall|p: int| from <= p < to ==> is_digit(#[trigger] s@[p]),
    ensures
        r matches Some(v) ==> v == digits_value(s@, from as int, to as int),
        r is None ==> digits_value(s@, from as int, to as int) > u32::MAX,
{
    let mut acc: u32 = 0;
    let mut k = from;
    while k < to
        invariant
            from <= k <= to <= s@.len(),
            forall|p: int| from <= p < to ==> is_digit(#[trigger] s@[p]),
            acc == digits_value(s@, from as int, k as int),
        decreases to - k,
    {
        let d = (s[k] - 48u8) as u32;
        if acc > (u32::MAX - d) / 10 {
            proof {
                assert(acc * 10 + d > u32::MAX) by (nonlinear_arith)
                    requires
                        acc > (u32::MAX - d) / 10,
                        d <= 9,
                ;
                lemma_digits_value_monotone(s@, from as int, k + 1, to as int);
            }
            return None;
        }
        proof {
            assert(acc * 10 + d <= u32::MAX) by (nonlinear_arith)
                requires
                    acc <= (u32::MAX - d) / 10,
                    d <= 9,
            ;
        }
        acc = acc * 10 + d;
        k += 1;
    }
    Some(acc)
}

/// Scan formula text for cell references and return, for each relative
/// (not `$`-locked) row, its start and end byte positions and its row
/// number.
///
/// Only upper-case column letters are matched (cell references in stored
/// formulas are upper-case).
pub fn extract_row_refs(text: &str) -> (refs: Vec<(usize, usize, u32)>)
    ensures
        refs_view(refs@) == scan_refs(text.spec_bytes(), 0),
        refs_wf(text.spec_bytes(), refs_view(refs@), 0),
        refs_delimited(text.spec_bytes(), refs_view(refs@)),
{
    proof {
        lemma_scan_wf(text.spec_bytes(), 0);
        lemma_scan_delimited(text.spec_bytes(), 0);
    }
    extract_row_refs_bytes(text.as_bytes())
}

fn extract_row_refs_bytes(s: &[u8]) -> (refs: Vec<(usize, usize, u32)>)
    ensures
        refs_view(refs@) == scan_refs(s@, 0),
{
    let len = s.len();
    let mut refs: Vec<(usize, usize, u32)> = Vec::new();
    let mut i: usize = 0;
    while i < len
        invariant
            len == s@.len(),
            i <= len,
            scan_refs(s@, 0) == refs_view(refs@) + scan_refs(s@, i as int),
        decreases len - i,
    {
        proof {
            lemma_runs(s@, i as int);
            lemma_runs(s@, i + 1);
        }
        let ghost old_refs = refs@;
        if s[i] == 34u8 {
            i = skip_string_literal(s, i + 1);
            continue;
        }
        if s[i] == 39u8 {
            i = skip_sheet_name(s, i + 1);
            continue;
        }
        if i > 0 && byte_is_word(s[i - 1]) {
            i += 1;
            continue;
        }
        let save = i;
        let c0 = if s[i] == 36u8 {
            i + 1
        } else {
            i
        };
        proof {
            lemma_runs(s@, c0 as int);
        }
        let ce = scan_upper(s, c0);
        let letters = ce - c0;
        if letters == 0 || letters > 3 {
            i = save + 1;
            continue;
        }
        let locked = ce < len && s[ce] == 36u8;
        let ds = if locked {
            ce + 1
        } else {
            ce
        };
        proof {
            lemma_runs(s@, ds as int);
        }
        let de = scan_digits(s, ds);
        if ds == de {
            i = save + 1;
            continue;
        }
        if de < len && byte_is_word(s[de]) {
            i = save + 1;
            continue;
        }
        if de < len && s[de] == 33u8 {
            i = de + 1;
            continue;
        }
        if !locked {
            let parsed = parse_digits_u32(s, ds, de);
            if let Some(row) = parsed {
                if row > 0 {
                    refs.push((ds, de, row));
                    proof {
                        assert(refs_view(refs@) =~= refs_view(old_refs) + seq![
                            (ds as int, de as int, row as int),
                        ]);
                    }
                }
            }
        }
        i = de;
    }
    proof {
        assert(refs_view(refs@) + scan_refs(s@, i as int) =~= refs_view(refs@));
    }
    refs
}

/// The UTF-8 encoding of a concatenation is the concatenation of the
/// encodings.
pub proof fn lemma_encode_utf8_concat(a: Seq<char>, b: Seq<char>)
    ensures
        encode_utf8(a + b) == encode_utf8(a) + encode_utf8(b),
    decreases a.len(),
{
    if a.len() == 0 {
        assert(a + b =~= b);
    } else {
        lemma_encode_utf8_concat(a.drop_first(), b);
        assert((a + b).drop_first() =~= a.drop_first() + b);
        assert((a + b)[0] == a[0]);
        assert(encode_utf8(a + b) =~= encode_utf8(a) + encode_utf8(b));
    }
}

/// In valid UTF-8, the byte after an ASCII byte starts a character.
proof fn lemma_after_ascii_is_boundary(s: Seq<u8>, i: int)
    requires
        valid_utf8(s),
        0 <= i < s.len(),
        s[i] < 128,
    ensures
        is_char_boundary(s, i + 1),
{
    if i + 1 == s.len() {
        is_char_boundary_start_end_of_seq(s);
    } else {
        is_char_boundary_iff_not_is_continuation_byte(s, i);
        valid_utf8_split(s, i);
        let t = s.subrange(i, s.len() as int);
        assert(t[0] == s[i]);
        let u = t.subrange(1, t.len() as int);
        assert(valid_utf8(u));
        assert(u[0] == s[i + 1]);
        assert(!is_continuation_byte(s[i + 1]));
        is_char_boundary_iff_not_is_continuation_byte(s, i + 1);
    }
}

/// Both ends of a run of ASCII digits in valid UTF-8 are character
/// boundaries.
proof fn lemma_digit_run_boundaries(s: Seq<u8>, st: int, en: int)
    requires
        valid_utf8(s),
        0 <= st < en <= s.len(),
        forall|p: int| st <= p < en ==> is_digit(#[trigger] s[p]),
    ensures
        is_char_boundary(s, st),
        is_char_boundary(s, en),
{
    assert(is_digit(s[st]));
    is_char_boundary_iff_not_is_continuation_byte(s, st);
    assert(is_digit(s[en - 1]));
    lemma_after_ascii_is_boundary(s, en - 1);
}

/// Both ends of every row reference lie on character boundaries.
proof fn lemma_ref_boundaries(s: Seq<u8>, refs: Seq<(int, int, int)>, k: int)
    requires
        valid_utf8(s),
        refs_wf(s, refs, 0),
        0 <= k < refs.len(),
    ensures
        0 <= refs[k].0 < refs[k].1 <= s.len(),
        is_char_boundary(s, refs[k].0),
        is_char_boundary(s, refs[k].1),
        k + 1 < refs.len() ==> refs[k].1 <= refs[k + 1].0,
{
    let (st, en, row) = refs[k];
    assert forall|p: int| st <= p < en implies is_digit(#[trigger] s[p]) by {
        assert(refs[k].0 <= p < refs[k].1);
    }
    lemma_digit_run_boundaries(s, st, en);
}

/// Appends the bytes `text[from..to]`, both ends on character boundaries.
fn push_byte_range(result: &mut String, text: &str, from: usize, to: usize)
    requires
        from <= to <= text.spec_bytes().len(),
        is_char_boundary(text.spec_bytes(), from as int),
        is_char_boundary(text.spec_bytes(), to as int),
    ensures
        encode_utf8(final(result)@) == encode_utf8(old(result)@) + text.spec_bytes().subrange(
            from as int,
            to as int,
        ),
{
    let ghost before = result@;
    let ghost b = text.spec_bytes();
    proof {
        encode_utf8_valid_utf8(text@);
    }
    let (_head, tail) = text.split_at(from);
    proof {
        let tb = tail.spec_bytes();
        encode_utf8_valid_utf8(tail@);
        assert(tb =~= b.subrange(from as int, b.len() as int));
        if to < b.len() {
            is_char_boundary_iff_not_is_continuation_byte(b, to as int);
            is_char_boundary_iff_not_is_continuation_byte(tb, to - from);
            assert(tb[to - from] == b[to as int]);
        } else {
            is_char_boundary_start_end_of_seq(tb);
        }
    }
    let (mid, _rest) = tail.split_at(to - from);
    push_str(result, mid);
    proof {
        lemma_encode_utf8_concat(before, mid@);
        assert(mid.spec_bytes() =~= b.subrange(from as int, to as int));
    }
}

proof fn lemma_strip_concat(a: Seq<u8>, b: Seq<u8>)
    ensures
        strip_digits(a + b) == strip_digits(a) + strip_digits(b),
    decreases a.len(),
{
    if a.len() == 0 {
        assert(a + b =~= b);
    } else {
        lemma_strip_concat(a.drop_first(), b);
        assert((a + b).drop_first() =~= a.drop_first() + b);
        assert((a + b)[0] == a[0]);
        if !is_digit(a[0]) {
            assert(seq![a[0]] + (strip_digits(a.drop_first()) + strip_digits(b)) =~= (seq![a[0]]
                + strip_digits(a.drop_first())) + strip_digits(b));
        }
    }
}

proof fn lemma_strip_all_digits(a: Seq<u8>)
    requires
        forall|k: int| 0 <= k < a.len() ==> is_digit(#[trigger] a[k]),
    ensures
        strip_digits(a) == Seq::<u8>::empty(),
    decreases a.len(),
{
    if a.len() > 0 {
        lemma_strip_all_digits(a.drop_first());
    }
}

/// The UTF-8 encoding of one decimal digit character is its ASCII byte.
pub proof fn lemma_digit_char_byte(d: nat)
    requires
        d < 10,
    ensures
        encode_utf8(seq![digit_char(d)]) == seq![(48 + d) as u8],
{
    let c = digit_char(d);
    let cs = seq![c];
    assert(cs[0] == c);
    assert(is_ascii_chars(cs));
    is_ascii_chars_encode_utf8(cs);
    assert(c as u8 == (48 + d) as u8);
    assert(encode_utf8(cs) =~= seq![(48 + d) as u8]);
}

/// The decimal text of `n` is a non-empty run of ASCII digit bytes.
pub proof fn lemma_decimal_bytes(n: nat)
    ensures
        encode_utf8(decimal(n)).len() >= 1,
        forall|k: int|
            0 <= k < encode_utf8(decimal(n)).len() ==> is_digit(#[trigger] encode_utf8(decimal(n))[k]),
    decreases n,
{
    if n < 10 {
        lemma_digit_char_byte(n);
    } else {
        lemma_decimal_bytes(n / 10);
        lemma_digit_char_byte(n % 10);
        lemma_encode_utf8_concat(decimal(n / 10), seq![digit_char(n % 10)]);
        let pre = encode_utf8(decimal(n / 10));
        let e = encode_utf8(decimal(n));
        assert(e == pre + seq![(48 + n % 10) as u8]);
        assert forall|k: int| 0 <= k < e.len() implies is_digit(#[trigger] e[k]) by {
            if k < pre.len() {
                assert(e[k] == pre[k]);
            }
        }
    }
}

proof fn lemma_rebuild_strip(s: Seq<u8>, refs: Seq<(int, int, int)>, delta: int, k: int, last: int)
    requires
        refs_wf(s, refs, 0),
        0 <= k <= refs.len(),
        0 <= last <= s.len(),
        k < refs.len() ==> last <= refs[k].0,
    ensures
        strip_digits(rebuild(s, refs, delta, k, last)) == strip_digits(
            s.subrange(last, s.len() as int),
        ),
    decreases refs.len() - k,
{
    if k < refs.len() {
        let (st, en, row) = refs[k];
        if k + 1 < refs.len() {
            assert(refs[k].1 <= refs[k + 1].0);
        }
        lemma_rebuild_strip(s, refs, delta, k + 1, en);
        let d = encode_utf8(decimal(clamp_row(row + delta)));
        lemma_decimal_bytes(clamp_row(row + delta));
        lemma_strip_all_digits(d);
        let mid = s.subrange(st, en);
        assert forall|p: int| 0 <= p < mid.len() implies is_digit(#[trigger] mid[p]) by {
            assert(mid[p] == s[st + p]);
        }
        lemma_strip_all_digits(mid);
        let pre = s.subrange(last, st);
        let post = s.subrange(en, s.len() as int);
        lemma_strip_concat(pre, d);
        lemma_strip_concat(pre + d, rebuild(s, refs, delta, k + 1, en));
        assert(s.subrange(last, s.len() as int) =~= pre + mid + post);
        lemma_strip_concat(pre, mid);
        lemma_strip_concat(pre + mid, post);
        assert(strip_digits(pre + d) =~= strip_digits(pre));
        assert(strip_digits(pre + mid) =~= strip_digits(pre));
    }
}

/// Reconstruction changes digits only: with every ASCII digit removed, the
/// reconstructed bytes equal the template bytes, whatever the row shift.
pub proof fn law_reconstruct_changes_digits_only(s: Seq<u8>, delta: int)
    ensures
        strip_digits(rebuild(s, scan_refs(s, 0), delta, 0, 0)) == strip_digits(s),
{
    lemma_scan_wf(s, 0);
    lemma_rebuild_strip(s, scan_refs(s, 0), delta, 0, 0);
    assert(s.subrange(0, s.len() as int) =~= s);
}

proof fn lemma_digits_value_positive(s: Seq<u8>, st: int, en: int)
    requires
        st < en,
        is_digit(s[st]),
        s[st] != 48u8,
    ensures
        digits_value(s, st, en) >= 1,
    decreases en - st,
{
    if en > st + 1 {
        lemma_digits_value_positive(s, st, en - 1);
    }
}

/// A digit run without a leading zero is the decimal text of its value.
proof fn lemma_digits_are_decimal(s: Seq<u8>, st: int, en: int)
    requires
        0 <= st < en <= s.len(),
        forall|p: int| st <= p < en ==> is_digit(#[trigger] s[p]),
        s[st] != 48u8,
    ensures
        encode_utf8(decimal(digits_value(s, st, en))) == s.subrange(st, en),
    decreases en - st,
{
    let last = s[en - 1];
    assert(is_digit(last));
    let dv = digit_value(last);
    lemma_digit_char_byte(dv);
    assert((48 + dv) as u8 == last);
    if en == st + 1 {
        assert(digits_value(s, st, st) == 0);
        assert(digits_value(s, st, en) == dv);
        assert(s.subrange(st, en) =~= seq![last]);
    } else {
        lemma_digits_are_decimal(s, st, en - 1);
        lemma_digits_value_positive(s, st, en - 1);
        let a = digits_value(s, st, en - 1);
        let v = digits_value(s, st, en);
        assert(v == a * 10 + dv);
        assert(v / 10 == a && v % 10 == dv && v >= 10) by (nonlinear_arith)
            requires
                v == a * 10 + dv,
                dv < 10,
                a >= 1,
        ;
        assert(decimal(v) == decimal(a) + seq![digit_char(dv)]);
        lemma_encode_utf8_concat(decimal(a), seq![digit_char(dv)]);
        assert(s.subrange(st, en) =~= s.subrange(st, en - 1) + seq![last]);
    }
}

proof fn lemma_rebuild_identity(s: Seq<u8>, refs: Seq<(int, int, int)>, k: int, last: int)
    requires
        refs_wf(s, refs, 0),
        forall|j: int|
            0 <= j < refs.len() ==> (#[trigger] refs[j]).2 <= EXCEL_MAX_ROWS && s[refs[j].0]
                != 48u8,
        0 <= k <= refs.len(),
        0 <= last <= s.len(),
        k < refs.len() ==> last <= refs[k].0,
    ensures
        rebuild(s, refs, 0, k, last) == s.subrange(last, s.len() as int),
    decreases refs.len() - k,
{
    if k < refs.len() {
        let (st, en, row) = refs[k];
        if k + 1 < refs.len() {
            assert(refs[k].1 <= refs[k + 1].0);
        }
        lemma_rebuild_identity(s, refs, k + 1, en);
        assert(clamp_row(row + 0) == row);
        assert forall|p: int| st <= p < en implies is_digit(#[trigger] s[p]) by {
            assert(refs[k].0 <= p < refs[k].1);
        }
        lemma_digits_are_decimal(s, st, en);
        assert(s.subrange(last, s.len() as int) =~= s.subrange(last, st) + s.subrange(st, en)
            + s.subrange(en, s.len() as int));
    }
}

/// Reconstructing for the template's own row gives the template text back
/// when no relative row is written with a leading zero and every one lies
/// inside the sheet.
pub proof fn law_reconstruct_base_row_identity(s: Seq<u8>)
    requires
        forall|k: int|
            0 <= k < scan_refs(s, 0).len() ==> (#[trigger] scan_refs(s, 0)[k]).2 <= EXCEL_MAX_ROWS
                && s[scan_refs(s, 0)[k].0] != 48u8,
    ensures
        rebuild(s, scan_refs(s, 0), 0, 0, 0) == s,
{
    lemma_scan_wf(s, 0);
    lemma_rebuild_identity(s, scan_refs(s, 0), 0, 0);
    assert(s.subrange(0, s.len() as int) =~= s);
}

/// A column-level formula template that reconstructs per-row formula text by
/// substituting row numbers at known byte positions.
///
/// The template keeps the formula text of the column's first row and the
/// byte positions of its relative row references.
pub struct FormulaTemplate {
    text: String,
    row_refs: Vec<(usize, usize, u32)>,
    base_row: u32,
}

impl FormulaTemplate {
    /// The template text.
    pub closed spec fn text(&self) -> Seq<char> {
        self.text@
    }

    /// The 1-based row the template text belongs to.
    pub closed spec fn base_row(&self) -> u32 {
        self.base_row
    }

    /// The relative row references of the text.
    pub closed spec fn refs(&self) -> Seq<(int, int, int)> {
        refs_view(self.row_refs@)
    }

    /// The row references are those of the template text.
    pub closed spec fn wf(&self) -> bool {
        &&& self.refs() == scan_refs(encode_utf8(self.text@), 0)
        &&& refs_wf(encode_utf8(self.text@), self.refs(), 0)
    }

    /// Build a template from formula text and its 1-based source row.
    pub fn new(text: String, base_row: u32) -> (t: Self)
        ensures
            t.wf(),
            t.text() == text@,
            t.base_row() == base_row,
            t.refs() == scan_refs(encode_utf8(text@), 0),
    {
        let row_refs = extract_row_refs(text.as_str());
        proof {
            lemma_scan_wf(encode_utf8(text@), 0);
        }
        FormulaTemplate { text, row_refs, base_row }
    }

    /// Reconstruct the formula text for `target_row` (1-based): every relative
    /// row moves by `target_row - base_row`, clamped to `1..=EXCEL_MAX_ROWS`.
    pub fn reconstruct(&self, target_row: u32) -> (r: String)
        requires
            self.wf(),
        ensures
            encode_utf8(r@) == rebuild(
                encode_utf8(self.text()),
                self.refs(),
                target_row - self.base_row(),
                0,
                0,
            ),
    {
        let ghost s = encode_utf8(self.text@);
        let ghost refs = self.refs();
        let ghost delta = target_row - self.base_row;
        let text = self.text.as_str();
        proof {
            encode_utf8_valid_utf8(self.text@);
            is_char_boundary_start_end_of_seq(s);
        }
        if self.row_refs.len() == 0 {
            proof {
                assert(s.subrange(0, s.len() as int) =~= s);
            }
            return self.text.clone();
        }
        let text_len = text.as_bytes().len();
        proof {
            lemma_scan_wf(s, 0);
        }
        let row_delta: i64 = (target_row as i64) - (self.base_row as i64);
        let mut result = String::new();
        let mut last_end: usize = 0;
        let mut k: usize = 0;
        while k < self.row_refs.len()
            invariant
                refs_wf(s, refs, 0),
                s == text.spec_bytes(),
                valid_utf8(s),
                text_len == s.len(),
                is_char_boundary(s, s.len() as int),
                refs == self.refs(),
                delta == row_delta,
                -0x1_0000_0000 < row_delta < 0x1_0000_0000,
                k <= self.row_refs@.len(),
                refs.len() == self.row_refs@.len(),
                k == 0 ==> last_end == 0,
                k > 0 ==> last_end as int == refs[k - 1].1,
                last_end <= s.len(),
                is_char_boundary(s, last_end as int),
                rebuild(s, refs, delta, 0, 0) == encode_utf8(result@) + rebuild(
                    s,
                    refs,
                    delta,
                    k as int,
                    last_end as int,
                ),
            decreases self.row_refs@.len() - k,
        {
            let (start, end, base_ref_row) = self.row_refs[k];
            proof {
                assert(refs[k as int] == (start as int, end as int, base_ref_row as int));
                if k > 0 {
                    lemma_ref_boundaries(s, refs, k - 1);
                }
                lemma_ref_boundaries(s, refs, k as int);
            }
            let ghost mid_before = result@;
            push_byte_range(&mut result, text, last_end, start);
            let moved: i64 = (base_ref_row as i64) + row_delta;
            let new_row: u64 = if moved < 1 {
                1
            } else if moved > (EXCEL_MAX_ROWS as i64) {
                EXCEL_MAX_ROWS
            } else {
                moved as u64
            };
            let ghost mid_after = result@;
            push_decimal(&mut result, new_row);
            proof {
                assert(new_row as nat == clamp_row(refs[k as int].2 + delta));
                lemma_encode_utf8_concat(mid_after, decimal(new_row as nat));
                assert(encode_utf8(result@) == encode_utf8(mid_before) + s.subrange(
                    last_end as int,
                    start as int,
                ) + encode_utf8(decimal(new_row as nat)));
            }
            last_end = end;
            k += 1;
        }
        push_byte_range(&mut result, text, last_end, text_len);
        proof {
            assert(rebuild(s, refs, delta, k as int, last_end as int) == s.subrange(
                last_end as int,
                s.len() as int,
            ));
        }
        result
    }
}

} // verus!
