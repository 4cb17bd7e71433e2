//! A1-notation cell addresses.
use vstd::prelude::*;
use vstd::string::StringSliceAdditionalSpecFns;
use vstd::utf8::{encode_utf8, is_ascii_chars, is_ascii_chars_encode_utf8};

use crate::ascii::{
    alpha_end, byte_is_alpha, byte_is_digit, is_alpha, is_digit, is_lower, lemma_alpha_end,
};
use crate::text::{decimal, digit_char, lemma_decimal_digits, push_char, push_decimal};

verus! {

/// The letter of column digit `d < 26` (`A` for 0).
pub open spec fn col_letter(d: nat) -> char {
    (65 + d) as char
}

/// The column letters of 1-based column `c` ("A" for 1, "Z" for 26, "AA"
/// for 27): bijective base 26. Empty for 0.
pub open spec fn col_letters(c: nat) -> Seq<char>
    decreases c,
{
    if c == 0 {
        Seq::empty()
    } else {
        col_letters(((c - 1) / 26) as nat) + seq![col_letter(((c - 1) % 26) as nat)]
    }
}

fn letter_char(d: u32) -> (c: char)
    requires
        d < 26,
    ensures
        c == col_letter(d as nat),
{
    let b: u8 = 65u8 + (d as u8);
    b as char
}

fn push_col_letters(s: &mut String, c: u32)
    ensures
        final(s)@ == old(s)@ + col_letters(c as nat),
    decreases c,
{
    if c > 0 {
        push_col_letters(s, (c - 1) / 26);
        let ch = letter_char((c - 1) % 26);
        push_char(s, ch);
        proof {
            assert(final(s)@ =~= old(s)@ + col_letters(c as nat));
        }
    }
}

/// Convert 1-based column and row numbers to A1 notation (column 3, row 2
/// gives "C2").
pub fn col_row_to_a1(col: u32, row: u32) -> (r: String)
    ensures
        r@ == col_letters(col as nat) + decimal(row as nat),
{
    let mut s = String::new();
    push_col_letters(&mut s, col);
    push_decimal(&mut s, row as u64);
    proof {
        assert(s@ =~= col_letters(col as nat) + decimal(row as nat));
    }
    s
}

/// The column digit of letter byte `b` in either case (1 for `A`/`a`).
pub open spec fn letter_digit(b: u8) -> int {
    if is_lower(b) {
        b - 97 + 1
    } else {
        b - 65 + 1
    }
}

/// The bijective base-26 value of a run of letters.
pub open spec fn letters_value(s: Seq<u8>) -> int
    decreases s.len(),
{
    if s.len() == 0 {
        0
    } else {
        letters_value(s.drop_last()) * 26 + letter_digit(s.last())
    }
}

/// The decimal value of a run of digit bytes.
pub open spec fn digit_bytes_value(s: Seq<u8>) -> int
    decreases s.len(),
{
    if s.len() == 0 {
        0
    } else {
        digit_bytes_value(s.drop_last()) * 10 + (s.last() - 48)
    }
}

/// `str::parse::<u32>` on bytes: an optional `+`, then one or more digits
/// whose value fits in a `u32`.
pub open spec fn parse_u32_bytes(r: Seq<u8>) -> Option<int> {
    let d = unsigned_digits(r);
    if d.len() == 0 || !all_digits(d) || digit_bytes_value(d) > u32::MAX {
        None
    } else {
        Some(digit_bytes_value(d))
    }
}

/// The digits of an unsigned number: `r` without a leading `+`.
pub open spec fn unsigned_digits(r: Seq<u8>) -> Seq<u8> {
    if r.len() > 0 && r[0] == 43u8 {
        r.drop_first()
    } else {
        r
    }
}

/// Every byte of `d` is an ASCII digit.
pub open spec fn all_digits(d: Seq<u8>) -> bool {
    forall|k: int| 0 <= k < d.len() ==> is_digit(#[trigger] d[k])
}

/// The 0-based `(row, column)` of an A1 reference: letters (either case),
/// then a row number accepted by `parse::<u32>`. `None` when there are no
/// letters, the row is missing, malformed or zero, or the column does not
/// fit.
pub open spec fn spec_a1_to_col_row(s: Seq<u8>) -> Option<(u32, u16)> {
    let e = alpha_end(s, 0);
    let col = letters_value(s.take(e));
    if e == 0 || col > u32::MAX {
        None
    } else {
        match parse_u32_bytes(s.skip(e)) {
            None => None,
            Some(row) => {
                if row == 0 || col - 1 > u16::MAX {
                    None
                } else {
                    Some(((row - 1) as u32, (col - 1) as u16))
                }
            },
        }
    }
}

proof fn lemma_letters_value_monotone(s: Seq<u8>, k: int)
    requires
        0 <= k <= s.len(),
        forall|p: int| 0 <= p < s.len() ==> is_alpha(#[trigger] s[p]),
    ensures
        0 <= letters_value(s.take(k)) <= letters_value(s),
    decreases s.len(),
{
    if s.len() > 0 {
        let k2 = if k < s.len() { k } else { s.len() - 1 };
        lemma_letters_value_monotone(s.drop_last(), k2);
        let v = letters_value(s.drop_last());
        assert(v * 26 + letter_digit(s.last()) >= v) by (nonlinear_arith)
            requires
                v >= 0,
                letter_digit(s.last()) >= 1,
        ;
        if k < s.len() {
            assert(s.drop_last().take(k) =~= s.take(k));
        } else {
            assert(s.take(k) =~= s);
        }
    } else {
        assert(s.take(k) =~= s);
    }
}

proof fn lemma_digit_bytes_value_monotone(s: Seq<u8>, k: int)
    requires
        0 <= k <= s.len(),
        forall|p: int| 0 <= p < s.len() ==> is_digit(#[trigger] s[p]),
    ensures
        0 <= digit_bytes_value(s.take(k)) <= digit_bytes_value(s),
    decreases s.len(),
{
    if s.len() > 0 {
        let k2 = if k < s.len() { k } else { s.len() - 1 };
        lemma_digit_bytes_value_monotone(s.drop_last(), k2);
        let v = digit_bytes_value(s.drop_last());
        assert(v * 10 + (s.last() - 48) >= v) by (nonlinear_arith)
            requires
                v >= 0,
                s.last() - 48 >= 0,
        ;
        if k < s.len() {
            assert(s.drop_last().take(k) =~= s.take(k));
        } else {
            assert(s.take(k) =~= s);
        }
    } else {
        assert(s.take(k) =~= s);
    }
}


/// The bytes of an ASCII character sequence.
pub open spec fn ascii_bytes(c: Seq<char>) -> Seq<u8> {
    c.map_values(|ch: char| ch as u8)
}

proof fn lemma_ascii_bytes_concat(a: Seq<char>, b: Seq<char>)
    ensures
        ascii_bytes(a + b) == ascii_bytes(a) + ascii_bytes(b),
{
    assert(ascii_bytes(a + b) =~= ascii_bytes(a) + ascii_bytes(b));
}

proof fn lemma_col_letters(c: nat)
    ensures
        forall|k: int| 0 <= k < col_letters(c).len() ==> 'A' <= #[trigger] col_letters(c)[k] <= 'Z',
        letters_value(ascii_bytes(col_letters(c))) == c,
        c >= 1 ==> col_letters(c).len() >= 1,
    decreases c,
{
    if c > 0 {
        let q = ((c - 1) / 26) as nat;
        let r = ((c - 1) % 26) as nat;
        lemma_col_letters(q);
        let pre = col_letters(q);
        let last = col_letter(r);
        assert(col_letters(c) == pre + seq![last]);
        lemma_ascii_bytes_concat(pre, seq![last]);
        let bytes = ascii_bytes(col_letters(c));
        assert(bytes.drop_last() =~= ascii_bytes(pre));
        assert(bytes.last() == (65 + r) as u8);
        assert(letter_digit(bytes.last()) == r + 1);
        assert(q * 26 + r == c - 1);
        assert forall|k: int| 0 <= k < col_letters(c).len() implies 'A' <= #[trigger] col_letters(
            c,
        )[k] <= 'Z' by {
            if k < pre.len() {
                assert(col_letters(c)[k] == pre[k]);
            }
        }
    }
}

proof fn lemma_decimal_value(n: nat)
    ensures
        all_digits(ascii_bytes(decimal(n))),
        digit_bytes_value(ascii_bytes(decimal(n))) == n,
        decimal(n).len() >= 1,
        forall|k: int| 0 <= k < decimal(n).len() ==> '0' <= #[trigger] decimal(n)[k] <= '9',
    decreases n,
{
    lemma_decimal_digits(n);
    if n < 10 {
        let b = ascii_bytes(decimal(n));
        assert(b.len() == 1);
        assert(b.drop_last() =~= Seq::<u8>::empty());
        assert(digit_bytes_value(b.drop_last()) == 0);
        assert(b.last() == (48 + n) as u8);
        assert(digit_bytes_value(b) == digit_bytes_value(b.drop_last()) * 10 + (b.last() - 48));
    } else {
        let q = n / 10;
        let r = n % 10;
        lemma_decimal_value(q);
        let pre = decimal(q);
        assert(decimal(n) == pre + seq![digit_char(r)]);
        lemma_ascii_bytes_concat(pre, seq![digit_char(r)]);
        let b = ascii_bytes(decimal(n));
        assert(b.drop_last() =~= ascii_bytes(pre));
        assert(b.last() == (48 + r) as u8);
        assert(q * 10 + r == n);
        assert forall|k: int| 0 <= k < b.len() implies is_digit(#[trigger] b[k]) by {
            if k < b.len() - 1 {
                assert(b[k] == ascii_bytes(pre)[k]);
            }
        }
    }
}

/// Writing a cell address in A1 notation and reading it back gives the same
/// cell, 0-based, for every row and every column of the `u16` range.
pub proof fn law_a1_round_trip(col: u32, row: u32)
    requires
        1 <= col <= 65536,
        1 <= row,
    ensures
        spec_a1_to_col_row(encode_utf8(col_letters(col as nat) + decimal(row as nat))) == Some(
            ((row - 1) as u32, (col - 1) as u16),
        ),
{
    let l = col_letters(col as nat);
    let d = decimal(row as nat);
    let c = l + d;
    lemma_col_letters(col as nat);
    lemma_decimal_value(row as nat);
    assert(is_ascii_chars(c)) by {
        assert forall|i: int| 0 <= i < c.len() implies '\0' <= #[trigger] c[i] <= '\u{7f}' by {
            if i < l.len() {
                assert(c[i] == l[i]);
            } else {
                assert(c[i] == d[i - l.len()]);
            }
        }
    }
    is_ascii_chars_encode_utf8(c);
    let s = encode_utf8(c);
    assert(s =~= ascii_bytes(c));
    lemma_ascii_bytes_concat(l, d);
    let lb = ascii_bytes(l);
    let db = ascii_bytes(d);
    assert forall|k: int| 0 <= k < lb.len() implies is_alpha(#[trigger] s[k]) by {
        assert(s[k] == l[k] as u8);
    }
    assert(!is_alpha(s[lb.len() as int])) by {
        assert(s[lb.len() as int] == db[0]);
    }
    lemma_alpha_end(s, 0, lb.len() as int);
    assert(s.take(lb.len() as int) =~= lb);
    assert(s.skip(lb.len() as int) =~= db);
    assert(db[0] != 43u8);
    assert(unsigned_digits(db) == db);
}

/// Parse the row digits `s[from..]` as `str::parse::<u32>` does.
fn parse_row(s: &[u8], from: usize) -> (r: Option<u32>)
    requires
        from <= s@.len(),
    ensures
        r matches Some(v) ==> parse_u32_bytes(s@.skip(from as int)) == Some(v as int),
        r is None ==> parse_u32_bytes(s@.skip(from as int)) is None,
{
    let ghost rest = s@.skip(from as int);
    let mut i = from;
    if i < s.len() && s[i] == 43u8 {
        i += 1;
    }
    let ghost d = s@.skip(i as int);
    proof {
        assert(d =~= unsigned_digits(rest));
    }
    if i >= s.len() {
        return None;
    }
    let start = i;
    let mut acc: u32 = 0;
    while i < s.len()
        invariant
            from <= start <= i <= s@.len(),
            start < s@.len(),
            d == s@.skip(start as int),
            rest == s@.skip(from as int),
            d == unsigned_digits(rest),
            forall|k: int| start <= k < i ==> is_digit(#[trigger] s@[k]),
            acc == digit_bytes_value(s@.subrange(start as int, i as int)),
        decreases s@.len() - i,
    {
        let b = s[i];
        if !byte_is_digit(b) {
            proof {
                assert(d[i - start] == b);
                assert(!is_digit(d[i - start]));
                assert(parse_u32_bytes(rest) is None);
            }
            return None;
        }
        let dv = (b - 48u8) as u32;
        proof {
            assert(s@.subrange(start as int, i + 1).drop_last() =~= s@.subrange(start as int, i as int));
            assert(s@.subrange(start as int, i + 1).last() == b);
        }
        if acc > (u32::MAX - dv) / 10 {
            proof {
                assert(acc * 10 + dv > u32::MAX) by (nonlinear_arith)
                    requires
                        acc > (u32::MAX - dv) / 10,
                        dv <= 9,
                ;
                if all_digits(d) {
                    lemma_digit_bytes_value_monotone(d, i + 1 - start);
                    assert(d.take(i + 1 - start) =~= s@.subrange(start as int, i + 1));
                }
                assert(parse_u32_bytes(rest) is None);
            }
            return None;
        }
        proof {
            assert(acc * 10 + dv <= u32::MAX) by (nonlinear_arith)
                requires
                    acc <= (u32::MAX - dv) / 10,
                    dv <= 9,
            ;
        }
        acc = acc * 10 + dv;
        i += 1;
    }
    proof {
        assert(s@.subrange(start as int, i as int) =~= d);
        assert forall|k: int| 0 <= k < d.len() implies is_digit(#[trigger] d[k]) by {
            assert(d[k] == s@[start + k]);
        }
    }
    Some(acc)
}

/// Parse an A1-notation cell reference into 0-based `(row, col)`.
///
/// Returns `None` if the reference is malformed (no letters, no digits, row
/// zero, or overflow).
pub fn a1_to_col_row(cell_ref: &str) -> (r: Option<(u32, u16)>)
    ensures
        r == spec_a1_to_col_row(cell_ref.spec_bytes()),
{
    let bytes = cell_ref.as_bytes();
    let ghost s = bytes@;
    let e = alpha_end_from(bytes, 0);
    proof {
        lemma_alpha_end(s, 0, e as int);
    }
    let mut col: u32 = 0;
    let mut i: usize = 0;
    while i < e
        invariant
            i <= e <= s.len(),
            s == bytes@,
            s == cell_ref.spec_bytes(),
            e == alpha_end(s, 0),
            forall|k: int| 0 <= k < e ==> is_alpha(#[trigger] s[k]),
            col == letters_value(s.take(i as int)),
            i > 0 ==> col >= 1,
        decreases e - i,
    {
        let b = bytes[i];
        let d: u32 = if 97u8 <= b && b <= 122u8 {
            (b - 97u8) as u32 + 1
        } else {
            (b - 65u8) as u32 + 1
        };
        proof {
            assert(s.take(i + 1).drop_last() =~= s.take(i as int));
            assert(s.take(i + 1).last() == b);
        }
        proof {
            assert forall|p: int| 0 <= p < s.take(e as int).len() implies is_alpha(
                #[trigger] s.take(e as int)[p],
            ) by {
                assert(s.take(e as int)[p] == s[p]);
            }
        }
        match col.checked_mul(26) {
            None => {
                proof {
                    lemma_letters_value_monotone(s.take(e as int), i + 1);
                    assert(s.take(e as int).take(i + 1) =~= s.take(i + 1));
                }
                return None;
            },
            Some(m) => match m.checked_add(d) {
                None => {
                    proof {
                        lemma_letters_value_monotone(s.take(e as int), i + 1);
                        assert(s.take(e as int).take(i + 1) =~= s.take(i + 1));
                    }
                    return None;
                },
                Some(v) => {
                    col = v;
                },
            },
        }
        i += 1;
    }
    if i == 0 || col == 0 {
        return None;
    }
    let row = match parse_row(bytes, i) {
        None => {
            return None;
        },
        Some(r) => r,
    };
    if row == 0 {
        return None;
    }
    if col - 1 > 65535 {
        return None;
    }
    Some((row - 1, (col - 1) as u16))
}

/// The end of the letter run that continues from `i` (everything before `i`
/// being letters).
fn alpha_end_from(bytes: &[u8], i: usize) -> (e: usize)
    requires
        i <= bytes@.len(),
        forall|k: int| 0 <= k < i ==> is_alpha(#[trigger] bytes@[k]),
    ensures
        i <= e <= bytes@.len(),
        forall|k: int| 0 <= k < e ==> is_alpha(#[trigger] bytes@[k]),
        e == bytes@.len() || !is_alpha(bytes@[e as int]),
{
    let mut e = i;
    while e < bytes.len() && byte_is_alpha(bytes[e])
        invariant
            i <= e <= bytes@.len(),
            forall|k: int| 0 <= k < e ==> is_alpha(#[trigger] bytes@[k]),
        decreases bytes@.len() - e,
    {
        e += 1;
    }
    e
}

} // verus!
