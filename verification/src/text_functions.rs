//! Worksheet text functions on characters: `LEFT`, `RIGHT`, `MID`, `LEN`.
use vstd::prelude::*;

use crate::cell_error::CellError;
use crate::text::{chars_of, push_chars};

verus! {

/// The smaller of `n` and the length of `s`.
pub open spec fn clamp_len(s: Seq<char>, n: int) -> int {
    if n < s.len() {
        n
    } else {
        s.len() as int
    }
}

/// `LEFT(s, n)`: the first `n` characters, all of them when there are fewer.
pub open spec fn left_seq(s: Seq<char>, n: nat) -> Seq<char> {
    s.take(clamp_len(s, n as int))
}

/// `RIGHT(s, n)`: the last `n` characters, all of them when there are fewer.
pub open spec fn right_seq(s: Seq<char>, n: nat) -> Seq<char> {
    s.skip(s.len() - clamp_len(s, n as int))
}

/// `MID(s, start, n)` for a 1-based `start >= 1`: up to `n` characters from
/// position `start`; empty when `start` is past the end.
pub open spec fn mid_seq(s: Seq<char>, start: nat, n: nat) -> Seq<char> {
    let rest = if start - 1 < s.len() {
        s.skip(start - 1)
    } else {
        Seq::<char>::empty()
    };
    left_seq(rest, n)
}

/// `LEFT(text, n)`.
pub fn left_text(text: &str, n: usize) -> (r: String)
    ensures
        r@ == left_seq(text@, n as nat),
{
    let v = chars_of(text);
    let k = if n < v.len() {
        n
    } else {
        v.len()
    };
    let mut r = String::new();
    push_chars(&mut r, v.as_slice(), 0, k);
    proof {
        assert(v@.subrange(0, k as int) =~= left_seq(text@, n as nat));
    }
    r
}

/// `RIGHT(text, n)`.
pub fn right_text(text: &str, n: usize) -> (r: String)
    ensures
        r@ == right_seq(text@, n as nat),
{
    let v = chars_of(text);
    let k = if n < v.len() {
        n
    } else {
        v.len()
    };
    let mut r = String::new();
    push_chars(&mut r, v.as_slice(), v.len() - k, v.len());
    proof {
        assert(v@.subrange(v@.len() - k, v@.len() as int) =~= right_seq(text@, n as nat));
    }
    r
}

/// `MID(text, start, n)`: `#VALUE!` for a `start` of 0.
pub fn mid_text(text: &str, start: usize, n: usize) -> (r: Result<String, CellError>)
    ensures
        start == 0 ==> r == Err::<String, CellError>(CellError::Value),
        start > 0 ==> r is Ok && r->Ok_0@ == mid_seq(text@, start as nat, n as nat),
{
    if start == 0 {
        return Err(CellError::Value);
    }
    let v = chars_of(text);
    let from = if start - 1 < v.len() {
        start - 1
    } else {
        v.len()
    };
    let avail = v.len() - from;
    let k = if n < avail {
        n
    } else {
        avail
    };
    let mut r = String::new();
    push_chars(&mut r, v.as_slice(), from, from + k);
    proof {
        let rest = if start - 1 < v@.len() {
            v@.skip(start - 1)
        } else {
            Seq::<char>::empty()
        };
        assert(rest =~= v@.subrange(from as int, v@.len() as int));
        assert(v@.subrange(from as int, from + k) =~= left_seq(rest, n as nat));
    }
    Ok(r)
}

/// `LEN(text)`: the number of characters.
pub fn char_count(text: &str) -> (r: usize)
    ensures
        r == text@.len(),
{
    let v = chars_of(text);
    v.len()
}

/// `MID` from position 1 is `LEFT`.
pub proof fn law_mid_from_one_is_left(s: Seq<char>, n: nat)
    ensures
        mid_seq(s, 1, n) == left_seq(s, n),
{
    if s.len() > 0 {
        assert(s.skip(0) =~= s);
    } else {
        assert(s =~= Seq::<char>::empty());
    }
}

/// `LEFT(s, k)` followed by `MID(s, k + 1, LEN(s))` gives `s` back.
pub proof fn law_left_then_mid_rebuilds(s: Seq<char>, k: nat)
    ensures
        left_seq(s, k) + mid_seq(s, k + 1, s.len()) == s,
{
    let rest = if k < s.len() {
        s.skip(k as int)
    } else {
        Seq::<char>::empty()
    };
    assert(left_seq(rest, s.len()) =~= rest);
    assert(left_seq(s, k) + rest =~= s);
}

/// `LEFT(s, k)` followed by `RIGHT(s, LEN(s) - k)` gives `s` back.
pub proof fn law_left_then_right_rebuilds(s: Seq<char>, k: nat)
    requires
        k <= s.len(),
    ensures
        left_seq(s, k) + right_seq(s, (s.len() - k) as nat) == s,
{
    assert(left_seq(s, k) + right_seq(s, (s.len() - k) as nat) =~= s);
}

} // verus!
