//! Byte and character classes used by the formula scanners.
use vstd::prelude::*;

verus! {

/// `b` is an ASCII decimal digit.
pub open spec fn is_digit(b: u8) -> bool {
    48 <= b && b <= 57
}

/// `b` is an ASCII upper-case letter.
pub open spec fn is_upper(b: u8) -> bool {
    65 <= b && b <= 90
}

/// `b` is an ASCII lower-case letter.
pub open spec fn is_lower(b: u8) -> bool {
    97 <= b && b <= 122
}

/// `b` is an ASCII letter.
pub open spec fn is_alpha(b: u8) -> bool {
    is_upper(b) || is_lower(b)
}

/// Whether `b` is an ASCII decimal digit.
pub fn byte_is_digit(b: u8) -> (r: bool)
    ensures
        r == is_digit(b),
{
    48 <= b && b <= 57
}

/// Whether `b` is an ASCII letter.
pub fn byte_is_alpha(b: u8) -> (r: bool)
    ensures
        r == is_alpha(b),
{
    (65 <= b && b <= 90) || (97 <= b && b <= 122)
}

/// First index at or after `i` whose byte is not a digit (or the length).
pub open spec fn digits_end(s: Seq<u8>, i: int) -> int
    decreases s.len() - i,
{
    if 0 <= i < s.len() && is_digit(s[i]) {
        digits_end(s, i + 1)
    } else {
        i
    }
}

/// First index at or after `i` whose byte is not a letter (or the length).
pub open spec fn alpha_end(s: Seq<u8>, i: int) -> int
    decreases s.len() - i,
{
    if 0 <= i < s.len() && is_alpha(s[i]) {
        alpha_end(s, i + 1)
    } else {
        i
    }
}

/// A run end is characterised by: every byte in `[i, j)` is in the class and
/// `j` is the length or holds a byte outside it.
pub proof fn lemma_digits_end(s: Seq<u8>, i: int, j: int)
    requires
        0 <= i <= j <= s.len(),
        forall|k: int| i <= k < j ==> is_digit(#[trigger] s[k]),
        j == s.len() || !is_digit(s[j]),
    ensures
        digits_end(s, i) == j,
    decreases j - i,
{
    if i < j {
        lemma_digits_end(s, i + 1, j);
    }
}

/// `alpha_end` is the end of the run of letters from `i`.
pub proof fn lemma_alpha_end(s: Seq<u8>, i: int, j: int)
    requires
        0 <= i <= j <= s.len(),
        forall|k: int| i <= k < j ==> is_alpha(#[trigger] s[k]),
        j == s.len() || !is_alpha(s[j]),
    ensures
        alpha_end(s, i) == j,
    decreases j - i,
{
    if i < j {
        lemma_alpha_end(s, i + 1, j);
    }
}

/// Properties of a digit run that start inside the sequence.
pub proof fn lemma_digits_end_bounds(s: Seq<u8>, i: int)
    requires
        0 <= i <= s.len(),
    ensures
        i <= digits_end(s, i) <= s.len(),
        forall|k: int| i <= k < digits_end(s, i) ==> is_digit(#[trigger] s[k]),
        digits_end(s, i) == s.len() || !is_digit(s[digits_end(s, i)]),
    decreases s.len() - i,
{
    if i < s.len() && is_digit(s[i]) {
        lemma_digits_end_bounds(s, i + 1);
    }
}

/// `alpha_end` lies between `i` and the length.
pub proof fn lemma_alpha_end_bounds(s: Seq<u8>, i: int)
    requires
        0 <= i <= s.len(),
    ensures
        i <= alpha_end(s, i) <= s.len(),
        forall|k: int| i <= k < alpha_end(s, i) ==> is_alpha(#[trigger] s[k]),
        alpha_end(s, i) == s.len() || !is_alpha(s[alpha_end(s, i)]),
    decreases s.len() - i,
{
    if i < s.len() && is_alpha(s[i]) {
        lemma_alpha_end_bounds(s, i + 1);
    }
}

/// Scan forward over digits from `i`.
pub fn scan_digits(s: &[u8], i: usize) -> (j: usize)
    requires
        i <= s@.len(),
    ensures
        j as int == digits_end(s@, i as int),
{
    let mut j = i;
    while j < s.len() && byte_is_digit(s[j])
        invariant
            i <= j <= s@.len(),
            forall|k: int| i <= k < j ==> is_digit(#[trigger] s@[k]),
        decreases s@.len() - j,
    {
        j += 1;
    }
    proof {
        lemma_digits_end(s@, i as int, j as int);
    }
    j
}

/// Scan forward over letters from `i`.
pub fn scan_alpha(s: &[u8], i: usize) -> (j: usize)
    requires
        i <= s@.len(),
    ensures
        j as int == alpha_end(s@, i as int),
{
    let mut j = i;
    while j < s.len() && byte_is_alpha(s[j])
        invariant
            i <= j <= s@.len(),
            forall|k: int| i <= k < j ==> is_alpha(#[trigger] s@[k]),
        decreases s@.len() - j,
    {
        j += 1;
    }
    proof {
        lemma_alpha_end(s@, i as int, j as int);
    }
    j
}

} // verus!
