//! Hexadecimal conversions of `HEX2DEC` and `DEC2HEX`: 40-bit two's
//! complement, at most 10 hex digits.
use vstd::prelude::*;
use vstd::string::StringSliceAdditionalSpecFns;

use crate::cell_error::CellError;
use crate::address::ascii_bytes;
use crate::text::push_char;
use vstd::utf8::{encode_utf8, is_ascii_chars, is_ascii_chars_encode_utf8};

verus! {

/// The most hex digits `HEX2DEC` reads (40 bits).
pub const MAX_HEX_LEN: usize = 10;

/// 2^40.
pub const TWO_POW_40: i64 = 1099511627776;

/// Largest value of the 40-bit two's complement range.
pub const MAX_POSITIVE: i64 = 549755813887;

/// Smallest value of the 40-bit two's complement range.
pub const MIN_NEGATIVE: i64 = -549755813888;

/// `b` is an ASCII hex digit, in either case.
pub open spec fn is_hex_byte(b: u8) -> bool {
    (48 <= b <= 57) || (65 <= b <= 70) || (97 <= b <= 102)
}

/// The value of a hex digit byte, either case.
pub open spec fn hex_byte_value(b: u8) -> int {
    if 48 <= b <= 57 {
        b - 48
    } else if 65 <= b <= 70 {
        b - 55
    } else {
        b - 87
    }
}

/// The value of a run of hex digit bytes.
pub open spec fn hex_value(s: Seq<u8>) -> int
    decreases s.len(),
{
    if s.len() == 0 {
        0
    } else {
        hex_value(s.drop_last()) * 16 + hex_byte_value(s.last())
    }
}

/// `HEX2DEC` of a text: 1 to 10 hex digits, read as 40-bit two's complement
/// when there are 10 digits; `#NUM!` otherwise.
pub open spec fn spec_hex2dec(s: Seq<u8>) -> Result<int, CellError> {
    if s.len() == 0 || s.len() > 10 {
        Err(CellError::Num)
    } else if exists|k: int| 0 <= k < s.len() && !is_hex_byte(#[trigger] s[k]) {
        Err(CellError::Num)
    } else if s.len() == 10 && hex_value(s) > MAX_POSITIVE {
        Ok(hex_value(s) - TWO_POW_40)
    } else {
        Ok(hex_value(s))
    }
}

/// 16 to the power `n`.
pub open spec fn pow16(n: nat) -> int
    decreases n,
{
    if n == 0 {
        1
    } else {
        16 * pow16((n - 1) as nat)
    }
}

proof fn lemma_pow16_positive(a: nat)
    ensures
        1 <= pow16(a),
    decreases a,
{
    if a > 0 {
        lemma_pow16_positive((a - 1) as nat);
    }
}

proof fn lemma_pow16_monotone(a: nat, b: nat)
    requires
        a <= b,
    ensures
        1 <= pow16(a) <= pow16(b),
    decreases b,
{
    lemma_pow16_positive(a);
    if a < b {
        lemma_pow16_monotone(a, (b - 1) as nat);
    }
}

/// Text to decimal for `HEX2DEC`.
pub fn hex2dec_text(text: &str) -> (r: Result<i64, CellError>)
    ensures
        match r {
            Ok(v) => spec_hex2dec(text.spec_bytes()) == Ok::<int, CellError>(v as int),
            Err(e) => spec_hex2dec(text.spec_bytes()) == Err::<int, CellError>(e),
        },
{
    let bytes = text.as_bytes();
    let ghost s = bytes@;
    let n = bytes.len();
    if n == 0 || n > MAX_HEX_LEN {
        return Err(CellError::Num);
    }
    let mut value: i64 = 0;
    let mut i: usize = 0;
    while i < n
        invariant
            n == s.len(),
            s == bytes@,
            s == text.spec_bytes(),
            1 <= n <= 10,
            i <= n,
            forall|k: int| 0 <= k < i ==> is_hex_byte(#[trigger] s[k]),
            value == hex_value(s.take(i as int)),
            0 <= value < pow16(i as nat),
        decreases n - i,
    {
        let b = bytes[i];
        let d: i64 = if 48u8 <= b && b <= 57u8 {
            (b - 48u8) as i64
        } else if 65u8 <= b && b <= 70u8 {
            (b - 55u8) as i64
        } else if 97u8 <= b && b <= 102u8 {
            (b - 87u8) as i64
        } else {
            proof {
                assert(!is_hex_byte(s[i as int]));
            }
            return Err(CellError::Num);
        };
        proof {
            assert(s.take(i + 1).drop_last() =~= s.take(i as int));
            assert(s.take(i + 1).last() == b);
            lemma_pow16_monotone(i as nat, 9);
            reveal_with_fuel(pow16, 10);
            assert(pow16(9) == 68719476736);
            let p = pow16(i as nat);
            assert(pow16((i + 1) as nat) == 16 * p);
            assert(0 <= value * 16 + d < p * 16) by (nonlinear_arith)
                requires
                    0 <= value < p,
                    0 <= d < 16,
            ;
        }
        value = value * 16 + d;
        i += 1;
    }
    proof {
        assert(s.take(n as int) =~= s);
    }
    if n == MAX_HEX_LEN && value > MAX_POSITIVE {
        Ok(value - TWO_POW_40)
    } else {
        Ok(value)
    }
}

/// The character of hex digit `d < 16`, upper case.
pub open spec fn hex_digit_char(d: nat) -> char {
    if d < 10 {
        (48 + d) as char
    } else {
        (55 + d) as char
    }
}

/// The upper-case hex representation of `n` ("0" for zero), as `{:X}`
/// formats it.
pub open spec fn hex_digits(n: nat) -> Seq<char>
    decreases n,
{
    if n < 16 {
        seq![hex_digit_char(n)]
    } else {
        hex_digits(n / 16) + seq![hex_digit_char(n % 16)]
    }
}

/// `s` padded on the left with `0` to `width` characters.
pub open spec fn zero_pad(s: Seq<char>, width: nat) -> Seq<char> {
    if s.len() >= width {
        s
    } else {
        Seq::new((width - s.len()) as nat, |i: int| '0') + s
    }
}

/// `DEC2HEX` of an integer with optional `places`: 40-bit two's complement
/// (10 digits) for negatives; `#NUM!` outside the range, for `places` above
/// 10, or when the digits do not fit in `places`.
pub open spec fn spec_dec2hex(n: int, places: Option<usize>) -> Result<Seq<char>, CellError> {
    if n < MIN_NEGATIVE || n > MAX_POSITIVE {
        Err(CellError::Num)
    } else {
        let hex = if n < 0 {
            zero_pad(hex_digits((n + TWO_POW_40) as nat), 10)
        } else {
            hex_digits(n as nat)
        };
        match places {
            None => Ok(hex),
            Some(p) => {
                if p > 10 || hex.len() > p {
                    Err(CellError::Num)
                } else {
                    Ok(zero_pad(hex, p as nat))
                }
            },
        }
    }
}

fn hex_char(d: u64) -> (c: char)
    requires
        d < 16,
    ensures
        c == hex_digit_char(d as nat),
{
    let b: u8 = if d < 10 {
        48u8 + (d as u8)
    } else {
        55u8 + (d as u8)
    };
    b as char
}

fn hex_digit_vec(n: u64) -> (v: Vec<char>)
    ensures
        v@ == hex_digits(n as nat),
    decreases n,
{
    if n < 16 {
        let mut v: Vec<char> = Vec::new();
        v.push(hex_char(n));
        proof {
            assert(v@ =~= hex_digits(n as nat));
        }
        v
    } else {
        let mut v = hex_digit_vec(n / 16);
        v.push(hex_char(n % 16));
        proof {
            assert(v@ =~= hex_digits(n as nat));
        }
        v
    }
}

/// Append `count` zeros, then `digits`.
fn push_padded(digits: &Vec<char>, width: usize) -> (s: String)
    ensures
        s@ == zero_pad(digits@, width as nat),
{
    let mut s = String::new();
    if digits.len() < width {
        let zeros = width - digits.len();
        let mut k: usize = 0;
        while k < zeros
            invariant
                k <= zeros,
                s@ == Seq::new(k as nat, |i: int| '0'),
            decreases zeros - k,
        {
            push_char(&mut s, '0');
            k += 1;
            proof {
                assert(s@ =~= Seq::new(k as nat, |i: int| '0'));
            }
        }
    }
    let ghost pre = s@;
    let mut i: usize = 0;
    while i < digits.len()
        invariant
            i <= digits@.len(),
            s@ == pre + digits@.take(i as int),
        decreases digits@.len() - i,
    {
        push_char(&mut s, digits[i]);
        i += 1;
        proof {
            assert(digits@.take(i as int) =~= digits@.take(i - 1).push(digits@[i - 1]));
        }
    }
    proof {
        assert(digits@.take(i as int) =~= digits@);
        if digits@.len() >= width {
            assert(pre =~= Seq::<char>::empty());
        }
        assert(s@ =~= zero_pad(digits@, width as nat));
    }
    s
}

/// Integer to hex text for `DEC2HEX`.
pub fn dec2hex_value(n: i64, places: Option<usize>) -> (r: Result<String, CellError>)
    ensures
        match r {
            Ok(s) => spec_dec2hex(n as int, places) == Ok::<Seq<char>, CellError>(s@),
            Err(e) => spec_dec2hex(n as int, places) == Err::<Seq<char>, CellError>(e),
        },
{
    if n < MIN_NEGATIVE || n > MAX_POSITIVE {
        return Err(CellError::Num);
    }
    let hex: Vec<char> = if n < 0 {
        let digits = hex_digit_vec((n + TWO_POW_40) as u64);
        let padded = push_padded(&digits, 10);
        crate::text::chars_of(padded.as_str())
    } else {
        hex_digit_vec(n as u64)
    };
    match places {
        None => Ok(crate::text::string_from_chars(hex.as_slice())),
        Some(p) => {
            if p > MAX_HEX_LEN || hex.len() > p {
                Err(CellError::Num)
            } else {
                Ok(push_padded(&hex, p))
            }
        },
    }
}


proof fn lemma_hex_digits(n: nat)
    ensures
        hex_digits(n).len() >= 1,
        forall|k: int|
            0 <= k < hex_digits(n).len() ==> ('0' <= #[trigger] hex_digits(n)[k] <= '9') || ('A'
                <= hex_digits(n)[k] <= 'F'),
        hex_value(ascii_bytes(hex_digits(n))) == n,
    decreases n,
{
    let b = ascii_bytes(hex_digits(n));
    if n < 16 {
        assert(b.len() == 1);
        assert(b.drop_last() =~= Seq::<u8>::empty());
        assert(hex_value(b.drop_last()) == 0);
        assert(hex_value(b) == hex_value(b.drop_last()) * 16 + hex_byte_value(b.last()));
    } else {
        let q = n / 16;
        let r = n % 16;
        lemma_hex_digits(q);
        let pre = hex_digits(q);
        assert(hex_digits(n) == pre + seq![hex_digit_char(r)]);
        assert(b.drop_last() =~= ascii_bytes(pre));
        assert(q * 16 + r == n);
        assert forall|k: int|
            0 <= k < hex_digits(n).len() implies ('0' <= #[trigger] hex_digits(n)[k] <= '9') || (
            'A' <= hex_digits(n)[k] <= 'F') by {
            if k < pre.len() {
                assert(hex_digits(n)[k] == pre[k]);
            }
        }
    }
}

proof fn lemma_hex_digits_len(n: nat, k: nat)
    requires
        k >= 1,
    ensures
        n < pow16(k) ==> hex_digits(n).len() <= k,
        n >= pow16((k - 1) as nat) ==> hex_digits(n).len() >= k,
    decreases n,
{
    lemma_hex_digits(n);
    if n >= 16 {
        if k >= 2 {
            lemma_hex_digits_len(n / 16, (k - 1) as nat);
            assert(pow16(k) == 16 * pow16((k - 1) as nat));
            assert(pow16((k - 1) as nat) == 16 * pow16((k - 2) as nat));
        } else {
            assert(pow16(1) == 16 * pow16(0));
            lemma_hex_digits_len(n / 16, 1);
        }
    } else {
        if k >= 2 {
            lemma_pow16_monotone(1, (k - 1) as nat);
            assert(pow16(1) == 16 * pow16(0));
        }
    }
}

/// `DEC2HEX` then `HEX2DEC` gives the number back, for every number of the
/// 40-bit two's complement range.
pub proof fn law_hex_round_trip(n: int)
    requires
        MIN_NEGATIVE <= n <= MAX_POSITIVE,
    ensures
        spec_dec2hex(n, None) is Ok,
        spec_hex2dec(encode_utf8(spec_dec2hex(n, None)->Ok_0)) == Ok::<int, CellError>(n),
{
    reveal_with_fuel(pow16, 11);
    assert(pow16(9) == 68719476736);
    assert(pow16(10) == 1099511627776);
    let u: nat = if n < 0 { (n + TWO_POW_40) as nat } else { n as nat };
    let h = hex_digits(u);
    lemma_hex_digits(u);
    lemma_hex_digits_len(u, 10);
    if n < 0 {
        assert(zero_pad(h, 10) == h);
    }
    assert(spec_dec2hex(n, None) == Ok::<Seq<char>, CellError>(h));
    assert(is_ascii_chars(h)) by {
        assert forall|i: int| 0 <= i < h.len() implies '\0' <= #[trigger] h[i] <= '\u{7f}' by {}
    }
    is_ascii_chars_encode_utf8(h);
    let s = encode_utf8(h);
    assert(s =~= ascii_bytes(h));
    assert forall|k: int| 0 <= k < s.len() implies is_hex_byte(#[trigger] s[k]) by {
        assert(s[k] == h[k] as u8);
    }
}

} // verus!
