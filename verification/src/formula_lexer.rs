//! Lightweight formula lexer for streaming-equivalence comparison.
//!
//! [`formulas_streaming_eq`] checks whether two formula texts differ only in
//! the row numbers of same-sheet cell references, without parsing them.
use vstd::prelude::*;
use vstd::string::StringSliceAdditionalSpecFns;

use crate::ascii::{alpha_end, byte_is_alpha, byte_is_digit, digits_end, is_alpha, is_digit, lemma_alpha_end_bounds, lemma_digits_end_bounds, scan_alpha, scan_digits};

verus! {

/// One token of the lightweight formula lexer.
#[derive(Debug, PartialEq, Eq, Structural)]
pub enum FToken {
    /// Same-sheet cell reference row digits: allowed to differ.
    CellRow,
    /// A byte that must match exactly (operators, identifiers, numbers, ...).
    Exact(u8),
    /// A byte inside a string literal: must match exactly.
    StringByte(u8),
    /// End of input.
    End,
}

/// The abstract state of the lexer between two tokens.
pub struct LexState {
    pub pos: int,
    pub in_string: bool,
    /// The next digits are the row of a same-sheet column reference.
    pub after_column: bool,
    /// Bytes of an identifier still to be emitted without column detection.
    pub ident_remaining: int,
}

/// The lexer state before the first token.
pub open spec fn initial_state() -> LexState {
    LexState { pos: 0, in_string: false, after_column: false, ident_remaining: 0 }
}

/// Continue at `pos` with the flags cleared except `in_string`.
pub open spec fn moved(st: LexState, pos: int, after_column: bool, ident_remaining: int) -> LexState {
    LexState { pos, in_string: st.in_string, after_column, ident_remaining }
}

/// Classify the letter run that starts at `alpha_start` (after an optional `$`
/// at `start`): sheet qualifier, function name, identifier, or a same-sheet
/// column whose row digits follow.
pub open spec fn lex_alpha_run(s: Seq<u8>, st: LexState, start: int, alpha_start: int) -> (FToken, LexState) {
    let e = alpha_end(s, alpha_start);
    let alpha_len = e - alpha_start;
    let first = FToken::Exact(s[start]);
    // The whole run (with its `$`) is emitted byte by byte as an identifier.
    let ident = (first, moved(st, start + 1, false, e - start - 1));
    // Only the first byte is emitted; the rest is lexed again.
    let single = (first, moved(st, start + 1, false, st.ident_remaining));
    let column = (first, moved(st, start + 1, true, st.ident_remaining));
    if e < s.len() && (s[e] == 33u8 || s[e] == 39u8) {
        // followed by `!` or `'`: a sheet qualifier
        ident
    } else if e < s.len() && s[e] == 40u8 {
        // followed by `(`: a function name
        ident
    } else if 1 <= alpha_len <= 3 {
        let peek = if e < s.len() && s[e] == 36u8 { e + 1 } else { e };
        if peek < s.len() && is_digit(s[peek]) {
            let de = digits_end(s, peek);
            let back = if start > 0 && s[start - 1] == 36u8 { start - 1 } else { start };
            if de < s.len() && s[de] == 40u8 {
                // like LOG10(
                single
            } else if de < s.len() && (s[de] == 33u8 || s[de] == 39u8) {
                // like Sheet2!
                single
            } else if start > 0 && is_digit(s[start - 1]) {
                // scientific notation like 1E2
                single
            } else if back > 0 && s[back - 1] == 33u8 {
                // cross-sheet reference: its row must match
                ident
            } else if back > 0 && s[back - 1] == 58u8 {
                // range end: its row must match
                ident
            } else {
                column
            }
        } else {
            ident
        }
    } else {
        ident
    }
}

/// Lex a letter run, possibly preceded by `$`.
pub open spec fn lex_alpha(s: Seq<u8>, st: LexState) -> (FToken, LexState) {
    let start = st.pos;
    if s[start] == 36u8 {
        let p = start + 1;
        if p >= s.len() || !is_alpha(s[p]) {
            if st.after_column && p < s.len() && is_digit(s[p]) {
                // `$` in front of the row of a column reference
                (FToken::Exact(36u8), moved(st, p, true, st.ident_remaining))
            } else {
                (FToken::Exact(36u8), moved(st, p, false, st.ident_remaining))
            }
        } else {
            lex_alpha_run(s, st, start, p)
        }
    } else {
        lex_alpha_run(s, st, start, start)
    }
}

/// One step of the lexer: the next token and the state after it.
pub open spec fn lex_step(s: Seq<u8>, st: LexState) -> (FToken, LexState) {
    let pos = st.pos;
    if pos >= s.len() || pos < 0 {
        (FToken::End, st)
    } else if st.ident_remaining > 0 {
        (FToken::Exact(s[pos]), moved(st, pos + 1, false, st.ident_remaining - 1))
    } else {
        let b = s[pos];
        if b == 34u8 {
            (
                FToken::Exact(34u8),
                LexState {
                    pos: pos + 1,
                    in_string: !st.in_string,
                    after_column: false,
                    ident_remaining: st.ident_remaining,
                },
            )
        } else if st.in_string {
            (FToken::StringByte(b), moved(st, pos + 1, st.after_column, st.ident_remaining))
        } else if is_alpha(b) || b == 36u8 {
            lex_alpha(s, st)
        } else if is_digit(b) && st.after_column {
            let end = digits_end(s, pos);
            if end < s.len() && s[end] == 58u8 {
                // range start bound: digits must match exactly
                (FToken::Exact(b), moved(st, pos + 1, false, st.ident_remaining))
            } else {
                (FToken::CellRow, moved(st, end, false, st.ident_remaining))
            }
        } else {
            (FToken::Exact(b), moved(st, pos + 1, false, st.ident_remaining))
        }
    }
}

/// A state that the lexer can be in while reading `s`.
pub open spec fn wf_state(s: Seq<u8>, st: LexState) -> bool {
    0 <= st.pos <= s.len() && st.ident_remaining >= 0
}

/// Every token other than `End` consumes input: exactly one byte, equal to the
/// token's byte, or a non-empty run of digits for `CellRow`.
pub proof fn lemma_step(s: Seq<u8>, st: LexState)
    requires
        wf_state(s, st),
    ensures
        wf_state(s, lex_step(s, st).1),
        (lex_step(s, st).0 == FToken::End) <==> st.pos == s.len(),
        lex_step(s, st).0 == FToken::End ==> lex_step(s, st).1 == st,
        lex_step(s, st).0 != FToken::End ==> lex_step(s, st).1.pos > st.pos,
        lex_step(s, st).0 == FToken::CellRow ==> forall|k: int|
            st.pos <= k < lex_step(s, st).1.pos ==> is_digit(#[trigger] s[k]),
        forall|x: u8|
            lex_step(s, st).0 == FToken::Exact(x) || lex_step(s, st).0 == FToken::StringByte(x)
                ==> lex_step(s, st).1.pos == st.pos + 1 && s[st.pos] == x,
{
    if st.pos < s.len() && st.ident_remaining == 0 {
        let b = s[st.pos];
        if !(b == 34u8) && !st.in_string && !(is_alpha(b) || b == 36u8) && is_digit(b)
            && st.after_column {
            lemma_digits_end_bounds(s, st.pos);
        }
        if !(b == 34u8) && !st.in_string && (is_alpha(b) || b == 36u8) {
            let start = st.pos;
            if s[start] == 36u8 {
                if start + 1 < s.len() && is_alpha(s[start + 1]) {
                    lemma_alpha_end_bounds(s, start + 1);
                }
            } else {
                lemma_alpha_end_bounds(s, start);
            }
        }
    }
}

/// The remaining comparison of `a` from state `sa` with `b` from state `sb`:
/// tokens in lockstep, `CellRow` against `CellRow` always agreeing.
pub open spec fn eq_from(a: Seq<u8>, b: Seq<u8>, sa: LexState, sb: LexState) -> bool
    decreases (a.len() - sa.pos) + (b.len() - sb.pos),
    when wf_state(a, sa) && wf_state(b, sb)
{
    let (ta, na) = lex_step(a, sa);
    let (tb, nb) = lex_step(b, sb);
    if ta == FToken::End && tb == FToken::End {
        true
    } else if ta == FToken::CellRow && tb == FToken::CellRow {
        proof {
            lemma_step(a, sa);
            lemma_step(b, sb);
        }
        eq_from(a, b, na, nb)
    } else if ta != tb {
        false
    } else {
        proof {
            lemma_step(a, sa);
            lemma_step(b, sb);
        }
        eq_from(a, b, na, nb)
    }
}

/// Two formula byte strings are streaming-equivalent when their token
/// streams agree, row digits of same-sheet references aside.
pub open spec fn spec_streaming_eq(a: Seq<u8>, b: Seq<u8>) -> bool {
    eq_from(a, b, initial_state(), initial_state())
}


/// `s` without its ASCII digits.
pub open spec fn strip_digits(s: Seq<u8>) -> Seq<u8>
    decreases s.len(),
{
    if s.len() == 0 {
        Seq::<u8>::empty()
    } else if is_digit(s[0]) {
        strip_digits(s.drop_first())
    } else {
        seq![s[0]] + strip_digits(s.drop_first())
    }
}

proof fn lemma_strip_one(s: Seq<u8>, i: int)
    requires
        0 <= i < s.len(),
    ensures
        strip_digits(s.subrange(i, s.len() as int)) == if is_digit(s[i]) {
            strip_digits(s.subrange(i + 1, s.len() as int))
        } else {
            seq![s[i]] + strip_digits(s.subrange(i + 1, s.len() as int))
        },
{
    assert(s.subrange(i, s.len() as int).drop_first() =~= s.subrange(i + 1, s.len() as int));
}

proof fn lemma_strip_digit_run(s: Seq<u8>, i: int, j: int)
    requires
        0 <= i <= j <= s.len(),
        forall|k: int| i <= k < j ==> is_digit(#[trigger] s[k]),
    ensures
        strip_digits(s.subrange(i, s.len() as int)) == strip_digits(s.subrange(j, s.len() as int)),
    decreases j - i,
{
    if i < j {
        lemma_strip_one(s, i);
        lemma_strip_digit_run(s, i + 1, j);
    }
}

proof fn lemma_eq_from_reflexive(a: Seq<u8>, st: LexState)
    requires
        wf_state(a, st),
    ensures
        eq_from(a, a, st, st),
    decreases a.len() - st.pos,
{
    lemma_step(a, st);
    let (t, n) = lex_step(a, st);
    if t != FToken::End {
        lemma_eq_from_reflexive(a, n);
    }
}

proof fn lemma_eq_from_symmetric(a: Seq<u8>, b: Seq<u8>, sa: LexState, sb: LexState)
    requires
        wf_state(a, sa),
        wf_state(b, sb),
    ensures
        eq_from(a, b, sa, sb) == eq_from(b, a, sb, sa),
    decreases (a.len() - sa.pos) + (b.len() - sb.pos),
{
    lemma_step(a, sa);
    lemma_step(b, sb);
    let (ta, na) = lex_step(a, sa);
    let (tb, nb) = lex_step(b, sb);
    if !(ta == FToken::End && tb == FToken::End) && (ta == tb || (ta == FToken::CellRow
        && tb == FToken::CellRow)) {
        lemma_eq_from_symmetric(a, b, na, nb);
    }
}

proof fn lemma_eq_from_digits_only(a: Seq<u8>, b: Seq<u8>, sa: LexState, sb: LexState)
    requires
        wf_state(a, sa),
        wf_state(b, sb),
        eq_from(a, b, sa, sb),
    ensures
        strip_digits(a.subrange(sa.pos, a.len() as int)) == strip_digits(
            b.subrange(sb.pos, b.len() as int),
        ),
    decreases (a.len() - sa.pos) + (b.len() - sb.pos),
{
    lemma_step(a, sa);
    lemma_step(b, sb);
    let (ta, na) = lex_step(a, sa);
    let (tb, nb) = lex_step(b, sb);
    if ta == FToken::End && tb == FToken::End {
        assert(a.subrange(sa.pos, a.len() as int) =~= Seq::<u8>::empty());
        assert(b.subrange(sb.pos, b.len() as int) =~= Seq::<u8>::empty());
    } else {
        lemma_eq_from_digits_only(a, b, na, nb);
        if ta == FToken::CellRow {
            lemma_strip_digit_run(a, sa.pos, na.pos);
            lemma_strip_digit_run(b, sb.pos, nb.pos);
        } else {
            lemma_strip_one(a, sa.pos);
            lemma_strip_one(b, sb.pos);
        }
    }
}

/// Every formula is streaming-equivalent to itself.
pub proof fn law_streaming_eq_reflexive(a: Seq<u8>)
    ensures
        spec_streaming_eq(a, a),
{
    lemma_eq_from_reflexive(a, initial_state());
}

/// Streaming equivalence does not depend on the order of its arguments.
pub proof fn law_streaming_eq_symmetric(a: Seq<u8>, b: Seq<u8>)
    ensures
        spec_streaming_eq(a, b) == spec_streaming_eq(b, a),
{
    lemma_eq_from_symmetric(a, b, initial_state(), initial_state());
}

/// Streaming-equivalent formulas differ in digits only: with every ASCII
/// digit removed, the two byte strings are equal.
pub proof fn law_streaming_eq_differs_in_digits_only(a: Seq<u8>, b: Seq<u8>)
    requires
        spec_streaming_eq(a, b),
    ensures
        strip_digits(a) == strip_digits(b),
{
    lemma_eq_from_digits_only(a, b, initial_state(), initial_state());
    assert(a.subrange(0, a.len() as int) =~= a);
    assert(b.subrange(0, b.len() as int) =~= b);
}

/// The bytes of `s` read from state `st`, with every run of row digits of a
/// same-sheet cell reference (a `CellRow` token) collapsed to one `None`;
/// every other byte is kept as `Some`.
pub open spec fn mask_rows_from(s: Seq<u8>, st: LexState) -> Seq<Option<u8>>
    decreases s.len() - st.pos,
    when wf_state(s, st)
{
    let (t, n) = lex_step(s, st);
    if t == FToken::End {
        Seq::empty()
    } else {
        proof {
            lemma_step(s, st);
        }
        if t == FToken::CellRow {
            seq![None] + mask_rows_from(s, n)
        } else {
            seq![Some(s[st.pos])] + mask_rows_from(s, n)
        }
    }
}

/// The bytes of a formula with the row digits of its same-sheet cell
/// references masked.
pub open spec fn mask_rows(s: Seq<u8>) -> Seq<Option<u8>> {
    mask_rows_from(s, initial_state())
}

proof fn lemma_eq_from_masks(a: Seq<u8>, b: Seq<u8>, sa: LexState, sb: LexState)
    requires
        wf_state(a, sa),
        wf_state(b, sb),
        eq_from(a, b, sa, sb),
    ensures
        mask_rows_from(a, sa) == mask_rows_from(b, sb),
    decreases (a.len() - sa.pos) + (b.len() - sb.pos),
{
    lemma_step(a, sa);
    lemma_step(b, sb);
    let (ta, na) = lex_step(a, sa);
    let (tb, nb) = lex_step(b, sb);
    if !(ta == FToken::End && tb == FToken::End) {
        lemma_eq_from_masks(a, b, na, nb);
        if ta != FToken::CellRow {
            match ta {
                FToken::Exact(x) => {
                    assert(a[sa.pos] == x && b[sb.pos] == x);
                },
                FToken::StringByte(x) => {
                    assert(a[sa.pos] == x && b[sb.pos] == x);
                },
                _ => {},
            }
        }
    }
}

/// Streaming-equivalent formulas differ only in the row numbers of
/// same-sheet cell references: with those row digits masked, the two byte
/// strings are equal, byte for byte and reference for reference.
pub proof fn law_streaming_eq_differs_in_rows_only(a: Seq<u8>, b: Seq<u8>)
    requires
        spec_streaming_eq(a, b),
    ensures
        mask_rows(a) == mask_rows(b),
{
    lemma_eq_from_masks(a, b, initial_state(), initial_state());
}

/// The lexer over a byte string.
pub struct FormulaLexer<'a> {
    s: &'a [u8],
    pos: usize,
    in_string: bool,
    after_column: bool,
    ident_remaining: usize,
}

impl<'a> FormulaLexer<'a> {
    /// The input bytes.
    pub closed spec fn input(&self) -> Seq<u8> {
        self.s@
    }

    /// The abstract state.
    pub closed spec fn state(&self) -> LexState {
        LexState {
            pos: self.pos as int,
            in_string: self.in_string,
            after_column: self.after_column,
            ident_remaining: self.ident_remaining as int,
        }
    }

    /// The lexer state lies within its input.
    pub closed spec fn wf(&self) -> bool {
        self.pos <= self.s@.len()
    }

    /// A lexer at the start of `s`.
    pub fn new(s: &'a [u8]) -> (r: Self)
        ensures
            r.wf(),
            wf_state(r.input(), r.state()),
            r.input() == s@,
            r.state() == initial_state(),
    {
        FormulaLexer { s, pos: 0, in_string: false, after_column: false, ident_remaining: 0 }
    }

    /// The next token.
    pub fn next_token(&mut self) -> (t: FToken)
        requires
            old(self).wf(),
        ensures
            final(self).wf(),
            wf_state(final(self).input(), final(self).state()),
            final(self).input() == old(self).input(),
            (t, final(self).state()) == lex_step(old(self).input(), old(self).state()),
    {
        proof {
            lemma_step(self.s@, self.state());
        }
        if self.pos >= self.s.len() {
            return FToken::End;
        }
        if self.ident_remaining > 0 {
            self.ident_remaining -= 1;
            let b = self.s[self.pos];
            self.pos += 1;
            self.after_column = false;
            return FToken::Exact(b);
        }
        let b = self.s[self.pos];
        if b == 34u8 {
            self.in_string = !self.in_string;
            self.pos += 1;
            self.after_column = false;
            return FToken::Exact(34u8);
        }
        if self.in_string {
            self.pos += 1;
            return FToken::StringByte(b);
        }
        if byte_is_alpha(b) || b == 36u8 {
            return self.lex_alpha_or_dollar();
        }
        if byte_is_digit(b) && self.after_column {
            self.after_column = false;
            let end = scan_digits(self.s, self.pos);
            if end < self.s.len() && self.s[end] == 58u8 {
                self.pos += 1;
                return FToken::Exact(b);
            }
            self.pos = end;
            return FToken::CellRow;
        }
        self.pos += 1;
        self.after_column = false;
        FToken::Exact(b)
    }

    /// Lex a letter run, possibly preceded by `$`: a same-sheet column (sets
    /// `after_column`), or an identifier, sheet name, function name.
    fn lex_alpha_or_dollar(&mut self) -> (t: FToken)
        requires
            old(self).wf(),
            old(self).pos < old(self).s@.len(),
            old(self).ident_remaining == 0,
            is_alpha(old(self).s@[old(self).pos as int]) || old(self).s@[old(self).pos as int] == 36u8,
        ensures
            final(self).wf(),
            final(self).s == old(self).s,
            (t, final(self).state()) == lex_alpha(old(self).input(), old(self).state()),
    {
        let start = self.pos;
        let len = self.s.len();
        let mut alpha_start = start;
        if self.s[start] == 36u8 {
            let p = start + 1;
            if p >= len || !byte_is_alpha(self.s[p]) {
                self.pos = p;
                if self.after_column && p < len && byte_is_digit(self.s[p]) {
                    return FToken::Exact(36u8);
                }
                self.after_column = false;
                return FToken::Exact(36u8);
            }
            alpha_start = p;
        }
        let e = scan_alpha(self.s, alpha_start);
        proof {
            lemma_alpha_end_bounds(self.s@, alpha_start as int);
        }
        let alpha_len = e - alpha_start;
        let first = self.s[start];
        if e < len && (self.s[e] == 33u8 || self.s[e] == 39u8 || self.s[e] == 40u8) {
            self.after_column = false;
            self.pos = start + 1;
            self.ident_remaining = e - start - 1;
            return FToken::Exact(first);
        }
        if 1 <= alpha_len && alpha_len <= 3 {
            let peek = if e < len && self.s[e] == 36u8 {
                e + 1
            } else {
                e
            };
            if peek < len && byte_is_digit(self.s[peek]) {
                let de = scan_digits(self.s, peek);
                if de < len && (self.s[de] == 40u8 || self.s[de] == 33u8 || self.s[de] == 39u8) {
                    self.after_column = false;
                    self.pos = start + 1;
                    return FToken::Exact(first);
                }
                if start > 0 && byte_is_digit(self.s[start - 1]) {
                    self.after_column = false;
                    self.pos = start + 1;
                    return FToken::Exact(first);
                }
                let back = if start > 0 && self.s[start - 1] == 36u8 {
                    start - 1
                } else {
                    start
                };
                if back > 0 && (self.s[back - 1] == 33u8 || self.s[back - 1] == 58u8) {
                    self.after_column = false;
                    self.pos = start + 1;
                    self.ident_remaining = e - start - 1;
                    return FToken::Exact(first);
                }
                self.after_column = true;
                self.pos = start + 1;
                return FToken::Exact(first);
            }
        }
        self.after_column = false;
        self.pos = start + 1;
        self.ident_remaining = e - start - 1;
        FToken::Exact(first)
    }
}

/// Check whether two formula texts are streaming-equivalent without parsing.
///
/// Both formulas are tokenised in lockstep. Only the row digits of same-sheet
/// cell references may differ; every other byte must match exactly. The
/// lexer tells `A2` (column and row) from `LOG10` (identifier), `Sheet2!`
/// (sheet qualifier), `RATE2` (named range) and `1E2` (scientific notation).
pub fn formulas_streaming_eq(a: &str, b: &str) -> (r: bool)
    ensures
        r == spec_streaming_eq(a.spec_bytes(), b.spec_bytes()),
{
    let mut la = FormulaLexer::new(a.as_bytes());
    let mut lb = FormulaLexer::new(b.as_bytes());
    loop
        invariant
            la.wf(),
            lb.wf(),
            la.input() == a.spec_bytes(),
            lb.input() == b.spec_bytes(),
            eq_from(la.input(), lb.input(), la.state(), lb.state()) == spec_streaming_eq(
                a.spec_bytes(),
                b.spec_bytes(),
            ),
        decreases (la.input().len() - la.state().pos) + (lb.input().len() - lb.state().pos),
    {
        proof {
            lemma_step(la.input(), la.state());
            lemma_step(lb.input(), lb.state());
        }
        let ta = la.next_token();
        let tb = lb.next_token();
        if ta == FToken::End && tb == FToken::End {
            return true;
        }
        if !(ta == FToken::CellRow && tb == FToken::CellRow) && ta != tb {
            return false;
        }
    }
}

} // verus!
