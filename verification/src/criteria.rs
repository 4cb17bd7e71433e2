//! Wildcard patterns of conditional-aggregate criteria (`SUMIF`, `COUNTIF`).
use vstd::prelude::*;

use crate::text::{chars_of, law_fold_ignores_case, lemma_trim_idempotent, lower_chars, lower_seq, str_equals, string_from_chars, to_lower_char, trim_chars, trim_seq, upper_seq};

verus! {

/// Whether pattern `p` matches all of text `t`: `*` matches any run of
/// characters (possibly empty), `?` exactly one character, any other
/// character itself.
pub open spec fn wildcard_match(p: Seq<char>, t: Seq<char>) -> bool
    decreases p.len() + t.len(),
{
    if p.len() == 0 {
        t.len() == 0
    } else {
        let c = p.last();
        if c == '*' {
            wildcard_match(p.drop_last(), t) || (t.len() > 0 && wildcard_match(p, t.drop_last()))
        } else if t.len() == 0 {
            false
        } else if c == '?' {
            wildcard_match(p.drop_last(), t.drop_last())
        } else {
            c == t.last() && wildcard_match(p.drop_last(), t.drop_last())
        }
    }
}


/// A pattern without `*` and `?`.
pub open spec fn is_literal_pattern(p: Seq<char>) -> bool {
    forall|k: int| 0 <= k < p.len() ==> #[trigger] p[k] != '*' && p[k] != '?'
}

/// A pattern without wildcards matches exactly the text equal to it.
pub proof fn law_literal_pattern_matches_only_itself(p: Seq<char>, t: Seq<char>)
    requires
        is_literal_pattern(p),
    ensures
        wildcard_match(p, t) <==> p == t,
    decreases p.len(),
{
    if p.len() > 0 {
        assert(is_literal_pattern(p.drop_last()));
        if t.len() > 0 {
            law_literal_pattern_matches_only_itself(p.drop_last(), t.drop_last());
            if p == t {
                assert(p.drop_last() =~= t.drop_last());
            }
            if p.drop_last() == t.drop_last() && p.last() == t.last() {
                assert forall|k: int| 0 <= k < p.len() implies p[k] == t[k] by {
                    if k < p.len() - 1 {
                        assert(p[k] == p.drop_last()[k]);
                        assert(t[k] == t.drop_last()[k]);
                    }
                }
                assert(p =~= t);
            }
        } else {
            assert(p.len() != t.len());
        }
    } else {
        if t.len() == 0 {
            assert(p =~= t);
        }
    }
}

/// The pattern `*` matches every text.
pub proof fn law_star_matches_everything(t: Seq<char>)
    ensures
        wildcard_match(seq!['*'], t),
    decreases t.len(),
{
    let p = seq!['*'];
    assert(p.drop_last() =~= Seq::<char>::empty());
    assert(p.last() == '*');
    assert(wildcard_match(Seq::<char>::empty(), Seq::<char>::empty()));
    if t.len() > 0 {
        law_star_matches_everything(t.drop_last());
        assert(wildcard_match(p, t.drop_last()));
    } else {
        assert(t =~= Seq::<char>::empty());
        assert(wildcard_match(p.drop_last(), t));
    }
}

/// The case of a pattern or of a text does not matter: a pattern, its ASCII
/// upper case and its ASCII lower case compile to the same pattern
/// (`WildcardPattern::new`), and a text matches as its upper case does.
pub proof fn law_pattern_case_irrelevant(p: Seq<char>, t: Seq<char>)
    ensures
        wildcard_match(lower_seq(upper_seq(p)), lower_seq(t)) == wildcard_match(
            lower_seq(p),
            lower_seq(t),
        ),
        wildcard_match(lower_seq(lower_seq(p)), lower_seq(t)) == wildcard_match(
            lower_seq(p),
            lower_seq(t),
        ),
        wildcard_match(lower_seq(p), lower_seq(upper_seq(t))) == wildcard_match(
            lower_seq(p),
            lower_seq(t),
        ),
{
    law_fold_ignores_case(p);
    law_fold_ignores_case(t);
}

/// A compiled wildcard pattern supporting `*` (zero or more characters) and
/// `?` (exactly one character). Matching is ASCII case-insensitive.
#[derive(Debug, Clone)]
pub struct WildcardPattern {
    /// The pattern, lower-cased.
    pattern: Vec<char>,
}

impl WildcardPattern {
    /// The lower-cased pattern.
    pub closed spec fn view(&self) -> Seq<char> {
        self.pattern@
    }

    /// Compile a wildcard pattern; it is lower-cased for case-insensitive
    /// matching.
    pub fn new(pattern: &str) -> (r: Self)
        ensures
            r.view() == lower_seq(pattern@),
    {
        WildcardPattern { pattern: lower_chars(pattern) }
    }

    /// Whether `text` matches this pattern, ignoring ASCII case.
    pub fn matches(&self, text: &str) -> (r: bool)
        ensures
            r == wildcard_match(self.view(), lower_seq(text@)),
    {
        let t = lower_chars(text);
        let p = &self.pattern;
        let m = p.len();
        let n = t.len();
        let ghost ps = p@;
        let ghost ts = t@;
        // prev[j] == the first i pattern characters match the first j text characters
        let mut prev: Vec<bool> = Vec::new();
        prev.push(true);
        let mut j: usize = 0;
        while j < n
            invariant
                j <= n,
                n == ts.len(),
                prev@.len() == j + 1,
                forall|k: int| 0 <= k <= j ==> prev@[k] == wildcard_match(ps.take(0), ts.take(k)),
            decreases n - j,
        {
            prev.push(false);
            j += 1;
            proof {
                assert(ps.take(0).len() == 0);
            }
        }
        let mut i: usize = 0;
        while i < m
            invariant
                i <= m,
                m == ps.len(),
                n == ts.len(),
                ps == p@,
                ts == t@,
                prev@.len() == n + 1,
                forall|k: int| 0 <= k <= n ==> prev@[k] == wildcard_match(ps.take(i as int), ts.take(k)),
            decreases m - i,
        {
            let pc = p[i];
            let mut cur: Vec<bool> = Vec::new();
            proof {
                assert(ps.take(i + 1).drop_last() =~= ps.take(i as int));
                assert(ps.take(i + 1).last() == pc);
                assert(ts.take(0).len() == 0);
            }
            cur.push(prev[0] && pc == '*');
            let mut j: usize = 0;
            while j < n
                invariant
                    i < m,
                    j <= n,
                    m == ps.len(),
                    n == ts.len(),
                    ps == p@,
                    ts == t@,
                    pc == ps[i as int],
                    prev@.len() == n + 1,
                    cur@.len() == j + 1,
                    forall|k: int|
                        0 <= k <= n ==> prev@[k] == wildcard_match(ps.take(i as int), ts.take(k)),
                    forall|k: int|
                        0 <= k <= j ==> cur@[k] == wildcard_match(ps.take(i + 1), ts.take(k)),
                decreases n - j,
            {
                let tc = t[j];
                let v = if pc == '*' {
                    prev[j + 1] || cur[j]
                } else if pc == '?' {
                    prev[j]
                } else {
                    prev[j] && pc == tc
                };
                proof {
                    assert(ps.take(i + 1).drop_last() =~= ps.take(i as int));
                    assert(ps.take(i + 1).last() == pc);
                    assert(ts.take(j + 1).drop_last() =~= ts.take(j as int));
                    assert(ts.take(j + 1).last() == tc);
                }
                cur.push(v);
                j += 1;
            }
            prev = cur;
            i += 1;
        }
        proof {
            assert(ps.take(m as int) =~= ps);
            assert(ts.take(n as int) =~= ts);
        }
        prev[n]
    }
}

/// The comparison of a criteria such as `">=10"`.
#[derive(Debug, Clone, Copy, PartialEq, Eq, Structural)]
pub enum CompareOp {
    /// `>`
    Greater,
    /// `>=`
    GreaterOrEq,
    /// `<`
    Less,
    /// `<=`
    LessOrEq,
}

/// The value a criteria compares with, as text: numbers are read from
/// `Text` by the caller.
#[derive(Debug, Clone, PartialEq, Eq)]
pub enum CriteriaLiteral {
    /// Nothing but white space.
    Empty,
    /// `TRUE` or `FALSE`, in any case.
    Bool(bool),
    /// Any other text, trimmed.
    Text(String),
}

/// The structure of a criteria string of `SUMIF`, `COUNTIF` and
/// `AVERAGEIF`.
#[derive(Debug, Clone)]
pub enum CriteriaForm {
    /// `""`: matches blank cells.
    Blank,
    /// `"<>"`: matches cells that are not blank.
    NonBlank,
    /// `"<>value"`.
    NotEquals(CriteriaLiteral),
    /// `">n"`, `">=n"`, `"<n"`, `"<=n"`: the operator, the operand text, and
    /// the whole trimmed criteria, which is compared for equality when the
    /// operand is not a finite number.
    Compare(CompareOp, String, String),
    /// `"=value"` or a plain value.
    Equals(CriteriaLiteral),
    /// Text holding `*` or `?`.
    Wildcard(WildcardPattern),
}

/// `l` is the literal read from `s`: trimmed, empty, a boolean word in any
/// case, or the trimmed text.
pub open spec fn is_literal_of(l: CriteriaLiteral, s: Seq<char>) -> bool {
    let t = trim_seq(s);
    if t.len() == 0 {
        l is Empty
    } else if lower_seq(t) == "true"@ {
        l == CriteriaLiteral::Bool(true)
    } else if lower_seq(t) == "false"@ {
        l == CriteriaLiteral::Bool(false)
    } else {
        l matches CriteriaLiteral::Text(x) && x@ == t
    }
}

/// `r` is the comparison `op` on the operand after the first `k`
/// characters of `t`.
pub open spec fn is_compare_of(r: CriteriaForm, op: CompareOp, t: Seq<char>, k: int) -> bool {
    r matches CriteriaForm::Compare(o, operand, whole) && o == op && operand@ == trim_seq(t.skip(k))
        && whole@ == t
}

/// `r` is the structure of criteria string `s`.
pub open spec fn is_criteria_form_of(r: CriteriaForm, s: Seq<char>) -> bool {
    let t = trim_seq(s);
    if t.len() == 0 {
        r is Blank
    } else if t.len() >= 2 && t[0] == '<' && t[1] == '>' {
        if t.len() == 2 {
            r is NonBlank
        } else {
            r matches CriteriaForm::NotEquals(l) && is_literal_of(l, t.skip(2))
        }
    } else if t.len() >= 2 && t[0] == '>' && t[1] == '=' {
        is_compare_of(r, CompareOp::GreaterOrEq, t, 2)
    } else if t.len() >= 2 && t[0] == '<' && t[1] == '=' {
        is_compare_of(r, CompareOp::LessOrEq, t, 2)
    } else if t[0] == '>' {
        is_compare_of(r, CompareOp::Greater, t, 1)
    } else if t[0] == '<' {
        is_compare_of(r, CompareOp::Less, t, 1)
    } else if t[0] == '=' {
        r matches CriteriaForm::Equals(l) && is_literal_of(l, t.skip(1))
    } else if t.contains('*') || t.contains('?') {
        r matches CriteriaForm::Wildcard(p) && p.view() == lower_seq(t)
    } else {
        r matches CriteriaForm::Equals(l) && is_literal_of(l, t)
    }
}

/// Whether the lower-cased `v` spells `word`.
fn lower_equals(v: &Vec<char>, word: &str) -> (r: bool)
    ensures
        r == (lower_seq(v@) == word@),
{
    let mut lowered: Vec<char> = Vec::new();
    let mut i: usize = 0;
    while i < v.len()
        invariant
            i <= v@.len(),
            lowered@ == lower_seq(v@.take(i as int)),
        decreases v@.len() - i,
    {
        let c = to_lower_char(v[i]);
        lowered.push(c);
        i += 1;
        proof {
            assert(lower_seq(v@.take(i as int)) =~= lower_seq(v@.take(i - 1)).push(c));
        }
    }
    proof {
        assert(v@.take(i as int) =~= v@);
    }
    let s = string_from_chars(lowered.as_slice());
    str_equals(s.as_str(), word)
}

/// The literal of `v[from..]`.
fn literal_of(v: &Vec<char>, from: usize) -> (l: CriteriaLiteral)
    requires
        from <= v@.len(),
    ensures
        is_literal_of(l, v@.skip(from as int)),
{
    let t = trim_chars(v.as_slice(), from);
    proof {
        reveal_strlit("true");
        reveal_strlit("false");
    }
    if t.len() == 0 {
        CriteriaLiteral::Empty
    } else if lower_equals(&t, "true") {
        CriteriaLiteral::Bool(true)
    } else if lower_equals(&t, "false") {
        CriteriaLiteral::Bool(false)
    } else {
        CriteriaLiteral::Text(string_from_chars(t.as_slice()))
    }
}

/// Whether `v` holds `c`.
fn has_char(v: &Vec<char>, c: char) -> (r: bool)
    ensures
        r == v@.contains(c),
{
    let mut i: usize = 0;
    while i < v.len()
        invariant
            i <= v@.len(),
            forall|k: int| 0 <= k < i ==> v@[k] != c,
        decreases v@.len() - i,
    {
        if v[i] == c {
            return true;
        }
        i += 1;
    }
    false
}

impl CriteriaForm {
    /// Reads the structure of a criteria string: it is trimmed; `""` is
    /// blank, `"<>"` not blank, `"<>v"` not equal to `v`; `">="`, `"<="`,
    /// `">"`, `"<"` compare with the rest; `"=v"` is equal to `v`; text
    /// holding `*` or `?` is a wildcard pattern; anything else is a plain
    /// value.
    pub fn parse(s: &str) -> (r: Self)
        ensures
            is_criteria_form_of(r, s@),
    {
        let v = chars_of(s);
        let t = trim_chars(v.as_slice(), 0);
        proof {
            assert(v@.skip(0) =~= v@);
        }
        let n = t.len();
        if n == 0 {
            return CriteriaForm::Blank;
        }
        if n >= 2 && t[0] == '<' && t[1] == '>' {
            if n == 2 {
                return CriteriaForm::NonBlank;
            }
            return CriteriaForm::NotEquals(literal_of(&t, 2));
        }
        let whole = string_from_chars(t.as_slice());
        if n >= 2 && t[0] == '>' && t[1] == '=' {
            let operand = string_from_chars(trim_chars(t.as_slice(), 2).as_slice());
            return CriteriaForm::Compare(CompareOp::GreaterOrEq, operand, whole);
        }
        if n >= 2 && t[0] == '<' && t[1] == '=' {
            let operand = string_from_chars(trim_chars(t.as_slice(), 2).as_slice());
            return CriteriaForm::Compare(CompareOp::LessOrEq, operand, whole);
        }
        if t[0] == '>' {
            let operand = string_from_chars(trim_chars(t.as_slice(), 1).as_slice());
            return CriteriaForm::Compare(CompareOp::Greater, operand, whole);
        }
        if t[0] == '<' {
            let operand = string_from_chars(trim_chars(t.as_slice(), 1).as_slice());
            return CriteriaForm::Compare(CompareOp::Less, operand, whole);
        }
        if t[0] == '=' {
            return CriteriaForm::Equals(literal_of(&t, 1));
        }
        if has_char(&t, '*') || has_char(&t, '?') {
            return CriteriaForm::Wildcard(WildcardPattern::new(whole.as_str()));
        }
        proof {
            assert(t@.skip(0) =~= t@);
            assert(trim_seq(t@) == t@) by {
                lemma_trim_idempotent(v@);
            }
        }
        CriteriaForm::Equals(literal_of(&t, 0))
    }
}

/// White space around a criteria does not change what it means.
pub proof fn law_criteria_ignores_surrounding_space(r: CriteriaForm, s: Seq<char>)
    ensures
        is_criteria_form_of(r, trim_seq(s)) == is_criteria_form_of(r, s),
{
    lemma_trim_idempotent(s);
}

} // verus!
