//! Lookup keys: type-aware, case-insensitive keys of `VLOOKUP`, `MATCH`
//! and friends, with the total order that approximate matching uses.
use vstd::prelude::*;

use crate::text::{law_fold_ignores_case, lower_chars, lower_seq, string_from_chars, upper_seq};

verus! {

/// Case-folded text for case-insensitive lookup matching.
#[derive(Debug, Clone, PartialEq, Eq, Hash, PartialOrd, Ord)]
pub struct CaseFoldedText(Vec<char>);

impl CaseFoldedText {
    /// The folded text.
    pub closed spec fn view(&self) -> Seq<char> {
        self.0@
    }

    /// Lower-case `s` (ASCII letters) and store it.
    pub fn new(s: &str) -> (r: Self)
        ensures
            r.view() == lower_seq(s@),
    {
        CaseFoldedText(lower_chars(s))
    }

    /// The folded text as a `String`.
    pub fn to_text(&self) -> (r: String)
        ensures
            r@ == self.view(),
    {
        string_from_chars(self.0.as_slice())
    }

    /// A copy with the same text.
    pub fn copy(&self) -> (r: Self)
        ensures
            r.view() == self.view(),
    {
        let mut v: Vec<char> = Vec::new();
        let mut i: usize = 0;
        while i < self.0.len()
            invariant
                i <= self.0@.len(),
                v@ == self.0@.take(i as int),
            decreases self.0@.len() - i,
        {
            v.push(self.0[i]);
            i += 1;
            proof {
                assert(v@ =~= self.0@.take(i as int));
            }
        }
        proof {
            assert(self.0@.take(i as int) =~= self.0@);
        }
        CaseFoldedText(v)
    }
}

/// What a lookup key stands for: a number by its place in the total order
/// of `f64` values, case-folded text, or a boolean.
pub enum KeyView {
    Number(int),
    Text(Seq<char>),
    Bool(bool),
}

/// A lookup key. Numbers are held as the signed integer whose order is the
/// total order of their `f64` values (equal keys: equal numbers); text is
/// case-folded; empty cells and errors have no key.
#[derive(Debug, Clone, PartialEq, Eq, Hash, PartialOrd, Ord)]
pub enum LookupValue {
    /// Numeric key.
    Number(i64),
    /// Case-insensitive text key.
    Text(CaseFoldedText),
    /// Boolean key.
    Bool(bool),
}

impl LookupValue {
    /// The key this value stands for.
    pub open spec fn view(&self) -> KeyView {
        match self {
            LookupValue::Number(n) => KeyView::Number(*n as int),
            LookupValue::Text(t) => KeyView::Text(t.view()),
            LookupValue::Bool(b) => KeyView::Bool(*b),
        }
    }

    /// A copy standing for the same key.
    pub fn copy(&self) -> (r: Self)
        ensures
            r.view() == self.view(),
    {
        match self {
            LookupValue::Number(n) => LookupValue::Number(*n),
            LookupValue::Text(t) => LookupValue::Text(t.copy()),
            LookupValue::Bool(b) => LookupValue::Bool(*b),
        }
    }
}

/// Numbers sort before text, text before booleans.
pub open spec fn key_tier(k: KeyView) -> int {
    match k {
        KeyView::Number(_) => 0,
        KeyView::Text(_) => 1,
        KeyView::Bool(_) => 2,
    }
}

/// Lexicographic order of texts by character.
pub open spec fn text_lt(a: Seq<char>, b: Seq<char>) -> bool
    decreases a.len(),
{
    if a.len() == 0 {
        b.len() > 0
    } else if b.len() == 0 {
        false
    } else if a[0] != b[0] {
        a[0] < b[0]
    } else {
        text_lt(a.skip(1), b.skip(1))
    }
}

/// The strict order of lookup keys: by tier, then numbers by value, text
/// lexicographically, `FALSE` before `TRUE`.
pub open spec fn key_lt(a: KeyView, b: KeyView) -> bool {
    if key_tier(a) != key_tier(b) {
        key_tier(a) < key_tier(b)
    } else {
        match (a, b) {
            (KeyView::Number(x), KeyView::Number(y)) => x < y,
            (KeyView::Text(x), KeyView::Text(y)) => text_lt(x, y),
            (KeyView::Bool(x), KeyView::Bool(y)) => !x && y,
            _ => false,
        }
    }
}

/// `a` is at most `b`.
pub open spec fn key_le(a: KeyView, b: KeyView) -> bool {
    key_lt(a, b) || a == b
}

proof fn lemma_text_lt_total(a: Seq<char>, b: Seq<char>)
    ensures
        !text_lt(a, a),
        a != b ==> (text_lt(a, b) || text_lt(b, a)),
        !(text_lt(a, b) && text_lt(b, a)),
    decreases a.len(),
{
    if a.len() > 0 {
        lemma_text_lt_total(a.skip(1), a.skip(1));
    }
    if a.len() > 0 && b.len() > 0 {
        lemma_text_lt_total(a.skip(1), b.skip(1));
        if a[0] == b[0] && a != b {
            assert(a.skip(1) != b.skip(1)) by {
                if a.skip(1) == b.skip(1) {
                    assert(a =~= b) by {
                        assert forall|k: int| 0 <= k < a.len() implies a[k] == b[k] by {
                            if k > 0 {
                                assert(a[k] == a.skip(1)[k - 1]);
                                assert(b[k] == b.skip(1)[k - 1]);
                            }
                        }
                    }
                }
            }
        }
    } else if a.len() == 0 && b.len() == 0 {
        assert(a =~= b);
    }
}

proof fn lemma_text_lt_transitive(a: Seq<char>, b: Seq<char>, c: Seq<char>)
    requires
        text_lt(a, b),
        text_lt(b, c),
    ensures
        text_lt(a, c),
    decreases a.len(),
{
    if a.len() > 0 && b.len() > 0 && c.len() > 0 {
        if a[0] == b[0] && b[0] == c[0] {
            lemma_text_lt_transitive(a.skip(1), b.skip(1), c.skip(1));
        }
    }
}

/// The key order is a strict total order.
pub proof fn lemma_key_order(a: KeyView, b: KeyView)
    ensures
        !key_lt(a, a),
        a != b ==> (key_lt(a, b) || key_lt(b, a)),
        !(key_lt(a, b) && key_lt(b, a)),
{
    match (a, b) {
        (KeyView::Text(x), KeyView::Text(y)) => {
            lemma_text_lt_total(x, y);
        },
        (KeyView::Text(x), _) => {
            lemma_text_lt_total(x, x);
        },
        _ => {},
    }
}

/// The key order is transitive.
pub proof fn lemma_key_lt_transitive(a: KeyView, b: KeyView, c: KeyView)
    requires
        key_lt(a, b),
        key_lt(b, c),
    ensures
        key_lt(a, c),
{
    match (a, b, c) {
        (KeyView::Text(x), KeyView::Text(y), KeyView::Text(z)) => {
            lemma_text_lt_transitive(x, y, z);
        },
        _ => {},
    }
}

/// Compares two folded texts by character: negative, zero or positive.
fn compare_text(a: &Vec<char>, b: &Vec<char>) -> (r: i8)
    ensures
        (r < 0) == text_lt(a@, b@),
        (r == 0) == (a@ == b@),
        (r > 0) == text_lt(b@, a@),
{
    proof {
        lemma_text_lt_total(a@, b@);
        assert(a@.skip(0) =~= a@);
        assert(b@.skip(0) =~= b@);
        assert(a@.take(0) =~= b@.take(0));
    }
    let mut i: usize = 0;
    while i < a.len() && i < b.len() && a[i] == b[i]
        invariant
            i <= a@.len(),
            i <= b@.len(),
            a@.take(i as int) == b@.take(i as int),
            text_lt(a@, b@) == text_lt(a@.skip(i as int), b@.skip(i as int)),
            text_lt(b@, a@) == text_lt(b@.skip(i as int), a@.skip(i as int)),
        decreases a@.len() - i,
    {
        proof {
            assert(a@.skip(i as int).skip(1) =~= a@.skip(i + 1));
            assert(b@.skip(i as int).skip(1) =~= b@.skip(i + 1));
            assert(a@.take(i + 1) =~= a@.take(i as int).push(a@[i as int]));
            assert(b@.take(i + 1) =~= b@.take(i as int).push(b@[i as int]));
        }
        i += 1;
    }
    if i < a.len() && i < b.len() {
        proof {
            assert(a@.skip(i as int)[0] == a@[i as int]);
            assert(b@.skip(i as int)[0] == b@[i as int]);
            if a@ == b@ {
                assert(a@[i as int] == b@[i as int]);
            }
        }
        if a[i] < b[i] {
            -1
        } else {
            1
        }
    } else if i < a.len() {
        proof {
            assert(a@ != b@) by {
                assert(a@.len() != b@.len());
            }
            assert(b@.skip(i as int).len() == 0);
        }
        1
    } else if i < b.len() {
        proof {
            assert(a@ != b@) by {
                assert(a@.len() != b@.len());
            }
            assert(a@.skip(i as int).len() == 0);
        }
        -1
    } else {
        proof {
            assert(a@ =~= a@.take(i as int));
            assert(b@ =~= b@.take(i as int));
        }
        0
    }
}

/// Texts that differ only in ASCII case are the same lookup key, and the
/// keys of two texts are ordered by their lower-cased characters: equal
/// folded texts are neither before nor after each other, different ones are
/// strictly ordered one way.
pub proof fn law_text_keys_fold_case(a: Seq<char>, b: Seq<char>)
    ensures
        KeyView::Text(lower_seq(upper_seq(a))) == KeyView::Text(lower_seq(a)),
        key_lt(KeyView::Text(lower_seq(a)), KeyView::Text(lower_seq(b))) == text_lt(
            lower_seq(a),
            lower_seq(b),
        ),
        (lower_seq(a) == lower_seq(b)) <==> (!key_lt(
            KeyView::Text(lower_seq(a)),
            KeyView::Text(lower_seq(b)),
        ) && !key_lt(KeyView::Text(lower_seq(b)), KeyView::Text(lower_seq(a)))),
{
    law_fold_ignores_case(a);
    lemma_text_lt_total(lower_seq(a), lower_seq(b));
}

impl LookupValue {
    /// Compares two keys: negative when `self` sorts first, zero when they
    /// are the same key, positive when `other` sorts first.
    pub fn compare(&self, other: &LookupValue) -> (r: i8)
        ensures
            (r < 0) == key_lt(self.view(), other.view()),
            (r == 0) == (self.view() == other.view()),
            (r > 0) == key_lt(other.view(), self.view()),
    {
        proof {
            lemma_key_order(self.view(), other.view());
        }
        match (self, other) {
            (LookupValue::Number(x), LookupValue::Number(y)) => {
                if *x < *y {
                    -1
                } else if *x == *y {
                    0
                } else {
                    1
                }
            },
            (LookupValue::Text(x), LookupValue::Text(y)) => compare_text(&x.0, &y.0),
            (LookupValue::Bool(x), LookupValue::Bool(y)) => {
                if *x == *y {
                    0
                } else if !*x {
                    -1
                } else {
                    1
                }
            },
            (LookupValue::Number(_), _) => -1,
            (LookupValue::Bool(_), _) => 1,
            (LookupValue::Text(_), LookupValue::Number(_)) => 1,
            (LookupValue::Text(_), LookupValue::Bool(_)) => -1,
        }
    }
}

} // verus!
