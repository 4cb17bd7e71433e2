//! Deterministic data for benchmark workbooks: a seeded generator and the
//! workbook size tiers.
use vstd::prelude::*;

use crate::text::{decimal, push_char, push_decimal, push_str, str_equals};

verus! {

/// Multiplier of the linear congruential generator.
pub const LCG_MULTIPLIER: u64 = 6364136223846793005;

/// Increment of the linear congruential generator.
pub const LCG_INCREMENT: u64 = 1442695040888963407;

/// One step of the linear congruential generator, modulo 2^64.
#[verifier::opaque]
pub open spec fn lcg_next(x: u64) -> u64 {
    ((x as int * LCG_MULTIPLIER as int + LCG_INCREMENT as int) % 0x1_0000_0000_0000_0000) as u64
}

/// The state after `n` steps from `x`.
pub open spec fn lcg_iter(x: u64, n: nat) -> u64
    decreases n,
{
    if n == 0 {
        x
    } else {
        lcg_next(lcg_iter(x, (n - 1) as nat))
    }
}

/// A seeded pseudo-random generator (64-bit LCG).
pub struct Rng(u64);

impl Rng {
    /// The generator state.
    pub closed spec fn state(&self) -> u64 {
        self.0
    }

    /// A generator seeded with `seed`.
    pub fn new(seed: u64) -> (r: Self)
        ensures
            r.state() == seed,
    {
        Rng(seed)
    }

    /// Advance the generator and return the new state.
    pub fn next_u64(&mut self) -> (r: u64)
        ensures
            r == lcg_next(old(self).state()),
            final(self).state() == r,
    {
        let m = self.0.wrapping_mul(LCG_MULTIPLIER);
        let r = m.wrapping_add(LCG_INCREMENT);
        proof {
            reveal(lcg_next);
            let x = old(self).state() as int;
            let md = 0x1_0000_0000_0000_0000int;
            vstd::arithmetic::div_mod::lemma_add_mod_noop(x * LCG_MULTIPLIER as int, LCG_INCREMENT as int, md);
            vstd::arithmetic::div_mod::lemma_mod_twice(x * LCG_MULTIPLIER as int, md);
            vstd::arithmetic::div_mod::lemma_small_mod(LCG_INCREMENT as nat, md as nat);
            vstd::arithmetic::div_mod::lemma_mod_bound(x * LCG_MULTIPLIER as int, md);
            if m as int + LCG_INCREMENT as int > u64::MAX {
                vstd::arithmetic::div_mod::lemma_mod_sub_multiples_vanish(m as int + LCG_INCREMENT as int, md);
                vstd::arithmetic::div_mod::lemma_small_mod((m as int + LCG_INCREMENT as int - md) as nat, md as nat);
            } else {
                vstd::arithmetic::div_mod::lemma_small_mod((m as int + LCG_INCREMENT as int) as nat, md as nat);
            }
        }
        self.0 = r;
        r
    }

    /// A value in `lo..=hi` from the next state.
    pub fn int_range(&mut self, lo: u64, hi: u64) -> (r: u64)
        requires
            lo <= hi,
            hi - lo < u64::MAX,
        ensures
            r == lo + (lcg_next(old(self).state()) as int) % (hi - lo + 1),
            final(self).state() == lcg_next(old(self).state()),
            lo <= r <= hi,
    {
        let x = self.next_u64();
        lo + x % (hi - lo + 1)
    }

    /// A string of `min_len..=max_len` characters from `alphabet`: the next
    /// state picks the length, each following state one character.
    pub fn text(&mut self, alphabet: &[u8], min_len: usize, max_len: usize) -> (r: String)
        requires
            alphabet@.len() > 0,
            min_len <= max_len,
            max_len - min_len < u64::MAX,
        ensures
            r@.len() == min_len + (lcg_iter(old(self).state(), 1) as int) % (max_len - min_len + 1),
            forall|k: int|
                0 <= k < r@.len() ==> #[trigger] r@[k] == (alphabet@[(lcg_iter(
                    old(self).state(),
                    (k + 2) as nat,
                ) as int) % (alphabet@.len() as int)] as char),
            final(self).state() == lcg_iter(old(self).state(), (r@.len() + 1) as nat),
    {
        let ghost s0 = self.state();
        proof {
            assert(lcg_iter(s0, 1) == lcg_next(lcg_iter(s0, 0)));
        }
        let len64 = self.int_range(min_len as u64, max_len as u64);
        let len = len64 as usize;
        proof {
            assert(len64 <= max_len);
            assert(len as int == len64 as int);
        }
        let mut out = String::new();
        let mut k: usize = 0;
        while k < len
            invariant
                k <= len,
                alphabet@.len() > 0,
                out@.len() == k,
                self.state() == lcg_iter(s0, (k + 1) as nat),
                forall|j: int|
                    0 <= j < k ==> #[trigger] out@[j] == (alphabet@[(lcg_iter(s0, (j + 2) as nat)
                        as int) % (alphabet@.len() as int)] as char),
            decreases len - k,
        {
            let i = self.int_range(0, (alphabet.len() - 1) as u64) as usize;
            proof {
                assert(lcg_iter(s0, (k + 2) as nat) == lcg_next(lcg_iter(s0, (k + 1) as nat)));
            }
            push_char(&mut out, alphabet[i] as char);
            k += 1;
        }
        out
    }
}

/// Benchmark workbook sizes.
#[derive(Clone, Copy, PartialEq, Eq, Structural)]
pub enum Tier {
    Small,
    Medium,
    Large,
}

impl Tier {
    /// Data rows of the tier's main sheet.
    pub fn rows(self) -> (r: u32)
        ensures
            r == match self {
                Tier::Small => 10000u32,
                Tier::Medium => 100000u32,
                Tier::Large => 1000000u32,
            },
    {
        match self {
            Tier::Small => 10000,
            Tier::Medium => 100000,
            Tier::Large => 1000000,
        }
    }

    /// The tier's name.
    pub fn name(self) -> (r: &'static str)
        ensures
            r@ == match self {
                Tier::Small => "small"@,
                Tier::Medium => "medium"@,
                Tier::Large => "large"@,
            },
    {
        match self {
            Tier::Small => "small",
            Tier::Medium => "medium",
            Tier::Large => "large",
        }
    }
}

/// The tiers named on the command line: one tier by its name, or `all`.
pub open spec fn spec_tiers_named(name: Seq<char>) -> Option<Seq<Tier>> {
    if name == "small"@ {
        Some(seq![Tier::Small])
    } else if name == "medium"@ {
        Some(seq![Tier::Medium])
    } else if name == "large"@ {
        Some(seq![Tier::Large])
    } else if name == "all"@ {
        Some(seq![Tier::Small, Tier::Medium, Tier::Large])
    } else {
        None
    }
}

/// The tiers named by `name` (`small`, `medium`, `large` or `all`); `None`
/// for any other name.
pub fn tiers_named(name: &str) -> (r: Option<Vec<Tier>>)
    ensures
        match r {
            Some(v) => spec_tiers_named(name@) == Some(v@),
            None => spec_tiers_named(name@) is None,
        },
{
    if str_equals(name, "small") {
        Some(vec![Tier::Small])
    } else if str_equals(name, "medium") {
        Some(vec![Tier::Medium])
    } else if str_equals(name, "large") {
        Some(vec![Tier::Large])
    } else if str_equals(name, "all") {
        Some(vec![Tier::Small, Tier::Medium, Tier::Large])
    } else {
        None
    }
}

/// The pieces of a formula template joined by the row number:
/// `pieces[0] row pieces[1] row ... pieces[n-1]`.
pub open spec fn join_with_row(pieces: Seq<Seq<char>>, row: Seq<char>) -> Seq<char>
    decreases pieces.len(),
{
    if pieces.len() == 0 {
        Seq::<char>::empty()
    } else if pieces.len() == 1 {
        pieces[0]
    } else {
        join_with_row(pieces.drop_last(), row) + row + pieces.last()
    }
}

/// The formula of template `pieces` for 1-based row `row`, such as
/// `=A7+B7` from the pieces `=A`, `+B` and an empty last piece.
pub fn formula_for_row(pieces: &[&str], row: u32) -> (r: String)
    ensures
        r@ == join_with_row(pieces@.map_values(|p: &str| p@), decimal(row as nat)),
{
    let ghost views = pieces@.map_values(|p: &str| p@);
    let mut r = String::new();
    let mut i: usize = 0;
    while i < pieces.len()
        invariant
            i <= pieces@.len(),
            views == pieces@.map_values(|p: &str| p@),
            r@ == join_with_row(views.take(i as int), decimal(row as nat)),
        decreases pieces@.len() - i,
    {
        if i > 0 {
            push_decimal(&mut r, row as u64);
        }
        push_str(&mut r, pieces[i]);
        i += 1;
        proof {
            assert(views.take(i as int).drop_last() =~= views.take(i - 1));
            if i == 1 {
                assert(views.take(0) =~= Seq::<Seq<char>>::empty());
            }
        }
    }
    proof {
        assert(views.take(i as int) =~= views);
    }
    r
}

} // verus!
