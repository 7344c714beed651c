//! The order of dependency names.
//!
//! Names are ordered as a key-ordered map of strings orders its keys:
//! character by character from the front, by code point, a proper prefix
//! before the longer text.

use vstd::prelude::*;

verus! {

/// Whether `a` comes strictly before `b`.
pub open spec fn text_before(a: Seq<char>, b: Seq<char>) -> bool
    decreases a.len(),
{
    if b.len() == 0 {
        false
    } else if a.len() == 0 {
        true
    } else if a[0] == b[0] {
        text_before(a.skip(1), b.skip(1))
    } else {
        (a[0] as u32) < (b[0] as u32)
    }
}

/// How one text stands to another.
#[derive(Clone, Copy, Debug, PartialEq, Eq, Structural)]
pub enum Rank {
    /// The first comes before the second.
    Before,
    /// The two are the same text.
    Same,
    /// The first comes after the second.
    After,
}

/// How `a` stands to `b`.
pub open spec fn rank_of(a: Seq<char>, b: Seq<char>) -> Rank {
    if text_before(a, b) {
        Rank::Before
    } else if a == b {
        Rank::Same
    } else {
        Rank::After
    }
}

/// No text comes before itself.
pub proof fn lemma_before_irreflexive(a: Seq<char>)
    ensures
        !text_before(a, a),
    decreases a.len(),
{
    if a.len() > 0 {
        lemma_before_irreflexive(a.skip(1));
    }
}

/// Of two different texts exactly one comes before the other.
pub proof fn lemma_before_total(a: Seq<char>, b: Seq<char>)
    ensures
        a != b ==> (text_before(a, b) <==> !text_before(b, a)),
        a == b ==> !text_before(a, b) && !text_before(b, a),
    decreases a.len(),
{
    if a == b {
        lemma_before_irreflexive(a);
    } else if a.len() == 0 || b.len() == 0 {
        if a.len() == 0 && b.len() == 0 {
            assert(a =~= b);
        }
    } else if a[0] == b[0] {
        lemma_before_total(a.skip(1), b.skip(1));
        if a.skip(1) == b.skip(1) {
            assert(a =~= seq![a[0]] + a.skip(1));
            assert(b =~= seq![b[0]] + b.skip(1));
        }
    } else {
        vstd::utf8::char_u32_cast(a[0], a[0] as u32);
        vstd::utf8::char_u32_cast(b[0], b[0] as u32);
    }
}

/// What comes before something that comes before a third text comes before
/// the third.
pub proof fn lemma_before_transitive(a: Seq<char>, b: Seq<char>, c: Seq<char>)
    requires
        text_before(a, b),
        text_before(b, c),
    ensures
        text_before(a, c),
    decreases a.len(),
{
    if a.len() > 0 && a[0] == b[0] && b[0] == c[0] {
        lemma_before_transitive(a.skip(1), b.skip(1), c.skip(1));
    }
}

/// Finds how `a` stands to `b`.
pub fn rank(a: &str, b: &str) -> (r: Rank)
    ensures
        r == rank_of(a@, b@),
{
    let n: usize = a.unicode_len();
    let m: usize = b.unicode_len();
    let mut i: usize = 0;
    assert(a@.skip(0) =~= a@ && b@.skip(0) =~= b@);
    while i < n && i < m
        invariant
            n == a@.len(),
            m == b@.len(),
            i <= n,
            i <= m,
            a@.take(i as int) == b@.take(i as int),
            text_before(a@, b@) == text_before(a@.skip(i as int), b@.skip(i as int)),
            text_before(b@, a@) == text_before(b@.skip(i as int), a@.skip(i as int)),
        decreases n - i,
    {
        let x: char = a.get_char(i);
        let y: char = b.get_char(i);
        let ghost ra = a@.skip(i as int);
        let ghost rb = b@.skip(i as int);
        assert(ra[0] == x && rb[0] == y);
        if x != y {
            proof {
                lemma_before_total(a@, b@);
                assert(a@ != b@) by {
                    if a@ == b@ {
                        assert(a@[i as int] == b@[i as int]);
                    }
                }
            }
            if x < y {
                return Rank::Before;
            } else {
                return Rank::After;
            }
        }
        proof {
            assert(ra.skip(1) =~= a@.skip(i + 1));
            assert(rb.skip(1) =~= b@.skip(i + 1));
            assert(a@.take(i + 1) =~= a@.take(i as int).push(x));
            assert(b@.take(i + 1) =~= b@.take(i as int).push(y));
        }
        i = i + 1;
    }
    proof {
        lemma_before_total(a@, b@);
        if n == m {
            assert(a@ =~= a@.take(i as int));
            assert(b@ =~= b@.take(i as int));
        } else {
            assert(a@.len() != b@.len());
        }
    }
    if n == m {
        Rank::Same
    } else if n < m {
        Rank::Before
    } else {
        Rank::After
    }
}

} // verus!
