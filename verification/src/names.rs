//! Entry names as raw bytes, and their dictionary order.
//!
//! A name is kept exactly as the file system gave it, so it need not be valid
//! UTF-8. Order and equality are those of the bytes.

use vstd::prelude::*;

verus! {

/// The first `n` bytes of `a` and of `b` are the same.
pub open spec fn agree_upto(a: Seq<u8>, b: Seq<u8>, n: int) -> bool {
    &&& 0 <= n <= a.len()
    &&& n <= b.len()
    &&& forall|k: int| 0 <= k < n ==> a[k] == b[k]
}

/// Dictionary order on byte strings: `a` comes no later than `b` when `a` is
/// a prefix of `b`, or when `a` holds the smaller byte at the first place
/// where the two differ.
pub open spec fn lex_le(a: Seq<u8>, b: Seq<u8>) -> bool {
    exists|n: int| #[trigger]
        agree_upto(a, b, n) && (n == a.len() || (n < b.len() && a[n] < b[n]))
}

/// Every name comes no later than itself.
pub proof fn lemma_lex_le_reflexive(a: Seq<u8>)
    ensures
        lex_le(a, a),
{
    assert(agree_upto(a, a, a.len() as int));
}

proof fn lemma_lex_total_from(a: Seq<u8>, b: Seq<u8>, n: int)
    requires
        agree_upto(a, b, n),
    ensures
        lex_le(a, b) || lex_le(b, a),
    decreases a.len() - n,
{
    if n == a.len() {
    } else if n == b.len() {
        assert(agree_upto(b, a, n));
    } else if a[n] < b[n] {
    } else if b[n] < a[n] {
        assert(agree_upto(b, a, n));
    } else {
        assert(agree_upto(a, b, n + 1));
        lemma_lex_total_from(a, b, n + 1);
    }
}

/// Of two names, one comes no later than the other.
pub proof fn lemma_lex_le_total(a: Seq<u8>, b: Seq<u8>)
    ensures
        lex_le(a, b) || lex_le(b, a),
{
    assert(agree_upto(a, b, 0));
    lemma_lex_total_from(a, b, 0);
}

/// Dictionary order is transitive.
pub proof fn lemma_lex_le_transitive(a: Seq<u8>, b: Seq<u8>, c: Seq<u8>)
    requires
        lex_le(a, b),
        lex_le(b, c),
    ensures
        lex_le(a, c),
{
    let n = choose|n: int| #[trigger]
        agree_upto(a, b, n) && (n == a.len() || (n < b.len() && a[n] < b[n]));
    let m = choose|m: int| #[trigger]
        agree_upto(b, c, m) && (m == b.len() || (m < c.len() && b[m] < c[m]));
    let k = if n <= m { n } else { m };
    assert(agree_upto(a, c, k));
}

/// Two names that each come no later than the other are the same name.
pub proof fn lemma_lex_le_antisymmetric(a: Seq<u8>, b: Seq<u8>)
    requires
        lex_le(a, b),
        lex_le(b, a),
    ensures
        a == b,
{
    let n = choose|n: int| #[trigger]
        agree_upto(a, b, n) && (n == a.len() || (n < b.len() && a[n] < b[n]));
    let m = choose|m: int| #[trigger]
        agree_upto(b, a, m) && (m == b.len() || (m < a.len() && b[m] < a[m]));
    assert(a =~= b);
}

/// Decides dictionary order.
pub fn name_le(a: &[u8], b: &[u8]) -> (r: bool)
    ensures
        r == lex_le(a@, b@),
{
    let mut i: usize = 0;
    while i < a.len() && i < b.len()
        invariant
            agree_upto(a@, b@, i as int),
        decreases a.len() - i,
    {
        if a[i] < b[i] {
            return true;
        }
        if a[i] > b[i] {
            proof {
                assert forall|n: int| #[trigger] agree_upto(a@, b@, n) implies !(n == a@.len() || (n
                    < b@.len() && a@[n] < b@[n])) by {
                    if n > i {
                        assert(a@[i as int] == b@[i as int]);
                    }
                }
            }
            return false;
        }
        i += 1;
    }
    if i == a.len() {
        true
    } else {
        proof {
            assert forall|n: int| #[trigger] agree_upto(a@, b@, n) implies !(n == a@.len() || (n
                < b@.len() && a@[n] < b@[n])) by {}
        }
        false
    }
}

/// Decides whether two names are the same.
pub fn name_eq(a: &[u8], b: &[u8]) -> (r: bool)
    ensures
        r == (a@ == b@),
{
    if a.len() != b.len() {
        return false;
    }
    let mut i: usize = 0;
    while i < a.len()
        invariant
            a@.len() == b@.len(),
            agree_upto(a@, b@, i as int),
        decreases a.len() - i,
    {
        if a[i] != b[i] {
            return false;
        }
        i += 1;
    }
    assert(a@ =~= b@);
    true
}

} // verus!
