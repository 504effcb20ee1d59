//! The quality order on matches: exact before inexact, then the higher score,
//! then the lexicographically smaller key.

use vstd::prelude::*;
use vstd::relations::total_ordering;

verus! {

/// A match as the ranking sees it: the key's bytes, its score, and whether the
/// key is byte for byte the query that was searched for.
pub struct Match {
    pub key: Seq<u8>,
    pub value: u64,
    pub is_exact: bool,
}

/// `a` comes strictly before `b` in lexicographic byte order: at the first
/// position where they differ `a` holds the smaller byte, or `a` ends there
/// and `b` does not.
pub open spec fn key_precedes(a: Seq<u8>, b: Seq<u8>) -> bool
    decreases a.len(),
{
    if b.len() == 0 {
        false
    } else if a.len() == 0 {
        true
    } else if a.first() != b.first() {
        a.first() < b.first()
    } else {
        key_precedes(a.drop_first(), b.drop_first())
    }
}

/// `a` is strictly better than `b`.
pub open spec fn outranks(a: Match, b: Match) -> bool {
    if a.is_exact != b.is_exact {
        a.is_exact
    } else if a.value != b.value {
        a.value > b.value
    } else {
        key_precedes(a.key, b.key)
    }
}

/// `a` is at least as good as `b`: the order by which results are sorted.
pub open spec fn ranks_no_lower(a: Match, b: Match) -> bool {
    !outranks(b, a)
}

/// The quality order as a relation: `a` is at least as good as `b`.
pub open spec fn quality() -> spec_fn(Match, Match) -> bool {
    |a: Match, b: Match| ranks_no_lower(a, b)
}

/// `a` and `b` hold the same bytes at every position below `k`.
pub open spec fn agree_up_to(a: Seq<u8>, b: Seq<u8>, k: int) -> bool {
    &&& 0 <= k <= a.len()
    &&& k <= b.len()
    &&& forall|j: int| 0 <= j < k ==> a[j] == b[j]
}

proof fn lemma_same_rest(a: Seq<u8>, b: Seq<u8>)
    requires
        a.len() > 0,
        b.len() > 0,
        a.first() == b.first(),
        a.drop_first() == b.drop_first(),
    ensures
        a == b,
{
    assert(a.len() == a.drop_first().len() + 1);
    assert(b.len() == b.drop_first().len() + 1);
    assert forall|i: int| 0 <= i < a.len() implies a[i] == b[i] by {
        if i > 0 {
            assert(a[i] == a.drop_first()[i - 1]);
            assert(b[i] == b.drop_first()[i - 1]);
        }
    }
    assert(a =~= b);
}

/// Keys that agree on a prefix are ordered as what follows the prefix is.
pub proof fn lemma_skip_common_prefix(a: Seq<u8>, b: Seq<u8>, k: int)
    requires
        agree_up_to(a, b, k),
    ensures
        key_precedes(a, b) == key_precedes(a.skip(k), b.skip(k)),
        a == b <==> a.skip(k) == b.skip(k),
    decreases k,
{
    if k == 0 {
        assert(a.skip(0) =~= a);
        assert(b.skip(0) =~= b);
    } else {
        let x = a.drop_first();
        let y = b.drop_first();
        assert(a.first() == b.first());
        assert forall|j: int| 0 <= j < k - 1 implies x[j] == y[j] by {
            assert(x[j] == a[j + 1] && y[j] == b[j + 1]);
        }
        lemma_skip_common_prefix(x, y, k - 1);
        assert(x.skip(k - 1) =~= a.skip(k));
        assert(y.skip(k - 1) =~= b.skip(k));
        if x == y {
            lemma_same_rest(a, b);
        }
    }
}

/// The first position at which two byte strings differ, or the length of the
/// shorter one where one is a prefix of the other. It decides their order.
pub fn first_mismatch(a: &[u8], b: &[u8]) -> (k: usize)
    ensures
        agree_up_to(a@, b@, k as int),
        k < a.len() && k < b.len() ==> a@[k as int] != b@[k as int],
        key_precedes(a@, b@) <==> k < b.len() && (k == a.len() || a@[k as int] < b@[k as int]),
        key_precedes(b@, a@) <==> k < a.len() && (k == b.len() || b@[k as int] < a@[k as int]),
        a@ == b@ <==> k == a.len() && k == b.len(),
{
    let mut i: usize = 0;
    while i < a.len() && i < b.len() && a[i] == b[i]
        invariant
            agree_up_to(a@, b@, i as int),
        decreases a.len() - i,
    {
        i += 1;
    }
    proof {
        let x = a@.skip(i as int);
        let y = b@.skip(i as int);
        lemma_skip_common_prefix(a@, b@, i as int);
        assert(agree_up_to(b@, a@, i as int));
        lemma_skip_common_prefix(b@, a@, i as int);
        if i < a.len() {
            assert(x.first() == a@[i as int]);
        }
        if i < b.len() {
            assert(y.first() == b@[i as int]);
        }
        if i == a.len() && i == b.len() {
            assert(x =~= y);
        }
    }
    i
}

/// Whether two byte strings are equal.
pub fn same_bytes(a: &[u8], b: &[u8]) -> (r: bool)
    ensures
        r == (a@ == b@),
{
    let k: usize = first_mismatch(a, b);
    k == a.len() && k == b.len()
}

/// Of two different keys exactly one precedes the other, and no key precedes
/// itself.
pub proof fn lemma_keys_trichotomy(a: Seq<u8>, b: Seq<u8>)
    ensures
        a == b ==> !key_precedes(a, b) && !key_precedes(b, a),
        a != b ==> (key_precedes(a, b) <==> !key_precedes(b, a)),
    decreases a.len(),
{
    if a.len() == 0 || b.len() == 0 {
        if a.len() == 0 && b.len() == 0 {
            assert(a =~= b);
        }
    } else if a.first() == b.first() {
        lemma_keys_trichotomy(a.drop_first(), b.drop_first());
        if a.drop_first() == b.drop_first() {
            lemma_same_rest(a, b);
        }
    }
}

/// Lexicographic precedence is transitive.
pub proof fn lemma_keys_transitive(a: Seq<u8>, b: Seq<u8>, c: Seq<u8>)
    requires
        key_precedes(a, b),
        key_precedes(b, c),
    ensures
        key_precedes(a, c),
    decreases a.len(),
{
    if a.len() > 0 && a.first() == b.first() && b.first() == c.first() {
        lemma_keys_transitive(a.drop_first(), b.drop_first(), c.drop_first());
    }
}

/// Of two different matches exactly one outranks the other, and no match
/// outranks itself.
pub proof fn lemma_outranks_trichotomy(a: Match, b: Match)
    ensures
        a == b ==> !outranks(a, b) && !outranks(b, a),
        a != b ==> (outranks(a, b) <==> !outranks(b, a)),
{
    lemma_keys_trichotomy(a.key, b.key);
}

/// Being strictly better is transitive.
pub proof fn lemma_outranks_transitive(a: Match, b: Match, c: Match)
    requires
        outranks(a, b),
        outranks(b, c),
    ensures
        outranks(a, c),
{
    if a.is_exact == b.is_exact && b.is_exact == c.is_exact && a.value == b.value && b.value
        == c.value {
        lemma_keys_transitive(a.key, b.key, c.key);
    }
}

/// The quality order is a total order on matches: any two are comparable, and
/// two that rank alike are the same match.
pub proof fn lemma_quality_is_total_order()
    ensures
        total_ordering(quality()),
{
    let leq = quality();
    assert forall|a: Match| #[trigger] leq(a, a) by {
        lemma_outranks_trichotomy(a, a);
    }
    assert forall|a: Match, b: Match| #[trigger] leq(a, b) && #[trigger] leq(b, a) implies a
        == b by {
        lemma_outranks_trichotomy(a, b);
    }
    assert forall|a: Match, b: Match, c: Match| #[trigger] leq(a, b) && #[trigger] leq(b, c)
        implies leq(a, c) by {
        lemma_outranks_trichotomy(a, b);
        lemma_outranks_trichotomy(b, c);
        lemma_outranks_trichotomy(a, c);
        if a != b && b != c && a != c {
            if outranks(c, a) {
                lemma_outranks_transitive(c, a, b);
            }
        }
    }
    assert forall|a: Match, b: Match| #[trigger] leq(a, b) || #[trigger] leq(b, a) by {
        lemma_outranks_trichotomy(a, b);
    }
}

} // verus!
