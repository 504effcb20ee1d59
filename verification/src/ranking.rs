//! Bounded selection of the best matches: a short list that is kept in quality
//! order, and what it holds after a stream of matches has passed through it.

use vstd::prelude::*;
use vstd::relations::sorted_by;
use vstd::seq_lib::{
    lemma_multiset_commutative, lemma_sorted_unique, to_multiset_build, to_multiset_insert,
    to_multiset_len,
};
use crate::candidate::SearchResult;
use crate::order::{
    Match, key_precedes, outranks, quality, ranks_no_lower, lemma_outranks_trichotomy,
    lemma_outranks_transitive, lemma_quality_is_total_order,
};

verus! {

/// The number of matches that a search returns at most.
pub const MAX_RESULTS: usize = 10;

/// `s` is in quality order, best first.
pub open spec fn is_ranked(s: Seq<Match>) -> bool {
    sorted_by(s, quality())
}

/// `p` is the first position of `s` whose match `m` outranks, or the length of
/// `s` where `m` outranks none.
pub open spec fn is_rank_position(s: Seq<Match>, m: Match, p: int) -> bool {
    &&& 0 <= p <= s.len()
    &&& forall|i: int| 0 <= i < p ==> !outranks(m, #[trigger] s[i])
    &&& p < s.len() ==> outranks(m, s[p])
}

/// The position at which `m` enters `s`: behind every leading match that it
/// does not outrank.
pub open spec fn rank_position(s: Seq<Match>, m: Match) -> int
    decreases s.len(),
{
    if s.len() == 0 || outranks(m, s[0]) {
        0
    } else {
        1 + rank_position(s.drop_first(), m)
    }
}

/// `s` with `m` entered at its rank.
pub open spec fn rank_insert(s: Seq<Match>, m: Match) -> Seq<Match> {
    s.insert(rank_position(s, m), m)
}

/// `s` without its last match where it holds more than `MAX_RESULTS`.
pub open spec fn within_limit(s: Seq<Match>) -> Seq<Match> {
    if s.len() > MAX_RESULTS {
        s.drop_last()
    } else {
        s
    }
}

/// All of `c`, best first.
pub open spec fn best_first(c: Seq<Match>) -> Seq<Match> {
    c.sort_by(quality())
}

/// The `MAX_RESULTS` best matches of `c`, or all of them where there are
/// fewer, best first.
pub open spec fn top_ranked(c: Seq<Match>) -> Seq<Match> {
    let s = best_first(c);
    if s.len() > MAX_RESULTS {
        s.take(MAX_RESULTS as int)
    } else {
        s
    }
}

/// The matches of `c` that `top_ranked` leaves out, best first.
pub open spec fn ranked_out(c: Seq<Match>) -> Seq<Match> {
    let s = best_first(c);
    if s.len() > MAX_RESULTS {
        s.skip(MAX_RESULTS as int)
    } else {
        Seq::empty()
    }
}

/// `rank_position` is the rank position, and the only one.
pub proof fn lemma_rank_position(s: Seq<Match>, m: Match)
    ensures
        is_rank_position(s, m, rank_position(s, m)),
        forall|p: int| is_rank_position(s, m, p) ==> p == rank_position(s, m),
    decreases s.len(),
{
    let r = rank_position(s, m);
    if s.len() == 0 || outranks(m, s[0]) {
    } else {
        let t = s.drop_first();
        lemma_rank_position(t, m);
        assert forall|i: int| 0 <= i < r implies !outranks(m, #[trigger] s[i]) by {
            if i > 0 {
                assert(s[i] == t[i - 1]);
            }
        }
        if r < s.len() {
            assert(s[r] == t[r - 1]);
        }
    }
    assert forall|p: int| is_rank_position(s, m, p) implies p == r by {
        if p < r {
            assert(!outranks(m, s[p]));
        } else if r < p {
            assert(!outranks(m, s[r]));
        }
    }
}

/// A match that outranks another outranks all that rank no higher than that one.
pub proof fn lemma_outranks_extends(a: Match, b: Match, c: Match)
    requires
        outranks(a, b),
        ranks_no_lower(b, c),
    ensures
        outranks(a, c),
{
    lemma_outranks_trichotomy(b, c);
    if b != c {
        lemma_outranks_transitive(a, b, c);
    }
}

/// Entering a match at its rank keeps a list in quality order, and adds that
/// match and nothing else.
pub proof fn lemma_rank_insert(s: Seq<Match>, m: Match)
    requires
        is_ranked(s),
    ensures
        is_ranked(rank_insert(s, m)),
        rank_insert(s, m).to_multiset() == s.to_multiset().insert(m),
        rank_insert(s, m).len() == s.len() + 1,
{
    let p = rank_position(s, m);
    let t = rank_insert(s, m);
    lemma_rank_position(s, m);
    to_multiset_insert(s, p, m);
    assert forall|i: int, j: int| 0 <= i < j < t.len() implies #[trigger] quality()(t[i], t[j]) by {
        if j == p {
            assert(t[i] == s[i]);
        } else if i == p {
            assert(t[j] == s[j - 1]);
            assert(quality()(s[p], s[j - 1]) || p == j - 1);
            if outranks(s[j - 1], m) {
                lemma_outranks_trichotomy(s[j - 1], m);
                lemma_outranks_extends(m, s[p], s[j - 1]);
            }
        } else {
            let a = if i < p { i } else { i - 1 };
            let b = if j < p { j } else { j - 1 };
            assert(t[i] == s[a] && t[j] == s[b]);
            assert(quality()(s[a], s[b]));
        }
    }
}

/// Sorting nothing gives nothing.
pub proof fn lemma_top_ranked_of_none()
    ensures
        top_ranked(Seq::<Match>::empty()) == Seq::<Match>::empty(),
{
    let e = Seq::<Match>::empty();
    lemma_quality_is_total_order();
    e.lemma_sort_by_ensures(quality());
    to_multiset_len(e);
    to_multiset_len(best_first(e));
    assert(best_first(e) =~= e);
}

/// All matches in quality order: the order holds, and the matches are those
/// that were given, each as often as it was given.
pub proof fn lemma_best_first(c: Seq<Match>)
    ensures
        is_ranked(best_first(c)),
        best_first(c).to_multiset() == c.to_multiset(),
        best_first(c).len() == c.len(),
{
    lemma_quality_is_total_order();
    c.lemma_sort_by_ensures(quality());
    to_multiset_len(c);
    to_multiset_len(best_first(c));
}

/// One more match: the best of all are the best so far with the new match
/// entered at its rank, cut back to the limit.
pub proof fn lemma_top_ranked_step(c: Seq<Match>, m: Match)
    ensures
        top_ranked(c.push(m)) == within_limit(rank_insert(top_ranked(c), m)),
{
    let s = best_first(c);
    let s2 = best_first(c.push(m));
    lemma_best_first(c);
    lemma_best_first(c.push(m));
    lemma_quality_is_total_order();
    let t = rank_insert(s, m);
    lemma_rank_insert(s, m);
    to_multiset_build(c, m);
    lemma_sorted_unique(t, s2, quality());
    assert(t == s2);
    let p = rank_position(s, m);
    lemma_rank_position(s, m);
    let top = top_ranked(c);
    let k = top.len() as int;
    let q = if p < k { p } else { k };
    assert(is_rank_position(top, m, q)) by {
        assert forall|i: int| 0 <= i < q implies !outranks(m, #[trigger] top[i]) by {
            assert(top[i] == s[i]);
        }
        if q < k {
            assert(top[q] == s[q]);
        }
    }
    lemma_rank_position(top, m);
    let u = rank_insert(top, m);
    assert(u == top.insert(q, m));
    assert(top_ranked(c.push(m)) =~= within_limit(u));
}

/// A search returns no more than `MAX_RESULTS` matches, and all of them where
/// there are no more than that.
pub proof fn lemma_top_ranked_len(c: Seq<Match>)
    ensures
        top_ranked(c).len() <= MAX_RESULTS,
        top_ranked(c).len() == if c.len() > MAX_RESULTS {
            MAX_RESULTS as int
        } else {
            c.len() as int
        },
        is_ranked(top_ranked(c)),
{
    lemma_best_first(c);
}

/// In a ranked list every exact match stands before every match that is not
/// exact, whatever their scores.
pub proof fn lemma_exact_matches_lead(s: Seq<Match>, i: int, j: int)
    requires
        is_ranked(s),
        0 <= i < s.len(),
        0 <= j < s.len(),
        s[i].is_exact,
        !s[j].is_exact,
    ensures
        i < j,
{
    if j < i {
        assert(quality()(s[j], s[i]));
    }
}

/// In a ranked list, of two matches of equal exactness the one with the
/// higher score stands first, and of two that are also of equal score the one
/// with the lexicographically smaller key.
pub proof fn lemma_ties_in_order(s: Seq<Match>, i: int, j: int)
    requires
        is_ranked(s),
        0 <= i < s.len(),
        0 <= j < s.len(),
        s[i].is_exact == s[j].is_exact,
        s[i].value > s[j].value || (s[i].value == s[j].value && key_precedes(s[i].key, s[j].key)),
    ensures
        i < j,
{
    lemma_outranks_trichotomy(s[i], s[j]);
    if j < i {
        assert(quality()(s[j], s[i]));
    }
}

/// The matches that are returned and those that are left out are together
/// the matches that were given, and none that is left out is better than any
/// that is returned.
pub proof fn lemma_top_ranked_are_best(c: Seq<Match>)
    ensures
        top_ranked(c).to_multiset().add(ranked_out(c).to_multiset()) == c.to_multiset(),
        forall|i: int, j: int|
            0 <= i < top_ranked(c).len() && 0 <= j < ranked_out(c).len() ==> ranks_no_lower(
                #[trigger] top_ranked(c)[i],
                #[trigger] ranked_out(c)[j],
            ),
{
    let s = best_first(c);
    lemma_best_first(c);
    lemma_multiset_commutative(top_ranked(c), ranked_out(c));
    assert(top_ranked(c) + ranked_out(c) =~= s);
    assert forall|i: int, j: int|
        0 <= i < top_ranked(c).len() && 0 <= j < ranked_out(c).len() implies ranks_no_lower(
        #[trigger] top_ranked(c)[i],
        #[trigger] ranked_out(c)[j],
    ) by {
        assert(quality()(s[i], s[MAX_RESULTS + j]));
    }
}

/// A list of matches that is kept in quality order, best first.
pub struct Shortlist {
    items: Vec<SearchResult>,
}

impl View for Shortlist {
    type V = Seq<Match>;

    closed spec fn view(&self) -> Seq<Match> {
        self.items.deep_view()
    }
}

impl Shortlist {
    #[verifier::type_invariant]
    spec fn ranked(&self) -> bool {
        is_ranked(self.items.deep_view())
    }

    /// An empty list with room for `capacity` matches.
    pub fn with_capacity(capacity: usize) -> (r: Shortlist)
        ensures
            r@ == Seq::<Match>::empty(),
    {
        let items: Vec<SearchResult> = Vec::with_capacity(capacity);
        assert(items.deep_view() =~= Seq::<Match>::empty());
        Shortlist { items }
    }

    /// The number of matches held.
    pub fn len(&self) -> (n: usize)
        ensures
            n == self@.len(),
    {
        self.items.len()
    }

    /// Enters `item` at its rank.
    pub fn push(&mut self, item: SearchResult)
        ensures
            final(self)@ == rank_insert(old(self)@, item@),
            ({
                let p = rank_position(old(self)@, item@);
                &&& is_rank_position(old(self)@, item@, p)
                &&& forall|i: int| 0 <= i < p ==> !outranks(item@, #[trigger] final(self)@[i])
                &&& forall|i: int|
                    p < i < final(self)@.len() ==> outranks(item@, #[trigger] final(self)@[i])
            }),
            is_ranked(final(self)@),
    {
        proof {
            use_type_invariant(&*self);
        }
        let ghost before = self@;
        let mut items: Vec<SearchResult> = Vec::new();
        core::mem::swap(&mut self.items, &mut items);
        let mut i: usize = items.len();
        while i > 0 && item.outranks(&items[i - 1])
            invariant
                i <= items.len(),
                items.deep_view() == before,
                forall|j: int| i <= j < before.len() ==> outranks(item@, #[trigger] before[j]),
            decreases i,
        {
            assert(items[i - 1]@ == before[i - 1]);
            i -= 1;
        }
        proof {
            if i > 0 {
                assert(items[i - 1]@ == before[i - 1]);
            }
            assert forall|j: int| 0 <= j < i implies !outranks(item@, #[trigger] before[j]) by {
                if j < i - 1 && outranks(item@, before[j]) {
                    assert(quality()(before[j], before[i - 1]));
                    lemma_outranks_extends(item@, before[j], before[i - 1]);
                }
            }
            assert(is_rank_position(before, item@, i as int));
            lemma_rank_position(before, item@);
            lemma_rank_insert(before, item@);
        }
        let ghost entered = item@;
        items.insert(i, item);
        assert(items.deep_view() =~= before.insert(i as int, entered));
        assert forall|j: int| i < j < items.len() implies outranks(
            entered,
            #[trigger] items.deep_view()[j],
        ) by {
            assert(items.deep_view()[j] == before[j - 1]);
        }
        core::mem::swap(&mut self.items, &mut items);
    }

    /// Takes the worst match out of the list, if it holds any.
    pub fn pop(&mut self) -> (r: Option<SearchResult>)
        ensures
            old(self)@.len() == 0 ==> r is None && final(self)@ == old(self)@,
            old(self)@.len() > 0 ==> r is Some && r->0@ == old(self)@.last() && final(self)@
                == old(self)@.drop_last(),
            is_ranked(final(self)@),
    {
        proof {
            use_type_invariant(&*self);
        }
        let ghost before = self@;
        let mut items: Vec<SearchResult> = Vec::new();
        core::mem::swap(&mut self.items, &mut items);
        let r = items.pop();
        assert(items.deep_view() =~= if before.len() > 0 {
            before.drop_last()
        } else {
            before
        });
        core::mem::swap(&mut self.items, &mut items);
        r
    }

    /// The matches, best first.
    pub fn into_sorted_vec(self) -> (r: Vec<SearchResult>)
        ensures
            r.deep_view() == self@,
            r.len() == self@.len(),
            forall|i: int| 0 <= i < r.len() ==> (#[trigger] r[i])@ == self@[i],
            is_ranked(r.deep_view()),
    {
        proof {
            use_type_invariant(&self);
        }
        self.items
    }
}

} // verus!
