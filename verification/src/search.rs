//! The search itself: normalize the query, build the automaton, stream the
//! matching entries of the index through the short list, and answer with the
//! best of them.

use vstd::prelude::*;
use vstd::seq_lib::to_multiset_contains;
use vstd::utf8::encode_utf8;
use fst::automaton::Levenshtein;
use crate::candidate::{SearchResult, candidate};
use crate::index::{
    Index, MatchStream, accepted, key_accepted, levenshtein_language, next_match,
    pending_matches,
};
use crate::models::{Listing, SearchQuery};
use crate::order::{Match, key_precedes};
use crate::ranking::{
    MAX_RESULTS, Shortlist, best_first, is_ranked, top_ranked, lemma_best_first,
    lemma_exact_matches_lead, lemma_ties_in_order, lemma_top_ranked_len, lemma_top_ranked_of_none,
    lemma_top_ranked_step,
};
use crate::render::{render, rendered};
use crate::text::{normalize, normalized};

verus! {

/// The matches that entries of the index stand for when `target` was searched
/// for, in the entries' order.
pub open spec fn candidates(entries: Seq<(Seq<u8>, u64)>, target: Seq<u8>) -> Seq<Match> {
    Seq::new(entries.len(), |i: int| candidate(entries[i].0, entries[i].1, target))
}

/// The ranked matches of a search for `target` in `entries`, where `language`
/// is what the automaton accepts: none where no automaton could be built, else
/// the best of the entries whose key it accepts.
pub open spec fn ranked_matches(
    entries: Seq<(Seq<u8>, u64)>,
    target: Seq<u8>,
    language: Option<Set<Seq<u8>>>,
) -> Seq<Match> {
    match language {
        Some(keys) => top_ranked(candidates(accepted(entries, keys), target)),
        None => Seq::empty(),
    }
}

/// The answer to a raw query within a distance, over the entries of an index.
pub open spec fn search_results(entries: Seq<(Seq<u8>, u64)>, raw: Seq<char>, distance: u32) -> Seq<
    Listing,
> {
    let query = normalized(raw);
    rendered(ranked_matches(entries, encode_utf8(query), levenshtein_language(query, distance)))
}

/// What a search ranks: no more than `MAX_RESULTS` matches, in quality order,
/// each of them an entry of the index whose key the automaton accepts, and
/// exact where that key is the target. All accepted entries are among them
/// where there are no more than `MAX_RESULTS`.
pub proof fn lemma_ranked_matches(
    entries: Seq<(Seq<u8>, u64)>,
    target: Seq<u8>,
    language: Option<Set<Seq<u8>>>,
)
    ensures
        ranked_matches(entries, target, language).len() <= MAX_RESULTS,
        is_ranked(ranked_matches(entries, target, language)),
        language is Some ==> ranked_matches(entries, target, language).len() == if accepted(
            entries,
            language->0,
        ).len() > MAX_RESULTS {
            MAX_RESULTS as int
        } else {
            accepted(entries, language->0).len() as int
        },
        forall|i: int|
            0 <= i < ranked_matches(entries, target, language).len() ==> {
                let m = #[trigger] ranked_matches(entries, target, language)[i];
                &&& entries.contains((m.key, m.value))
                &&& language->0.contains(m.key)
                &&& m.is_exact == (m.key == target)
            },
{
    match language {
        Some(keys) => {
            let hits = accepted(entries, keys);
            let c = candidates(hits, target);
            let top = top_ranked(c);
            lemma_top_ranked_len(c);
            assert forall|i: int| 0 <= i < top.len() implies {
                let m = #[trigger] top[i];
                &&& entries.contains((m.key, m.value))
                &&& keys.contains(m.key)
                &&& m.is_exact == (m.key == target)
            } by {
                let m = top[i];
                let s = best_first(c);
                lemma_best_first(c);
                assert(s[i] == m);
                assert(s.contains(m));
                to_multiset_contains(s, m);
                to_multiset_contains(c, m);
                assert(c.contains(m));
                let k = choose|k: int| 0 <= k < c.len() && c[k] == m;
                entries.lemma_filter_pred(key_accepted(keys), k);
                assert(hits.contains(hits[k]));
                entries.lemma_filter_contains_rev(key_accepted(keys), hits[k]);
            }
        },
        None => {},
    }
}

/// Among the matches that a search ranks, every exact one stands before every
/// one that is not exact, whatever their scores.
pub proof fn lemma_search_ranks_exact_first(
    entries: Seq<(Seq<u8>, u64)>,
    target: Seq<u8>,
    language: Option<Set<Seq<u8>>>,
    i: int,
    j: int,
)
    requires
        0 <= i < ranked_matches(entries, target, language).len(),
        0 <= j < ranked_matches(entries, target, language).len(),
        ranked_matches(entries, target, language)[i].is_exact,
        !ranked_matches(entries, target, language)[j].is_exact,
    ensures
        i < j,
{
    lemma_ranked_matches(entries, target, language);
    lemma_exact_matches_lead(ranked_matches(entries, target, language), i, j);
}

/// Among the matches that a search ranks, of two of equal exactness the one
/// with the higher score stands first, and of two that are also of equal
/// score the one with the lexicographically smaller key.
pub proof fn lemma_search_breaks_ties(
    entries: Seq<(Seq<u8>, u64)>,
    target: Seq<u8>,
    language: Option<Set<Seq<u8>>>,
    i: int,
    j: int,
)
    requires
        0 <= i < ranked_matches(entries, target, language).len(),
        0 <= j < ranked_matches(entries, target, language).len(),
        ranked_matches(entries, target, language)[i].is_exact == ranked_matches(
            entries,
            target,
            language,
        )[j].is_exact,
        ({
            let a = ranked_matches(entries, target, language)[i];
            let b = ranked_matches(entries, target, language)[j];
            a.value > b.value || (a.value == b.value && key_precedes(a.key, b.key))
        }),
    ensures
        i < j,
{
    lemma_ranked_matches(entries, target, language);
    lemma_ties_in_order(ranked_matches(entries, target, language), i, j);
}

/// Searching twice in one index for one query gives one answer.
pub proof fn lemma_search_repeatable(
    entries: Seq<(Seq<u8>, u64)>,
    raw: Seq<char>,
    distance: u32,
    first: Seq<Listing>,
    second: Seq<Listing>,
)
    requires
        first == search_results(entries, raw, distance),
        second == search_results(entries, raw, distance),
    ensures
        first == second,
{
}

/// Ranks what a stream yields: the best `MAX_RESULTS` of its entries, best
/// first, however many it yields. No more than `MAX_RESULTS + 1` matches are
/// held at any time.
pub fn rank_stream(stream: MatchStream<'_>, target: &[u8]) -> (r: Vec<SearchResult>)
    ensures
        r.deep_view() == top_ranked(candidates(pending_matches(stream), target@)),
        r.len() <= MAX_RESULTS,
        is_ranked(r.deep_view()),
{
    let mut stream = stream;
    let mut shortlist = Shortlist::with_capacity(MAX_RESULTS + 1);
    let ghost all = pending_matches(stream);
    let ghost mut seen: Seq<(Seq<u8>, u64)> = Seq::empty();
    proof {
        lemma_top_ranked_of_none();
        assert(candidates(seen, target@) =~= Seq::<Match>::empty());
        assert(seen + pending_matches(stream) =~= all);
    }
    loop
        invariant_except_break
            seen + pending_matches(stream) == all,
            shortlist@ == top_ranked(candidates(seen, target@)),
        ensures
            shortlist@ == top_ranked(candidates(all, target@)),
        decreases pending_matches(stream).len(),
    {
        let ghost before = pending_matches(stream);
        match next_match(&mut stream) {
            None => {
                assert(seen + before =~= seen);
                break ;
            },
            Some((key, value)) => {
                let ghost entry = (key@, value);
                let ghost so_far = candidates(seen, target@);
                proof {
                    lemma_top_ranked_step(so_far, candidate(key@, value, target@));
                    lemma_best_first(so_far);
                    assert(candidates(seen.push(entry), target@) =~= so_far.push(
                        candidate(key@, value, target@),
                    ));
                    assert(seen.push(entry) + before.drop_first() =~= seen + before);
                    seen = seen.push(entry);
                }
                shortlist.push(SearchResult::new(key, value, target));
                if shortlist.len() > MAX_RESULTS {
                    shortlist.pop();
                }
            },
        }
    }
    proof {
        lemma_top_ranked_len(candidates(all, target@));
    }
    shortlist.into_sorted_vec()
}

/// Searches the index for the keys within `max_distance` edits of the
/// normalized query and answers with the best `MAX_RESULTS` of them, best
/// first. A query for which no automaton can be built is answered with
/// nothing.
pub fn perform_search(fst_map: &Index, query: &str, max_distance: u32) -> (r: Vec<SearchQuery>)
    ensures
        r.deep_view() == search_results(fst_map@, query@, max_distance),
        r.len() <= MAX_RESULTS,
        levenshtein_language(normalized(query@), max_distance) is None ==> r.len() == 0,
{
    let query_lower = normalize(query);
    let automaton = match Levenshtein::new(query_lower.as_str(), max_distance) {
        Ok(automaton) => automaton,
        Err(_) => {
            let none: Vec<SearchQuery> = Vec::new();
            assert(none.deep_view() =~= Seq::<Listing>::empty());
            assert(rendered(Seq::<Match>::empty()) =~= Seq::<Listing>::empty());
            return none;
        },
    };
    let stream = fst_map.search(automaton);
    let top = rank_stream(stream, query_lower.as_str().as_bytes());
    render(&top)
}

} // verus!
