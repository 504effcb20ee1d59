//! What the request handlers decide: which query a request asks for, what a
//! search at the service's distance answers, and what is answered and
//! recorded once the search has run, or has failed to.

use vstd::prelude::*;
use vstd::utf8::encode_utf8;
use crate::index::{Index, value_of};
use crate::models::{Listing, Search, SearchQuery};
use crate::render::{decimal_digits, decimal_string};
use crate::search::{perform_search, search_results};
use crate::ranking::MAX_RESULTS;
use crate::text::{normalize, normalized, trim, trimmed};

verus! {

/// The edit distance within which the service matches.
pub const MATCH_DISTANCE: u32 = 1;

/// What a request is answered with, and whether the history records it as
/// found.
pub struct Outcome {
    pub results: Vec<SearchQuery>,
    pub found: bool,
}

/// The query that a request asks for, as it is searched and recorded: the
/// parameter without white space at either end.
pub fn requested_query(params: &Search) -> (r: String)
    ensures
        r@ == trimmed(params.q@),
{
    trim(params.q.as_str()).to_owned()
}

/// The search that the service runs for a query: within `MATCH_DISTANCE`.
pub fn search(index: &Index, query: &str) -> (r: Vec<SearchQuery>)
    ensures
        r.deep_view() == search_results(index@, query@, MATCH_DISTANCE),
        r.len() <= MAX_RESULTS,
{
    perform_search(index, query, MATCH_DISTANCE)
}

/// What is answered once the search has come back, or has not (`None`): its
/// results, or nothing. The query counts as found where anything is answered.
pub fn conclude(searched: Option<Vec<SearchQuery>>) -> (r: Outcome)
    ensures
        searched is Some ==> r.results == searched->0,
        searched is None ==> r.results@.len() == 0,
        r.found == (r.results@.len() > 0),
{
    let results = match searched {
        Some(results) => results,
        None => Vec::new(),
    };
    let found = !results.is_empty();
    Outcome { results, found }
}

/// The answer to a lookup of the normalized query itself: one entry where the
/// index holds it as a key, else none.
pub open spec fn exact_results(entries: Seq<(Seq<u8>, u64)>, raw: Seq<char>) -> Seq<Listing> {
    let query = normalized(raw);
    match value_of(entries, encode_utf8(query)) {
        Some(value) => seq![
            Listing { found: query, score: decimal_digits(value as nat), exist: true },
        ],
        None => Seq::empty(),
    }
}

/// Looks the normalized query up as a key of the index.
pub fn find_exact(index: &Index, raw: &str) -> (r: Vec<SearchQuery>)
    ensures
        r.deep_view() == exact_results(index@, raw@),
{
    let query = normalize(raw);
    let mut result: Vec<SearchQuery> = Vec::new();
    if let Some(score_value) = index.get(query.as_str().as_bytes()) {
        let score = decimal_string(score_value);
        result.push(SearchQuery { found: query, score, exist: true });
    }
    assert(result.deep_view() =~= exact_results(index@, raw@));
    result
}

} // verus!
