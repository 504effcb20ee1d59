//! The index and the edit-distance automaton: what the search has from the
//! `fst` crate. The contracts on `fst`'s own functions are taken on trust;
//! each says what it claims.

use vstd::prelude::*;
use fst::automaton::{Levenshtein, LevenshteinError};
use crate::order::key_precedes;

verus! {

/// `fst::Map`, the sorted map from keys to scores, as an opaque value.
#[verifier::external_type_specification]
#[verifier::external_body]
#[verifier::reject_recursive_types(D)]
pub struct ExIndexMap<D>(fst::Map<D>);

/// `fst::automaton::Levenshtein`, the edit-distance automaton, as an opaque
/// value.
#[verifier::external_type_specification]
#[verifier::external_body]
pub struct ExLevenshtein(Levenshtein);

/// `fst::automaton::LevenshteinError`, as an opaque value.
#[verifier::external_type_specification]
#[verifier::external_body]
pub struct ExLevenshteinError(LevenshteinError);

/// `fst::Error`, as an opaque value.
#[verifier::external_type_specification]
#[verifier::external_body]
pub struct ExIndexError(fst::Error);

/// A running search: `fst::map::Stream` over the keys that a Levenshtein
/// automaton accepts, held as an opaque value. The stream borrows the index
/// for as long as it runs.
#[verifier::external_body]
pub struct MatchStream<'m> {
    inner: fst::map::Stream<'m, Levenshtein>,
}

/// The entries of an index, each a key with its score, in the ascending key
/// order in which the index keeps them; `None` where the bytes that the index
/// was made of are no well-formed transducer, on which `fst` may panic.
pub uninterp spec fn index_entries(index: fst::Map<Vec<u8>>) -> Option<Seq<(Seq<u8>, u64)>>;

/// The set of keys that the automaton built for a query and a distance
/// accepts; `None` where `Levenshtein::new` gives up on building it.
pub uninterp spec fn levenshtein_language(query: Seq<char>, distance: u32) -> Option<
    Set<Seq<u8>>,
>;

/// The set of keys that an automaton accepts.
pub uninterp spec fn accepted_keys(automaton: Levenshtein) -> Set<Seq<u8>>;

/// The entries that a stream has yet to yield, in the order in which it will
/// yield them.
pub uninterp spec fn pending_matches(stream: MatchStream) -> Seq<(Seq<u8>, u64)>;

/// The entries whose key is in `language`.
pub open spec fn key_accepted(language: Set<Seq<u8>>) -> spec_fn((Seq<u8>, u64)) -> bool {
    |e: (Seq<u8>, u64)| language.contains(e.0)
}

/// The entries whose key is in `language`, in their order.
pub open spec fn accepted(entries: Seq<(Seq<u8>, u64)>, language: Set<Seq<u8>>) -> Seq<
    (Seq<u8>, u64),
> {
    entries.filter(key_accepted(language))
}

/// The score of the first entry with the given key, if there is one.
pub open spec fn value_of(entries: Seq<(Seq<u8>, u64)>, key: Seq<u8>) -> Option<u64>
    decreases entries.len(),
{
    if entries.len() == 0 {
        None
    } else if entries.first().0 == key {
        Some(entries.first().1)
    } else {
        value_of(entries.drop_first(), key)
    }
}

/// Each key comes strictly after the one before it, in lexicographic order.
pub open spec fn keys_ascend(entries: Seq<(Seq<u8>, u64)>) -> bool {
    forall|i: int| 0 < i < entries.len() ==> key_precedes(entries[i - 1].0, #[trigger] entries[i].0)
}

/// `Map::from_iter` on the entries: it builds in memory the index that holds
/// exactly them where each key comes strictly after the one before it, and
/// fails on the first key that does not. What it builds is well formed.
#[verifier::external_body]
fn build_map(entries: &Vec<(Vec<u8>, u64)>) -> (r: Result<fst::Map<Vec<u8>>, fst::Error>)
    ensures
        match r {
            Ok(map) => keys_ascend(entries.deep_view()) && index_entries(map) == Some(
                entries.deep_view(),
            ),
            Err(_) => !keys_ascend(entries.deep_view()),
        },
{
    fst::Map::from_iter(entries.iter().map(|entry| (&entry.0, entry.1)))
}

/// `Levenshtein::new` builds its automaton from the query and the distance and
/// from nothing else, so whether it succeeds, and which keys the automaton
/// then accepts, is fixed by the two. It fails only with `TooManyStates`. (It
/// counts edits up to `distance + 1` in `usize`, which is taken to be wider
/// than `u32`.)
pub assume_specification[ Levenshtein::new ](query: &str, distance: u32) -> (r: Result<
    Levenshtein,
    LevenshteinError,
>)
    ensures
        match r {
            Ok(automaton) => levenshtein_language(query@, distance) == Some(
                accepted_keys(automaton),
            ),
            Err(_) => levenshtein_language(query@, distance) is None,
        },
;

/// `Map::search` followed by `into_stream`: the stream will yield the entries
/// of the index whose key the automaton accepts, in key order.
#[verifier::external_body]
fn open_stream<'m>(index: &'m fst::Map<Vec<u8>>, automaton: Levenshtein) -> (stream:
    MatchStream<'m>)
    requires
        index_entries(*index) is Some,
    ensures
        pending_matches(stream) == accepted(index_entries(*index)->0, accepted_keys(automaton)),
{
    MatchStream { inner: fst::IntoStreamer::into_stream(index.search(automaton)) }
}

/// `Streamer::next` on the stream: the next entry, with its key copied out of
/// the stream's buffer, or `None` once all were yielded.
#[verifier::external_body]
pub(crate) fn next_match(stream: &mut MatchStream<'_>) -> (r: Option<(Vec<u8>, u64)>)
    ensures
        match r {
            Some(entry) => {
                &&& pending_matches(*old(stream)).len() > 0
                &&& (entry.0@, entry.1) == pending_matches(*old(stream)).first()
                &&& pending_matches(*final(stream)) == pending_matches(*old(stream)).drop_first()
            },
            None => {
                &&& pending_matches(*old(stream)).len() == 0
                &&& pending_matches(*final(stream)) == pending_matches(*old(stream))
            },
        },
{
    fst::Streamer::next(&mut stream.inner).map(|(key, value)| (key.to_vec(), value))
}

/// `Map::get`: the score that the index holds for a key, if it holds the key.
#[verifier::external_body]
fn index_get(index: &fst::Map<Vec<u8>>, key: &[u8]) -> (r: Option<u64>)
    requires
        index_entries(*index) is Some,
    ensures
        r == value_of(index_entries(*index)->0, key@),
{
    index.get(key)
}

/// The dictionary: a map from keys to scores that is known to be well formed,
/// because it was built here from its entries.
pub struct Index {
    map: fst::Map<Vec<u8>>,
}

impl View for Index {
    type V = Seq<(Seq<u8>, u64)>;

    /// The entries, in ascending key order.
    closed spec fn view(&self) -> Seq<(Seq<u8>, u64)> {
        index_entries(self.map)->0
    }
}

impl Index {
    #[verifier::type_invariant]
    spec fn well_formed(&self) -> bool {
        index_entries(self.map) is Some
    }

    /// The index of the given entries. There is one where each key comes
    /// strictly after the one before it, and only there.
    pub fn from_entries(entries: &Vec<(Vec<u8>, u64)>) -> (r: Option<Index>)
        ensures
            r is Some <==> keys_ascend(entries.deep_view()),
            r is Some ==> r->0@ == entries.deep_view(),
    {
        match build_map(entries) {
            Ok(map) => Some(Index { map }),
            Err(_) => None,
        }
    }

    /// The stream of the entries whose key the automaton accepts.
    pub fn search(&self, automaton: Levenshtein) -> (stream: MatchStream<'_>)
        ensures
            pending_matches(stream) == accepted(self@, accepted_keys(automaton)),
    {
        proof {
            use_type_invariant(self);
        }
        open_stream(&self.map, automaton)
    }

    /// The score that the index holds for a key, if it holds the key.
    pub fn get(&self, key: &[u8]) -> (r: Option<u64>)
        ensures
            r == value_of(self@, key@),
    {
        proof {
            use_type_invariant(self);
        }
        index_get(&self.map, key)
    }
}

} // verus!
