//! From ranked matches to the entries of an answer.

use std::borrow::Cow;
use vstd::prelude::*;
use vstd::utf8::{
    decode_utf8, encode_utf8, encode_utf8_decode_utf8, encode_utf8_valid_utf8, valid_utf8,
};
use crate::candidate::SearchResult;
use crate::models::{Listing, SearchQuery};
use crate::order::Match;

verus! {

/// The text that `String::from_utf8_lossy` makes of bytes that are not UTF-8:
/// the characters of the parts that are, with U+FFFD in place of each part
/// that is not.
pub uninterp spec fn lossy_text(bytes: Seq<u8>) -> Seq<char>;

/// The text of a key: its characters where its bytes are UTF-8, else what
/// `lossy_text` makes of them.
pub open spec fn key_text(bytes: Seq<u8>) -> Seq<char> {
    if valid_utf8(bytes) {
        decode_utf8(bytes)
    } else {
        lossy_text(bytes)
    }
}

/// `String::from_utf8_lossy` returns bytes that are UTF-8 as the string that
/// they encode. Of other bytes it makes a text that depends on the bytes
/// alone, which `lossy_text` names.
pub assume_specification<'a>[ String::from_utf8_lossy ](v: &'a [u8]) -> (r: Cow<'a, str>)
    ensures
        r@ == if valid_utf8(v@) {
            decode_utf8(v@)
        } else {
            lossy_text(v@)
        },
;

/// The character of a decimal digit.
pub open spec fn digit_char(d: nat) -> char {
    if d == 0 {
        '0'
    } else if d == 1 {
        '1'
    } else if d == 2 {
        '2'
    } else if d == 3 {
        '3'
    } else if d == 4 {
        '4'
    } else if d == 5 {
        '5'
    } else if d == 6 {
        '6'
    } else if d == 7 {
        '7'
    } else if d == 8 {
        '8'
    } else {
        '9'
    }
}

/// A number in decimal digits, without leading zeros.
pub open spec fn decimal_digits(n: nat) -> Seq<char>
    decreases n,
{
    if n < 10 {
        seq![digit_char(n)]
    } else {
        decimal_digits(n / 10).push(digit_char(n % 10))
    }
}

/// `u64`'s `to_string`: the number in decimal digits.
#[verifier::external_body]
pub(crate) fn decimal_string(value: u64) -> (r: String)
    ensures
        r@ == decimal_digits(value as nat),
{
    value.to_string()
}

/// The entry that answers with a match.
pub open spec fn listing(m: Match) -> Listing {
    Listing { found: key_text(m.key), score: decimal_digits(m.value as nat), exist: true }
}

/// The entries that answer with the matches, in their order.
pub open spec fn rendered(matches: Seq<Match>) -> Seq<Listing> {
    Seq::new(matches.len(), |i: int| listing(matches[i]))
}

/// A key whose bytes encode a string is shown as that string: an exact match
/// is shown as the query that was searched for.
pub proof fn lemma_text_of_encoded(text: Seq<char>)
    ensures
        key_text(encode_utf8(text)) == text,
{
    encode_utf8_valid_utf8(text);
    encode_utf8_decode_utf8(text);
}

/// The key as text.
fn text_of_key(key: &[u8]) -> (r: String)
    ensures
        r@ == key_text(key@),
{
    match String::from_utf8_lossy(key) {
        Cow::Borrowed(text) => text.to_owned(),
        Cow::Owned(text) => text,
    }
}

impl SearchQuery {
    /// The entry that answers with a match: its key as text, its score in
    /// decimal digits.
    pub fn from_result(result: &SearchResult) -> (r: SearchQuery)
        ensures
            r@ == listing(result@),
    {
        SearchQuery {
            found: text_of_key(result.key.as_slice()),
            score: decimal_string(result.value),
            exist: true,
        }
    }
}

/// The entries that answer with the matches, in their order.
pub fn render(results: &Vec<SearchResult>) -> (r: Vec<SearchQuery>)
    ensures
        r.deep_view() == rendered(results.deep_view()),
        r.len() == results.len(),
        forall|i: int| 0 <= i < r.len() ==> (#[trigger] r[i])@ == listing(results[i]@),
{
    let mut out: Vec<SearchQuery> = Vec::with_capacity(results.len());
    let mut i: usize = 0;
    while i < results.len()
        invariant
            i <= results.len(),
            out.len() == i,
            forall|j: int| 0 <= j < i ==> (#[trigger] out[j])@ == listing(results[j]@),
        decreases results.len() - i,
    {
        out.push(SearchQuery::from_result(&results[i]));
        i += 1;
    }
    assert(out.deep_view() =~= rendered(results.deep_view()));
    out
}

} // verus!
