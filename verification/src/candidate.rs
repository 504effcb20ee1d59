//! One match of a search, as the ranking holds it.

use std::cmp::Ordering;
use vstd::prelude::*;
use vstd::std_specs::cmp::{PartialEqSpecImpl, PartialOrdSpecImpl};
use crate::order::{Match, outranks, first_mismatch, same_bytes, lemma_outranks_trichotomy};

verus! {

/// One key of the index that the search accepted, with its score.
#[derive(Debug, Clone)]
pub struct SearchResult {
    pub key: Vec<u8>,
    pub value: u64,
    pub is_exact: bool,
}

impl View for SearchResult {
    type V = Match;

    open spec fn view(&self) -> Match {
        Match { key: self.key@, value: self.value, is_exact: self.is_exact }
    }
}

impl DeepView for SearchResult {
    type V = Match;

    open spec fn deep_view(&self) -> Match {
        self@
    }
}

/// The match that a streamed entry stands for when `target` was searched for.
pub open spec fn candidate(key: Seq<u8>, value: u64, target: Seq<u8>) -> Match {
    Match { key, value, is_exact: key == target }
}

/// How two matches compare by quality; the better match is the lesser one.
pub open spec fn quality_order(a: Match, b: Match) -> Ordering {
    if a == b {
        Ordering::Equal
    } else if outranks(a, b) {
        Ordering::Less
    } else {
        Ordering::Greater
    }
}

impl PartialEq for SearchResult {
    /// Two matches are equal where key, score and exactness are.
    fn eq(&self, other: &Self) -> (r: bool) {
        self.value == other.value && self.is_exact == other.is_exact && same_bytes(
            self.key.as_slice(),
            other.key.as_slice(),
        )
    }
}

impl PartialEqSpecImpl for SearchResult {
    open spec fn obeys_eq_spec() -> bool {
        true
    }

    open spec fn eq_spec(&self, other: &Self) -> bool {
        self@ == other@
    }
}

impl Eq for SearchResult {

}

impl PartialOrd for SearchResult {
    /// As `cmp`: the order is total.
    fn partial_cmp(&self, other: &Self) -> (r: Option<Ordering>) {
        Some(self.cmp(other))
    }
}

impl PartialOrdSpecImpl for SearchResult {
    open spec fn obeys_partial_cmp_spec() -> bool {
        true
    }

    open spec fn partial_cmp_spec(&self, other: &Self) -> Option<Ordering> {
        Some(quality_order(self@, other@))
    }
}

impl SearchResult {
    /// The match for an entry of the index: it is exact where the key is the
    /// target, byte for byte.
    pub fn new(key: Vec<u8>, value: u64, target: &[u8]) -> (r: SearchResult)
        ensures
            r@ == candidate(key@, value, target@),
    {
        let is_exact = same_bytes(key.as_slice(), target);
        SearchResult { key, value, is_exact }
    }

    /// Compares by quality; the better match is the lesser one: an exact match
    /// before one that is not, then the higher score, then the key that comes
    /// first.
    pub fn cmp(&self, other: &Self) -> (r: Ordering)
        ensures
            r == quality_order(self@, other@),
    {
        proof {
            lemma_outranks_trichotomy(self@, other@);
        }
        if self.is_exact != other.is_exact {
            if self.is_exact {
                Ordering::Less
            } else {
                Ordering::Greater
            }
        } else if self.value != other.value {
            if self.value > other.value {
                Ordering::Less
            } else {
                Ordering::Greater
            }
        } else {
            let k = first_mismatch(self.key.as_slice(), other.key.as_slice());
            if k == self.key.len() {
                if k == other.key.len() {
                    Ordering::Equal
                } else {
                    Ordering::Less
                }
            } else if k == other.key.len() {
                Ordering::Greater
            } else if self.key[k] < other.key[k] {
                Ordering::Less
            } else {
                Ordering::Greater
            }
        }
    }

    /// Whether `self` is strictly better than `other`.
    pub fn outranks(&self, other: &Self) -> (r: bool)
        ensures
            r == outranks(self@, other@),
    {
        proof {
            lemma_outranks_trichotomy(self@, other@);
        }
        match self.cmp(other) {
            Ordering::Less => true,
            _ => false,
        }
    }
}

} // verus!
