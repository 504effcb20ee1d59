//! Approximate lookup in a static dictionary: a query is normalized, matched
//! against a sorted key-to-score index within a bounded edit distance, and the
//! matches are ranked so that at most ten of them are returned, best first.

pub mod text;
pub mod order;
pub mod candidate;
pub mod ranking;
pub mod index;
pub mod models;
pub mod render;
pub mod search;
pub mod service;

pub use candidate::SearchResult;
pub use index::Index;
pub use ranking::{Shortlist, MAX_RESULTS};
pub use search::{perform_search, rank_stream};
pub use text::normalize;
