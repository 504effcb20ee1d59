//! The values that the service takes and gives.

use vstd::prelude::*;

verus! {

/// What the health check answers.
#[derive(Debug)]
pub struct HealthResponse {
    pub status: &'static str,
    pub version: &'static str,
}

/// The parameters of a search request.
#[derive(Debug, Clone, PartialEq, Eq)]
pub struct Search {
    pub q: String,
}

/// One entry of a search's answer.
#[derive(Debug, Clone, PartialEq, Eq)]
pub struct SearchQuery {
    pub found: String,
    pub score: String,
    pub exist: bool,
}

/// An entry of an answer, by its characters.
pub struct Listing {
    pub found: Seq<char>,
    pub score: Seq<char>,
    pub exist: bool,
}

impl View for SearchQuery {
    type V = Listing;

    open spec fn view(&self) -> Listing {
        Listing { found: self.found@, score: self.score@, exist: self.exist }
    }
}

impl DeepView for SearchQuery {
    type V = Listing;

    open spec fn deep_view(&self) -> Listing {
        self@
    }
}

impl HealthResponse {
    /// The answer of a server that runs, with the version that it runs.
    pub fn healthy(version: &'static str) -> (r: HealthResponse)
        ensures
            r.status@ == "Server healthy"@,
            r.version@ == version@,
    {
        HealthResponse { status: "Server healthy", version }
    }
}

} // verus!
