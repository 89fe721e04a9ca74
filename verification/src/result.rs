//! Search results.

use vstd::prelude::*;

verus! {

/// One entry of a result list.
#[derive(Debug)]
pub struct SearchResult {
    /// The absolute path of the entry.
    pub path: String,
    /// The display name: the last piece of the path.
    pub name: String,
    /// The score of the entry for the query at hand; zero until it is
    /// ranked.
    pub score: i128,
}

/// What a search result stands for.
pub struct Hit {
    pub path: Seq<char>,
    pub name: Seq<char>,
    pub score: int,
}

impl View for SearchResult {
    type V = Hit;

    open spec fn view(&self) -> Hit {
        Hit { path: self.path@, name: self.name@, score: self.score as int }
    }
}

/// What a list of search results stands for.
pub open spec fn hits(results: Seq<SearchResult>) -> Seq<Hit> {
    results.map_values(|r: SearchResult| r@)
}

/// The paths of a list of hits.
pub open spec fn paths(list: Seq<Hit>) -> Seq<Seq<char>> {
    list.map_values(|h: Hit| h.path)
}

impl SearchResult {
    /// A copy of this result.
    pub fn duplicate(&self) -> (copy: SearchResult)
        ensures
            copy@ == self@,
    {
        SearchResult { path: self.path.clone(), name: self.name.clone(), score: self.score }
    }
}

} // verus!
