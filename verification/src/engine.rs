//! The query engine: both branches of a search brought together, and the
//! state that a running application keeps.

use crate::alias::{first_wins, installed_aliases, pair_texts, AliasTable};
use crate::builtin::builtin_aliases;
use crate::history::{clicked, decoded_counts, encoded_counts, ClickHistory};
use crate::index::{GlobalIndex, IndexState};
use crate::merge::{
    distinct_paths, first_of_each, lemma_first_of_each, lemma_ranked_distinct,
    lemma_truncated_distinct, merge,
};
use crate::native::{all_native_paths, read_outputs};
use crate::query::{Query, QueryTerms};
use crate::rank::{descending, lemma_ranked_descending, rank, ranked, truncated};
use crate::result::{hits, Hit, SearchResult};
use crate::scan::{found_all, scan_index, scan_paths};
use crate::score::{score_all, scored};
use crate::segment::{blank, is_blank, words};
use crate::strategy::{query_text, slice_texts, SearchStrategy, TypeFilter};
use crate::text::{char_texts, chars_of, lowercase, string_of, texts};
use vstd::prelude::*;

verus! {

/// A search returns at most this many results.
pub const RESULT_LIMIT: usize = 100;

/// What both branches found, each path once: the native results first, then
/// those of the scan.
pub open spec fn candidates(
    q: Query,
    index: Seq<Seq<char>>,
    volumes: Seq<Seq<char>>,
    native_outputs: Seq<Seq<char>>,
) -> Seq<Hit> {
    first_of_each(
        found_all(all_native_paths(native_outputs)) + found_all(scan_paths(index, q, volumes)),
    )
}

/// The result of a search: the candidates, scored, in ranked order, cut off
/// at `RESULT_LIMIT`.
pub open spec fn search_hits(
    q: Query,
    index: Seq<Seq<char>>,
    volumes: Seq<Seq<char>>,
    native_outputs: Seq<Seq<char>>,
    clicks: Map<Seq<char>, u32>,
) -> Seq<Hit> {
    truncated(
        ranked(scored(candidates(q, index, volumes, native_outputs), q, clicks)),
        RESULT_LIMIT as nat,
    )
}

/// Scoring changes no path.
pub proof fn lemma_scored_distinct(list: Seq<Hit>, q: Query, clicks: Map<Seq<char>, u32>)
    requires
        distinct_paths(list),
    ensures
        distinct_paths(scored(list, q, clicks)),
{
    let out = scored(list, q, clicks);
    assert forall|i: int, j: int| 0 <= i < j < out.len() implies (#[trigger] out[i]).path != (
    #[trigger] out[j]).path by {
        assert(out[i].path == list[i].path);
        assert(out[j].path == list[j].path);
    }
}

/// Law: no path stands twice in the result of a search, the result is in
/// descending order of score, and it is no longer than `RESULT_LIMIT`.
pub proof fn lemma_search_hits(
    q: Query,
    index: Seq<Seq<char>>,
    volumes: Seq<Seq<char>>,
    native_outputs: Seq<Seq<char>>,
    clicks: Map<Seq<char>, u32>,
)
    ensures
        distinct_paths(search_hits(q, index, volumes, native_outputs, clicks)),
        descending(search_hits(q, index, volumes, native_outputs, clicks)),
        search_hits(q, index, volumes, native_outputs, clicks).len() <= RESULT_LIMIT,
{
    let found = candidates(q, index, volumes, native_outputs);
    lemma_first_of_each(
        found_all(all_native_paths(native_outputs)) + found_all(scan_paths(index, q, volumes)),
    );
    lemma_scored_distinct(found, q, clicks);
    lemma_ranked_distinct(scored(found, q, clicks));
    lemma_truncated_distinct(ranked(scored(found, q, clicks)), RESULT_LIMIT as nat);
    lemma_ranked_descending(scored(found, q, clicks));
}

/// Law: a search is a function of what it is given. The same query on the
/// same index, volumes, native output and click history gives the same
/// results in the same order.
pub proof fn lemma_search_is_reproducible(
    q: Query,
    index: Seq<Seq<char>>,
    volumes: Seq<Seq<char>>,
    native_outputs: Seq<Seq<char>>,
    clicks: Map<Seq<char>, u32>,
    first_run: Seq<Hit>,
    second_run: Seq<Hit>,
)
    requires
        first_run == search_hits(q, index, volumes, native_outputs, clicks),
        second_run == search_hits(q, index, volumes, native_outputs, clicks),
    ensures
        first_run == second_run,
{
}

/// A keyword asks for nothing when it is blank as typed or blank in
/// lowercase.
pub open spec fn asks_nothing(keyword: Seq<char>) -> bool {
    blank(keyword) || blank(lowercase(keyword))
}

/// The first step of a search: the query that a keyword and a filter name
/// make against an alias table, or `None` where the keyword asks for
/// nothing and neither branch is to run.
pub fn plan_search(keyword: &str, filter_type: &str, mapping: &AliasTable) -> (plan: Option<
    QueryTerms,
>)
    ensures
        match plan {
            Some(terms) => !asks_nothing(keyword@) && terms@ == Query::of(
                keyword@,
                TypeFilter::named(filter_type@),
                Query::alias_in(keyword@, mapping@),
            ),
            None => asks_nothing(keyword@),
        },
{
    if is_blank(&chars_of(keyword)) {
        return None;
    }
    let terms = QueryTerms::resolve(keyword, TypeFilter::from_name(filter_type), mapping);
    if is_blank(terms.keyword()) {
        return None;
    }
    Some(terms)
}

/// Brings both branches of a search together: reads what the native index
/// printed, scans the in-memory index, drops repeated paths, scores and
/// ranks.
pub fn complete_search(
    terms: &QueryTerms,
    index: &Vec<String>,
    volumes: &Vec<String>,
    native_outputs: &Vec<String>,
    history: &ClickHistory,
) -> (out: Vec<SearchResult>)
    ensures
        hits(out@) == search_hits(
            terms@,
            texts(index@),
            texts(volumes@),
            texts(native_outputs@),
            history@,
        ),
{
    let native = read_outputs(native_outputs);
    let memory = scan_index(index, terms, volumes);
    let both = merge(&native, &memory);
    let with_scores = score_all(&both, terms, history);
    rank(&with_scores, RESULT_LIMIT)
}

/// The strings of a list of character vectors.
fn strings_of(items: &Vec<Vec<char>>) -> (out: Vec<String>)
    ensures
        texts(out@) == char_texts(items@),
{
    let mut out: Vec<String> = Vec::new();
    let mut i: usize = 0;
    while i < items.len()
        invariant
            i <= items.len(),
            texts(out@) == char_texts(items@).take(i as int),
        decreases items.len() - i,
    {
        let ghost before = texts(out@);
        out.push(string_of(&items[i]));
        assert(texts(out@) =~= before.push(items@[i as int]@));
        assert(char_texts(items@).take(i + 1) =~= before.push(items@[i as int]@));
        i += 1;
    }
    assert(char_texts(items@).take(i as int) =~= char_texts(items@));
    out
}

/// The predicate to hand to the native index for a query.
pub fn native_query_for(terms: &QueryTerms) -> (query: String)
    ensures
        query@ == query_text(terms@.filter.kind_predicate(), terms@.words, terms@.alias),
{
    let strategy = SearchStrategy::for_filter(terms.filter());
    let owned = strings_of(terms.words());
    let mut refs: Vec<&str> = Vec::new();
    let mut i: usize = 0;
    while i < owned.len()
        invariant
            i <= owned.len(),
            slice_texts(refs@) == texts(owned@).take(i as int),
        decreases owned.len() - i,
    {
        let ghost before = slice_texts(refs@);
        refs.push(owned[i].as_str());
        assert(slice_texts(refs@) =~= before.push(owned@[i as int]@));
        assert(texts(owned@).take(i + 1) =~= before.push(owned@[i as int]@));
        i += 1;
    }
    assert(texts(owned@).take(i as int) =~= texts(owned@));
    let alias = match terms.alias() {
        Some(name) => Some(string_of(name)),
        None => None,
    };
    strategy.spotlight_query(refs.as_slice(), alias.as_ref())
}

/// What a running application keeps.
pub struct AppCache {
    /// The alias table.
    pub mapping: AliasTable,
    /// The click history.
    pub click_history: ClickHistory,
    /// The path index.
    pub index: GlobalIndex,
}

impl AppCache {
    /// The query that a keyword and a filter name make against this state.
    pub open spec fn query(&self, keyword: Seq<char>, filter_type: Seq<char>) -> Query {
        Query::of(keyword, TypeFilter::named(filter_type), Query::alias_in(keyword, self.mapping@))
    }

    /// The state at start: the built-in aliases, no clicks, an empty index.
    pub fn new() -> (cache: Self)
        ensures
            cache.mapping@ == first_wins(pair_texts(builtin_aliases())),
            cache.click_history@ == Map::<Seq<char>, u32>::empty(),
            cache.index@ == (IndexState {
                files: Seq::empty(),
                indexing: false,
                forced: false,
                last_volumes: Seq::empty(),
                last_scan: 0,
            }),
    {
        AppCache {
            mapping: AliasTable::builtin(),
            click_history: ClickHistory::new(),
            index: GlobalIndex::new(),
        }
    }

    /// Rebuilds the alias table from the built-in aliases and the entries of
    /// the applications directory. The table is replaced as a whole.
    pub fn update(&mut self, application_entries: &Vec<String>)
        ensures
            final(self).mapping@ == first_wins(
                pair_texts(builtin_aliases()) + installed_aliases(texts(application_entries@)),
            ),
            final(self).click_history == old(self).click_history,
            final(self).index == old(self).index,
    {
        self.mapping = AliasTable::rebuild(application_entries);
    }

    /// Takes over the click history of a stored form. Where the text is not
    /// a stored form, the history stays as it is. Returns whether it was
    /// taken over.
    pub fn load_click_history(&mut self, stored: &str) -> (loaded: bool)
        ensures
            loaded == (decoded_counts(stored@) is Some),
            loaded ==> Some(final(self).click_history@) == decoded_counts(stored@),
            !loaded ==> final(self).click_history == old(self).click_history,
            final(self).mapping == old(self).mapping,
            final(self).index == old(self).index,
    {
        match ClickHistory::from_json(stored) {
            Some(history) => {
                self.click_history = history;
                true
            },
            None => false,
        }
    }

    /// The stored form of the click history: the text that replaces what
    /// was stored before. There always is one.
    pub fn save_click_history(&self) -> (stored: Option<String>)
        ensures
            stored is Some,
            stored->0@ == encoded_counts(self.click_history@),
    {
        self.click_history.to_json()
    }

    /// Records one click on `path`. Returns whether the click was counted.
    pub fn record_click(&mut self, path: &str) -> (counted: bool)
        ensures
            counted == (old(self).click_history.clicks(path@) < u32::MAX),
            final(self).click_history@ == clicked(old(self).click_history@, path@),
            final(self).mapping == old(self).mapping,
            final(self).index == old(self).index,
    {
        self.click_history.record_click(path)
    }

    /// Asks for a scan at the next poll of the index.
    pub fn trigger_index_update(&mut self)
        ensures
            final(self).index@ == (IndexState { forced: true, ..old(self).index@ }),
            final(self).mapping == old(self).mapping,
            final(self).click_history == old(self).click_history,
    {
        self.index.force_update();
    }

    /// Whether a scan is under way.
    pub fn get_indexing_status(&self) -> (indexing: bool)
        ensures
            indexing == self.index@.indexing,
    {
        self.index.is_indexing()
    }

    /// The predicate to hand to the native index for a search, or `None`
    /// where the keyword is blank and nothing is to be searched.
    pub fn native_query(&self, keyword: &str, filter_type: &str) -> (query: Option<String>)
        ensures
            match query {
                Some(text) => !asks_nothing(keyword@) && text@ == query_text(
                    TypeFilter::named(filter_type@).kind_predicate(),
                    words(lowercase(keyword@)),
                    Query::alias_in(keyword@, self.mapping@),
                ),
                None => asks_nothing(keyword@),
            },
    {
        match plan_search(keyword, filter_type, &self.mapping) {
            Some(terms) => Some(native_query_for(&terms)),
            None => None,
        }
    }

    /// A search. A blank keyword finds nothing. Otherwise the outputs of the
    /// native index and a scan of the path index are brought together,
    /// scored and ranked; at most `RESULT_LIMIT` results come back, no path
    /// twice.
    pub fn search_files(
        &self,
        keyword: &str,
        filter_type: &str,
        volumes: &Vec<String>,
        native_outputs: &Vec<String>,
    ) -> (out: Vec<SearchResult>)
        ensures
            asks_nothing(keyword@) ==> out@.len() == 0,
            !asks_nothing(keyword@) ==> hits(out@) == search_hits(
                self.query(keyword@, filter_type@),
                self.index@.files,
                texts(volumes@),
                texts(native_outputs@),
                self.click_history@,
            ),
            out@.len() <= RESULT_LIMIT,
            distinct_paths(hits(out@)),
    {
        let terms = match plan_search(keyword, filter_type, &self.mapping) {
            Some(terms) => terms,
            None => {
                return Vec::new();
            },
        };
        let out = complete_search(
            &terms,
            self.index.files(),
            volumes,
            native_outputs,
            &self.click_history,
        );
        proof {
            lemma_search_hits(
                terms@,
                self.index@.files,
                texts(volumes@),
                texts(native_outputs@),
                self.click_history@,
            );
            assert(hits(out@).len() == out@.len());
        }
        out
    }
}

} // verus!
