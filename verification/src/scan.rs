//! The in-memory branch of a search: a pass over the indexed paths.

use crate::matching::{holds_acronym, holds_alias, names_acronym, names_alias};
use crate::query::{Query, QueryTerms};
use crate::rank::truncated;
use crate::result::{hits, Hit, SearchResult};
use crate::segment::{file_name, name_start};
use crate::strategy::{endings_accept, lowered_all, SearchStrategy, TypeFilter};
use crate::text::{
    all_chars_of, char_texts, chars_of, contains, ends_with, has_char, has_part, has_prefix,
    has_suffix, is_among, lowercase, part, starts_with, string_of, texts, to_lowercase,
};
use vstd::prelude::*;

verus! {

/// Once this many strong results are found, the scan stops.
pub const STRONG_LIMIT: usize = 1000;

/// With fewer strong results than this, fallback candidates are added.
pub const THIN_RESULT: usize = 20;

/// At most this many fallback candidates are added.
pub const FALLBACK_LIMIT: usize = 50;

/// What the scan makes of one path.
#[derive(Clone, Copy, Debug, PartialEq, Eq, Structural)]
pub enum Verdict {
    /// The path matches in full.
    Strong,
    /// The path matches some of several words.
    Fallback,
    /// The path is left out.
    Skip,
}

/// The type predicate of the scan. A folder is a path without a dot, or a
/// bundle; the other filters go by their endings.
pub open spec fn passes_filter(filter: TypeFilter, path: Seq<char>) -> bool {
    match filter {
        TypeFilter::All => true,
        TypeFilter::Folder => !path.contains('.') || ends_with(path, ".app"@),
        _ => endings_accept(filter.endings(), path),
    }
}

/// The first index at or behind `from` at which `c` stands in `s`; the
/// length of `s` where there is none.
pub open spec fn first_from(s: Seq<char>, c: char, from: int) -> int
    decreases s.len() - from,
{
    if from >= s.len() {
        s.len() as int
    } else if s[from] == c {
        from
    } else {
        first_from(s, c, from + 1)
    }
}

/// The root of the volume that a path under `/Volumes/` lies on: the path up
/// to the first `/` behind `/Volumes/`.
pub open spec fn volume_root(path: Seq<char>) -> Seq<char> {
    path.take(first_from(path, '/', "/Volumes/"@.len() as int))
}

/// The path lies on a volume that is not mounted.
pub open spec fn offline(path: Seq<char>, volumes: Seq<Seq<char>>) -> bool {
    starts_with(path, "/Volumes/"@) && !volumes.contains(volume_root(path))
}

/// The word is a part of the lowercased name or of the lowercased path.
pub open spec fn word_found(name: Seq<char>, path: Seq<char>, word: Seq<char>) -> bool {
    contains(name, word) || contains(path, word)
}

/// Every word is found.
pub open spec fn all_found(name: Seq<char>, path: Seq<char>, words: Seq<Seq<char>>) -> bool {
    forall|i: int| 0 <= i < words.len() ==> word_found(name, path, #[trigger] words[i])
}

/// Some word is found.
pub open spec fn any_found(name: Seq<char>, path: Seq<char>, words: Seq<Seq<char>>) -> bool {
    exists|i: int| 0 <= i < words.len() && word_found(name, path, #[trigger] words[i])
}

/// How well a lowercased name and path match. It is a strong match where
/// every word is found, or the name holds the alias of the keyword, or the
/// initials of the name hold the keyword. Otherwise it is a fallback
/// candidate where the keyword has several words and one of them is found.
pub open spec fn match_on(q: Query, name: Seq<char>, lowered: Seq<char>) -> Verdict {
    if all_found(name, lowered, q.words) || names_alias(q, name) || names_acronym(q, name) {
        Verdict::Strong
    } else if q.words.len() > 1 && any_found(name, lowered, q.words) {
        Verdict::Fallback
    } else {
        Verdict::Skip
    }
}

/// How well a path matches: how well its file name and the path itself
/// match, both in lowercase.
pub open spec fn match_of(q: Query, path: Seq<char>) -> Verdict {
    match_on(q, lowercase(file_name(path)), lowercase(path))
}

/// What the scan makes of a path: it is left out where the type predicate
/// fails or its volume is not mounted, and judged by its match otherwise.
pub open spec fn verdict_of(q: Query, volumes: Seq<Seq<char>>, path: Seq<char>) -> Verdict {
    if !passes_filter(q.filter, path) || offline(path, volumes) {
        Verdict::Skip
    } else {
        match_of(q, path)
    }
}

/// The test "the scan gives this path that verdict".
pub open spec fn judged(q: Query, volumes: Seq<Seq<char>>, verdict: Verdict) -> spec_fn(
    Seq<char>,
) -> bool {
    |path: Seq<char>| verdict_of(q, volumes, path) == verdict
}

/// The paths that the scan returns. The strong matches come in index order,
/// at most `STRONG_LIMIT` of them; where they are fewer than `THIN_RESULT`,
/// the first `FALLBACK_LIMIT` fallback candidates follow.
pub open spec fn scan_paths(index: Seq<Seq<char>>, q: Query, volumes: Seq<Seq<char>>) -> Seq<
    Seq<char>,
> {
    let strong = index.filter(judged(q, volumes, Verdict::Strong));
    let fallback = index.filter(judged(q, volumes, Verdict::Fallback));
    if strong.len() < THIN_RESULT {
        strong + truncated(fallback, FALLBACK_LIMIT as nat)
    } else {
        truncated(strong, STRONG_LIMIT as nat)
    }
}

/// The hit that the scan reports for a path: named by its last piece, not
/// yet scored.
pub open spec fn found(path: Seq<char>) -> Hit {
    Hit { path, name: file_name(path), score: 0 }
}

/// The hits that the scan reports for a list of paths.
pub open spec fn found_all(paths: Seq<Seq<char>>) -> Seq<Hit> {
    paths.map_values(|path: Seq<char>| found(path))
}

/// Law: a name that holds the alias of the keyword, or whose initials hold
/// the keyword, is a strong match, whether or not any word of the keyword
/// occurs in it.
pub proof fn lemma_alias_and_initials_promote(q: Query, path: Seq<char>)
    requires
        names_alias(q, lowercase(file_name(path))) || names_acronym(
            q,
            lowercase(file_name(path)),
        ),
    ensures
        match_of(q, path) == Verdict::Strong,
{
}

/// Law: the scan returns only paths of the index that satisfy the type
/// predicate and lie on no unmounted volume.
pub proof fn lemma_scan_respects_filter(
    index: Seq<Seq<char>>,
    q: Query,
    volumes: Seq<Seq<char>>,
    i: int,
)
    requires
        0 <= i < scan_paths(index, q, volumes).len(),
    ensures
        index.contains(scan_paths(index, q, volumes)[i]),
        passes_filter(q.filter, scan_paths(index, q, volumes)[i]),
        !offline(scan_paths(index, q, volumes)[i], volumes),
{
    broadcast use Seq::lemma_filter_pred, Seq::lemma_filter_contains_rev;

    let strong = index.filter(judged(q, volumes, Verdict::Strong));
    let fallback = index.filter(judged(q, volumes, Verdict::Fallback));
    let path = scan_paths(index, q, volumes)[i];
    if i < strong.len() {
        assert(path == strong[i]);
        assert(judged(q, volumes, Verdict::Strong)(strong[i]));
        assert(strong.contains(strong[i]));
    } else {
        let k = i - strong.len();
        assert(path == fallback[k]);
        assert(judged(q, volumes, Verdict::Fallback)(fallback[k]));
        assert(fallback.contains(fallback[k]));
    }
}

/// Law: a path on a volume that is not mounted is in no scan result, though
/// it stands in the index.
pub proof fn lemma_scan_skips_offline(
    index: Seq<Seq<char>>,
    q: Query,
    volumes: Seq<Seq<char>>,
    path: Seq<char>,
)
    requires
        offline(path, volumes),
    ensures
        !scan_paths(index, q, volumes).contains(path),
{
    if scan_paths(index, q, volumes).contains(path) {
        let i = choose|i: int|
            0 <= i < scan_paths(index, q, volumes).len() && scan_paths(index, q, volumes)[i]
                == path;
        lemma_scan_respects_filter(index, q, volumes, i);
    }
}

/// The first index at or behind `from` at which `c` stands in `s`.
fn first_index_from(s: &Vec<char>, c: char, from: usize) -> (at: usize)
    requires
        from <= s.len(),
    ensures
        at == first_from(s@, c, from as int),
        from <= at <= s.len(),
{
    let mut at: usize = from;
    while at < s.len() && s[at] != c
        invariant
            from <= at <= s.len(),
            first_from(s@, c, from as int) == first_from(s@, c, at as int),
        decreases s.len() - at,
    {
        at += 1;
    }
    at
}

/// Whether a path satisfies the type predicate of a filter, given the
/// endings of the filter's strategy and the path in lowercase.
fn passes(
    filter: TypeFilter,
    strategy: &SearchStrategy,
    endings: &Vec<Vec<char>>,
    path: &Vec<char>,
    lowered: &Vec<char>,
) -> (r: bool)
    requires
        strategy.is_for(filter),
        char_texts(endings@) == lowered_all(strategy.endings()),
        lowered@ == lowercase(path@),
    ensures
        r == passes_filter(filter, path@),
{
    match filter {
        TypeFilter::All => true,
        TypeFilter::Folder => !has_char(path, '.') || has_suffix(path, &chars_of(".app")),
        _ => strategy.accepts_with(endings, lowered),
    }
}

/// Whether a path lies on a volume that is not among the mounted ones.
fn is_offline(chars: &Vec<char>, mounted: &Vec<Vec<char>>) -> (r: bool)
    ensures
        r == offline(chars@, char_texts(mounted@)),
{
    let marker = chars_of("/Volumes/");
    if !has_prefix(chars, &marker) {
        return false;
    }
    let end = first_index_from(chars, '/', marker.len());
    let root = part(chars, 0, end);
    !is_among(mounted, &root)
}

/// Whether every word, and whether some word, is found in the lowercased
/// name or path.
fn find_words(name: &Vec<char>, path: &Vec<char>, words: &Vec<Vec<char>>) -> (r: (bool, bool))
    ensures
        r.0 == all_found(name@, path@, char_texts(words@)),
        r.1 == any_found(name@, path@, char_texts(words@)),
{
    let ghost ws = char_texts(words@);
    let mut all = true;
    let mut any = false;
    let mut i: usize = 0;
    while i < words.len()
        invariant
            i <= words.len(),
            ws == char_texts(words@),
            all == (forall|j: int| 0 <= j < i ==> word_found(name@, path@, #[trigger] ws[j])),
            any == (exists|j: int| 0 <= j < i && word_found(name@, path@, #[trigger] ws[j])),
        decreases words.len() - i,
    {
        assert(ws[i as int] == words@[i as int]@);
        let ghost any_before = any;
        if has_part(name, &words[i]) || has_part(path, &words[i]) {
            any = true;
        } else {
            all = false;
        }
        proof {
            if any_before {
                let j = choose|j: int| 0 <= j < i && word_found(name@, path@, #[trigger] ws[j]);
                assert(0 <= j < i + 1 && word_found(name@, path@, ws[j]));
            }
        }
        i += 1;
    }
    (all, any)
}

/// How well a lowercased name and path match the query.
pub fn judge(terms: &QueryTerms, name: &Vec<char>, lowered: &Vec<char>) -> (verdict: Verdict)
    ensures
        verdict == match_on(terms@, name@, lowered@),
{
    let words = terms.words();
    let (all, any) = find_words(name, lowered, words);
    if all || holds_alias(terms, name) || holds_acronym(terms, name) {
        Verdict::Strong
    } else if words.len() > 1 && any {
        Verdict::Fallback
    } else {
        Verdict::Skip
    }
}

/// What the scan makes of one path, with the result to report for it where
/// it is not left out.
fn examine(
    path: &String,
    terms: &QueryTerms,
    strategy: &SearchStrategy,
    endings: &Vec<Vec<char>>,
    mounted: &Vec<Vec<char>>,
) -> (r: (Verdict, Option<SearchResult>))
    requires
        strategy.is_for(terms@.filter),
        char_texts(endings@) == lowered_all(strategy.endings()),
    ensures
        r.0 == verdict_of(terms@, char_texts(mounted@), path@),
        r.0 != Verdict::Skip ==> r.1 is Some && r.1->0@ == found(path@),
{
    let chars = chars_of(path.as_str());
    let path_lower = to_lowercase(path.as_str());
    let lowered = chars_of(path_lower.as_str());
    if !passes(terms.filter(), strategy, endings, &chars, &lowered) {
        return (Verdict::Skip, None);
    }
    if is_offline(&chars, mounted) {
        return (Verdict::Skip, None);
    }
    let start = name_start(&chars);
    let name = string_of(&part(&chars, start, chars.len()));
    let name_lower = to_lowercase(name.as_str());
    let verdict = judge(terms, &chars_of(name_lower.as_str()), &lowered);
    match verdict {
        Verdict::Skip => (Verdict::Skip, None),
        _ => (verdict, Some(SearchResult { path: path.clone(), name, score: 0 })),
    }
}

/// The in-memory branch of a search: the indexed paths that pass the type
/// filter, lie on no unmounted volume and match the query.
pub fn scan_index(index: &Vec<String>, terms: &QueryTerms, volumes: &Vec<String>) -> (out: Vec<
    SearchResult,
>)
    ensures
        hits(out@) == found_all(scan_paths(texts(index@), terms@, texts(volumes@))),
        forall|i: int|
            0 <= i < out@.len() ==> passes_filter(terms@.filter, (#[trigger] out@[i]).path@)
                && !offline(out@[i].path@, texts(volumes@)),
{
    let strategy = SearchStrategy::for_filter(terms.filter());
    let endings = strategy.lowered_endings();
    let mounted = all_chars_of(volumes);
    let ghost paths = texts(index@);
    let ghost q = terms@;
    let ghost vols = texts(volumes@);
    let ghost strong_test = judged(q, vols, Verdict::Strong);
    let ghost fallback_test = judged(q, vols, Verdict::Fallback);
    let mut strong: Vec<SearchResult> = Vec::new();
    let mut fallback: Vec<SearchResult> = Vec::new();
    let mut i: usize = 0;
    proof {
        reveal(Seq::filter);
        assert(paths.take(0) =~= Seq::empty());
        assert(hits(strong@) =~= found_all(paths.take(0).filter(strong_test)));
        assert(hits(fallback@) =~= found_all(
            truncated(paths.take(0).filter(fallback_test), FALLBACK_LIMIT as nat),
        ));
    }
    while i < index.len() && strong.len() < STRONG_LIMIT
        invariant
            i <= index.len(),
            paths == texts(index@),
            q == terms@,
            vols == texts(volumes@),
            vols == char_texts(mounted@),
            strategy.is_for(q.filter),
            char_texts(endings@) == lowered_all(strategy.endings()),
            strong_test == judged(q, vols, Verdict::Strong),
            fallback_test == judged(q, vols, Verdict::Fallback),
            strong@.len() <= STRONG_LIMIT,
            hits(strong@) == found_all(paths.take(i as int).filter(strong_test)),
            hits(fallback@) == found_all(
                truncated(paths.take(i as int).filter(fallback_test), FALLBACK_LIMIT as nat),
            ),
        decreases index.len() - i,
    {
        let ghost done = paths.take(i as int);
        let ghost path = paths[i as int];
        proof {
            broadcast use Seq::lemma_filter_push;

            assert(paths.take(i + 1) =~= done.push(path));
            assert(path == index@[i as int]@);
        }
        let (verdict, result) = examine(&index[i], terms, &strategy, &endings, &mounted);
        match verdict {
            Verdict::Strong => {
                let ghost before = hits(strong@);
                let item = result.unwrap();
                strong.push(item);
                proof {
                    assert(hits(strong@) =~= before.push(found(path)));
                    assert(found_all(done.filter(strong_test).push(path)) =~= before.push(
                        found(path),
                    ));
                }
            },
            Verdict::Fallback => {
                let ghost before = hits(fallback@);
                let ghost kept = done.filter(fallback_test);
                assert(hits(fallback@).len() == fallback@.len());
                assert(found_all(truncated(kept, FALLBACK_LIMIT as nat)).len() == truncated(
                    kept,
                    FALLBACK_LIMIT as nat,
                ).len());
                if fallback.len() < FALLBACK_LIMIT {
                    let item = result.unwrap();
                    fallback.push(item);
                    proof {
                        assert(hits(fallback@) =~= before.push(found(path)));
                        assert(found_all(kept.push(path)) =~= before.push(found(path)));
                    }
                } else {
                    assert(truncated(kept.push(path), FALLBACK_LIMIT as nat) =~= truncated(
                        kept,
                        FALLBACK_LIMIT as nat,
                    ));
                }
            },
            Verdict::Skip => {},
        }
        i += 1;
    }
    proof {
        let all_strong = paths.filter(strong_test);
        let seen = paths.take(i as int);
        assert(hits(strong@).len() == seen.filter(strong_test).len());
        if i < index.len() {
            seen.lemma_filter_monotone(paths, strong_test);
            assert(truncated(all_strong, STRONG_LIMIT as nat) =~= seen.filter(strong_test));
        } else {
            assert(seen =~= paths);
        }
    }
    if strong.len() < THIN_RESULT {
        let ghost before = hits(strong@);
        let ghost extra = hits(fallback@);
        let mut rest = fallback;
        strong.append(&mut rest);
        proof {
            assert(hits(strong@) =~= before + extra);
            assert(found_all(
                paths.filter(strong_test) + truncated(
                    paths.filter(fallback_test),
                    FALLBACK_LIMIT as nat,
                ),
            ) =~= before + extra);
        }
    }
    proof {
        let reported = scan_paths(paths, q, vols);
        assert(hits(strong@).len() == strong@.len());
        assert forall|i: int| 0 <= i < strong@.len() implies passes_filter(
            q.filter,
            (#[trigger] strong@[i]).path@,
        ) && !offline(strong@[i].path@, vols) by {
            assert(hits(strong@)[i] == found(reported[i]));
            lemma_scan_respects_filter(paths, q, vols, i);
        }
    }
    strong
}

} // verus!
