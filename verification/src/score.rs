//! The score of one result for one query.
//!
//! A score is a sum of independent terms: how well the name or the path
//! matches, a bonus for application bundles when applications are asked for,
//! a bonus for every recorded click, penalties for nested and deep paths,
//! and a bonus for where the entry lies.

use crate::history::{clicks_in, ClickHistory};
use crate::matching::{
    all_contained, contains_all, holds_acronym, holds_alias, in_order, names_acronym,
    names_alias, occur_in_order,
};
use crate::query::{Query, QueryTerms};
use crate::result::{hits, Hit, SearchResult};
use crate::segment::{count_of, depth};
use crate::strategy::TypeFilter;
use crate::text::{
    char_texts, chars_of, contains, ends_with, has_part, has_prefix, has_suffix, lowercase,
    same_chars, starts_with, to_lowercase,
};
use vstd::prelude::*;

verus! {

/// The match term, from the lowercased name and path.
///
/// The name matches when it holds every word, or the alias of the keyword,
/// or, failing both, when its initials hold the keyword. A matching name is
/// worth 20000 if it matched by alias or by initials or equals the keyword;
/// otherwise 10000 if the words occur in it from left to right, and 5000
/// more if it begins with the first word; otherwise 5000. Where the name
/// does not match, a path that holds every word is worth 2000.
pub open spec fn match_score(q: Query, name: Seq<char>, path: Seq<char>) -> int {
    let words = q.words;
    let by_words = all_contained(name, words);
    let by_alias = names_alias(q, name);
    let by_acronym = !by_words && !by_alias && names_acronym(q, name);
    if by_words || by_alias || by_acronym {
        if by_alias || by_acronym || name == q.keyword {
            20000
        } else if in_order(name, words) {
            if words.len() > 0 && starts_with(name, words[0]) {
                15000
            } else {
                10000
            }
        } else {
            5000
        }
    } else if all_contained(path, words) {
        2000
    } else {
        0
    }
}

/// The path names an application bundle.
pub open spec fn is_bundle(path: Seq<char>) -> bool {
    ends_with(path, ".app"@) || ends_with(path, ".app/"@)
}

/// The path lies inside the contents of an application bundle.
pub open spec fn inside_bundle(path: Seq<char>) -> bool {
    contains(path, ".app/Contents/"@)
}

/// The path is rooted at the applications directory.
pub open spec fn in_applications(path: Seq<char>) -> bool {
    starts_with(path, "/Applications"@)
}

/// The path leads through a desktop directory.
pub open spec fn on_desktop(path: Seq<char>) -> bool {
    contains(path, "/Desktop"@)
}

/// 10000 for a bundle when applications are asked for, unless the bundle
/// lies inside the contents of another.
pub open spec fn type_bonus(filter: TypeFilter, path: Seq<char>) -> int {
    if filter == TypeFilter::App && is_bundle(path) && !inside_bundle(path) {
        10000
    } else {
        0
    }
}

/// 5000 for every recorded click.
pub open spec fn click_bonus(clicks: nat) -> int {
    5000 * (clicks as int)
}

/// 10000 off for what lies inside a bundle's contents.
pub open spec fn nesting_penalty(path: Seq<char>) -> int {
    if inside_bundle(path) {
        10000
    } else {
        0
    }
}

/// 50 off for each piece of a path outside the applications directory.
pub open spec fn depth_penalty(path: Seq<char>) -> int {
    if in_applications(path) {
        0
    } else {
        50 * (depth(path) as int)
    }
}

/// 5000 for the applications directory; otherwise 1000 for a desktop.
pub open spec fn location_bonus(path: Seq<char>) -> int {
    if in_applications(path) {
        5000
    } else if on_desktop(path) {
        1000
    } else {
        0
    }
}

/// The terms of a score that depend on the path alone.
pub open spec fn path_score(filter: TypeFilter, path: Seq<char>) -> int {
    type_bonus(filter, path) - nesting_penalty(path) - depth_penalty(path) + location_bonus(path)
}

/// The score of an entry with this path and name for the query `q`, after
/// `clicks` recorded clicks.
pub open spec fn score_of(q: Query, path: Seq<char>, name: Seq<char>, clicks: nat) -> int {
    match_score(q, lowercase(name), lowercase(path)) + path_score(q.filter, path) + click_bonus(
        clicks,
    )
}

/// The match term for a lowercased name and path.
pub fn match_points(terms: &QueryTerms, name: &Vec<char>, path: &Vec<char>) -> (points: i128)
    ensures
        points == match_score(terms@, name@, path@),
{
    let words = terms.words();
    let by_words = contains_all(name, words);
    let by_alias = holds_alias(terms, name);
    let by_acronym = !by_words && !by_alias && holds_acronym(terms, name);
    if by_words || by_alias || by_acronym {
        if by_alias || by_acronym || same_chars(name, terms.keyword()) {
            20000
        } else if occur_in_order(name, words) {
            if words.len() > 0 && has_prefix(name, &words[0]) {
                assert(char_texts(words@)[0] == words@[0]@);
                15000
            } else {
                assert(words.len() > 0 ==> char_texts(words@)[0] == words@[0]@);
                10000
            }
        } else {
            5000
        }
    } else if contains_all(path, words) {
        2000
    } else {
        0
    }
}

/// The terms of a score that depend on the path alone.
pub fn path_points(filter: TypeFilter, path: &Vec<char>) -> (points: i128)
    ensures
        points == path_score(filter, path@),
{
    let mut points: i128 = 0;
    let is_app = match filter {
        TypeFilter::App => true,
        _ => false,
    };
    let nested = has_part(path, &chars_of(".app/Contents/"));
    if is_app && !nested && (has_suffix(path, &chars_of(".app")) || has_suffix(
        path,
        &chars_of(".app/"),
    )) {
        points = points + 10000;
    }
    if nested {
        points = points - 10000;
    }
    if has_prefix(path, &chars_of("/Applications")) {
        points = points + 5000;
    } else {
        let pieces: i128 = count_of(path, '/') as i128 + 1;
        points = points - 50 * pieces;
        if has_part(path, &chars_of("/Desktop")) {
            points = points + 1000;
        }
    }
    points
}

/// The score of an entry for a query, after `clicks` recorded clicks.
pub fn score(terms: &QueryTerms, path: &str, name: &str, clicks: u32) -> (points: i128)
    ensures
        points == score_of(terms@, path@, name@, clicks as nat),
{
    let name_lower = to_lowercase(name);
    let path_lower = to_lowercase(path);
    let matched = match_points(terms, &chars_of(name_lower.as_str()), &chars_of(path_lower.as_str()));
    let by_path = path_points(terms.filter(), &chars_of(path));
    matched + by_path + 5000 * (clicks as i128)
}

/// A hit with its score for the query `q`, given the recorded clicks.
pub open spec fn rescored(q: Query, clicks: Map<Seq<char>, u32>, hit: Hit) -> Hit {
    Hit {
        path: hit.path,
        name: hit.name,
        score: score_of(q, hit.path, hit.name, clicks_in(clicks, hit.path)),
    }
}

/// The hits, each with its score.
pub open spec fn scored(list: Seq<Hit>, q: Query, clicks: Map<Seq<char>, u32>) -> Seq<Hit> {
    list.map_values(|hit: Hit| rescored(q, clicks, hit))
}

/// Law: a name that matches by alias, or by its initials where it holds
/// neither the words nor the alias, has the highest match term.
pub proof fn lemma_alias_and_initials_score_highest(q: Query, name: Seq<char>, path: Seq<char>)
    requires
        names_alias(q, name) || (!all_contained(name, q.words) && names_acronym(q, name)),
    ensures
        match_score(q, name, path) == 20000,
        forall|other_name: Seq<char>, other_path: Seq<char>|
            match_score(q, other_name, other_path) <= 20000,
{
}

/// Law: the click bonus grows strictly with the clicks. Of two entries that
/// differ in nothing but the number of recorded clicks, the one that was
/// clicked more often scores higher.
pub proof fn lemma_more_clicks_score_higher(
    q: Query,
    path: Seq<char>,
    name: Seq<char>,
    fewer: nat,
    more: nat,
)
    requires
        fewer < more,
    ensures
        score_of(q, path, name, fewer) < score_of(q, path, name, more),
        score_of(q, path, name, more) - score_of(q, path, name, fewer) == 5000 * (more - fewer),
{
}

/// The results, each with its score for the query, given the click history.
pub fn score_all(results: &Vec<SearchResult>, terms: &QueryTerms, history: &ClickHistory) -> (out:
    Vec<SearchResult>)
    ensures
        hits(out@) == scored(hits(results@), terms@, history@),
{
    let mut out: Vec<SearchResult> = Vec::new();
    let ghost all = scored(hits(results@), terms@, history@);
    let mut i: usize = 0;
    assert(hits(out@) =~= all.take(0));
    while i < results.len()
        invariant
            i <= results.len(),
            all == scored(hits(results@), terms@, history@),
            hits(out@) == all.take(i as int),
        decreases results.len() - i,
    {
        let result = &results[i];
        let clicks = history.count(result.path.as_str());
        let points = score(terms, result.path.as_str(), result.name.as_str(), clicks);
        let ghost before = hits(out@);
        let item = SearchResult {
            path: result.path.clone(),
            name: result.name.clone(),
            score: points,
        };
        out.push(item);
        proof {
            assert(hits(results@)[i as int] == result@);
            assert(item@ == rescored(terms@, history@, result@));
            assert(hits(out@) =~= before.push(item@));
            assert(all.take(i + 1) =~= before.push(item@));
        }
        i += 1;
    }
    assert(all.take(i as int) =~= all);
    out
}

} // verus!
