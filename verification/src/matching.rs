//! How a candidate's name and path are held against the words of a query.

use crate::query::{Query, QueryTerms};
use crate::segment::{heads_of_runs, initials, lemma_heads_are_characters, Boundary};
use crate::text::{char_texts, contains, find_from, has_part, occurs_at};
use vstd::prelude::*;

verus! {

/// Every word is a part of `hay`.
pub open spec fn all_contained(hay: Seq<char>, words: Seq<Seq<char>>) -> bool {
    forall|i: int| 0 <= i < words.len() ==> contains(hay, #[trigger] words[i])
}

/// The words stand in `hay` at the offsets `at`, one after the other without
/// overlap.
pub open spec fn placed(hay: Seq<char>, words: Seq<Seq<char>>, at: Seq<int>) -> bool {
    &&& at.len() == words.len()
    &&& forall|i: int| 0 <= i < words.len() ==> occurs_at(hay, #[trigger] words[i], at[i])
    &&& forall|i: int| 0 < i < words.len() ==> at[i - 1] + words[i - 1].len() <= #[trigger] at[i]
}

/// The words occur in `hay` from left to right, each after the end of the
/// one before.
pub open spec fn in_order(hay: Seq<char>, words: Seq<Seq<char>>) -> bool {
    exists|at: Seq<int>| placed(hay, words, at)
}

/// The lowercased name holds the application name that the keyword is an
/// alias of.
pub open spec fn names_alias(q: Query, name: Seq<char>) -> bool {
    match q.alias {
        Some(canonical) => contains(name, canonical),
        None => false,
    }
}

/// The initials of the lowercased name hold the whole keyword.
pub open spec fn names_acronym(q: Query, name: Seq<char>) -> bool {
    contains(initials(name), q.keyword)
}

/// Law: a keyword of a single character that the initials of a name hold is
/// a part of the name. Initials never promote such a keyword on their own.
pub proof fn lemma_single_character_acronym(q: Query, name: Seq<char>)
    requires
        q.keyword.len() == 1,
        names_acronym(q, name),
    ensures
        contains(name, q.keyword),
{
    let heads = initials(name);
    let at = choose|at: int| occurs_at(heads, q.keyword, at);
    assert(heads.subrange(at, at + 1)[0] == q.keyword[0]);
    lemma_heads_are_characters(name, Boundary::NonAlphanumeric);
    assert(name.contains(heads[at]));
    let k = choose|k: int| 0 <= k < name.len() && name[k] == heads[at];
    assert(name.subrange(k, k + 1) =~= q.keyword);
    assert(occurs_at(name, q.keyword, k));
}

/// Whether every word is a part of `hay`.
pub fn contains_all(hay: &Vec<char>, words: &Vec<Vec<char>>) -> (r: bool)
    ensures
        r == all_contained(hay@, char_texts(words@)),
{
    let mut i: usize = 0;
    while i < words.len()
        invariant
            i <= words.len(),
            forall|j: int| 0 <= j < i ==> contains(hay@, #[trigger] char_texts(words@)[j]),
        decreases words.len() - i,
    {
        assert(char_texts(words@)[i as int] == words@[i as int]@);
        if !has_part(hay, &words[i]) {
            return false;
        }
        i += 1;
    }
    true
}

/// Whether the words occur in `hay` from left to right without overlap.
/// Taking each word at its first possible place decides it.
pub fn occur_in_order(hay: &Vec<char>, words: &Vec<Vec<char>>) -> (r: bool)
    ensures
        r == in_order(hay@, char_texts(words@)),
{
    let ghost ws = char_texts(words@);
    let ghost mut mine: Seq<int> = Seq::empty();
    let mut from: usize = 0;
    let mut i: usize = 0;
    while i < words.len()
        invariant
            i <= words.len(),
            from <= hay.len(),
            ws == char_texts(words@),
            placed(hay@, ws.take(i as int), mine),
            i == 0 ==> from == 0,
            i > 0 ==> from == mine[i - 1] + ws[i - 1].len(),
            forall|at: Seq<int>| #[trigger]
                placed(hay@, ws, at) ==> (i > 0 ==> from <= at[i - 1] + ws[i - 1].len()),
        decreases words.len() - i,
    {
        assert(ws[i as int] == words@[i as int]@);
        match find_from(hay, &words[i], from) {
            None => {
                assert forall|at: Seq<int>| !placed(hay@, ws, at) by {
                    if placed(hay@, ws, at) {
                        assert(occurs_at(hay@, ws[i as int], at[i as int]));
                        assert(from <= at[i as int]);
                    }
                }
                return false;
            },
            Some(found) => {
                proof {
                    let next = mine.push(found as int);
                    let before = ws.take(i as int);
                    let after = ws.take(i + 1);
                    assert forall|j: int| 0 <= j < after.len() implies occurs_at(
                        hay@,
                        #[trigger] after[j],
                        next[j],
                    ) by {
                        if j < i {
                            assert(before[j] == after[j]);
                        }
                    }
                    assert forall|j: int| 0 < j < after.len() implies next[j - 1] + after[j
                        - 1].len() <= #[trigger] next[j] by {
                        if j < i {
                            assert(before[j - 1] == after[j - 1]);
                            assert(mine[j - 1] + before[j - 1].len() <= mine[j]);
                        }
                    }
                    assert forall|at: Seq<int>| #[trigger]
                        placed(hay@, ws, at) implies found + ws[i as int].len() <= at[i as int]
                        + ws[i as int].len() by {
                        assert(occurs_at(hay@, ws[i as int], at[i as int]));
                        assert(from <= at[i as int]);
                    }
                    mine = next;
                }
                from = found + words[i].len();
            },
        }
        i += 1;
    }
    assert(ws.take(i as int) =~= ws);
    true
}

/// Whether the lowercased name holds the alias of the query.
pub fn holds_alias(terms: &QueryTerms, name: &Vec<char>) -> (r: bool)
    ensures
        r == names_alias(terms@, name@),
{
    match terms.alias() {
        Some(canonical) => has_part(name, canonical),
        None => false,
    }
}

/// Whether the initials of the lowercased name hold the keyword.
pub fn holds_acronym(terms: &QueryTerms, name: &Vec<char>) -> (r: bool)
    ensures
        r == names_acronym(terms@, name@),
{
    let heads = heads_of_runs(name, Boundary::NonAlphanumeric);
    has_part(&heads, terms.keyword())
}

} // verus!
