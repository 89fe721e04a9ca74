//! A query, prepared once and used for every candidate.

use crate::alias::AliasTable;
use crate::segment::{split_runs, words, Boundary};
use crate::strategy::{alias_text, TypeFilter};
use crate::text::{char_texts, chars_of, lowercase, to_lowercase};
use vstd::prelude::*;

verus! {

/// What a query asks for.
pub struct Query {
    /// The keyword, in lowercase.
    pub keyword: Seq<char>,
    /// The words that are looked for.
    pub words: Seq<Seq<char>>,
    /// The kind of entry that is wanted.
    pub filter: TypeFilter,
    /// The application name that the whole keyword stands for, if it is an
    /// alias.
    pub alias: Option<Seq<char>>,
}

impl Query {
    /// The query for a keyword as typed: the keyword is taken in lowercase
    /// and its words are looked for.
    pub open spec fn of(keyword: Seq<char>, filter: TypeFilter, alias: Option<Seq<char>>) -> Query {
        Query { keyword: lowercase(keyword), words: words(lowercase(keyword)), filter, alias }
    }

    /// The name that a table has for the lowercased keyword.
    pub open spec fn alias_in(keyword: Seq<char>, table: Map<Seq<char>, Seq<char>>) -> Option<
        Seq<char>,
    > {
        if table.contains_key(lowercase(keyword)) {
            Some(table[lowercase(keyword)])
        } else {
            None
        }
    }
}

/// A query in executable form.
pub struct QueryTerms {
    keyword: Vec<char>,
    words: Vec<Vec<char>>,
    filter: TypeFilter,
    alias: Option<Vec<char>>,
}

impl View for QueryTerms {
    type V = Query;

    closed spec fn view(&self) -> Query {
        Query {
            keyword: self.keyword@,
            words: char_texts(self.words@),
            filter: self.filter,
            alias: match self.alias {
                Some(name) => Some(name@),
                None => None,
            },
        }
    }
}

impl QueryTerms {
    /// A query from its parts, taken as they are: the keyword in lowercase,
    /// the words to look for, the filter and the alias.
    pub fn from_parts(
        keyword: Vec<char>,
        words: Vec<Vec<char>>,
        filter: TypeFilter,
        alias: Option<Vec<char>>,
    ) -> (terms: Self)
        ensures
            terms@ == (Query {
                keyword: keyword@,
                words: char_texts(words@),
                filter,
                alias: match alias {
                    Some(name) => Some(name@),
                    None => None,
                },
            }),
    {
        QueryTerms { keyword, words, filter, alias }
    }

    /// A query for a keyword that is in lowercase already: its words are
    /// looked for.
    pub fn from_lowered(keyword: &str, filter: TypeFilter, alias: Option<&String>) -> (terms: Self)
        ensures
            terms@ == (Query {
                keyword: keyword@,
                words: words(keyword@),
                filter,
                alias: alias_text(alias),
            }),
    {
        let keyword_chars = chars_of(keyword);
        let words = split_runs(&keyword_chars, Boundary::Whitespace);
        let alias_chars = match alias {
            Some(name) => Some(chars_of(name.as_str())),
            None => None,
        };
        Self::from_parts(keyword_chars, words, filter, alias_chars)
    }

    /// Prepares the query for `keyword` as typed, with the alias that the
    /// caller resolved for it.
    pub fn new(keyword: &str, filter: TypeFilter, alias: Option<&String>) -> (terms: Self)
        ensures
            terms@ == Query::of(keyword@, filter, alias_text(alias)),
    {
        let lowered = to_lowercase(keyword);
        Self::from_lowered(lowered.as_str(), filter, alias)
    }

    /// Prepares the query for `keyword` as typed, resolving the lowercased
    /// keyword in `table`.
    pub fn resolve(keyword: &str, filter: TypeFilter, table: &AliasTable) -> (terms: Self)
        ensures
            terms@ == Query::of(keyword@, filter, Query::alias_in(keyword@, table@)),
    {
        let lowered = to_lowercase(keyword);
        let alias = table.resolve(lowered.as_str());
        Self::from_lowered(lowered.as_str(), filter, alias)
    }

    /// The lowercased keyword.
    pub fn keyword(&self) -> (keyword: &Vec<char>)
        ensures
            keyword@ == self@.keyword,
    {
        &self.keyword
    }

    /// The words that are looked for.
    pub fn words(&self) -> (words: &Vec<Vec<char>>)
        ensures
            char_texts(words@) == self@.words,
    {
        &self.words
    }

    /// The type filter.
    pub fn filter(&self) -> (filter: TypeFilter)
        ensures
            filter == self@.filter,
    {
        self.filter
    }

    /// The alias, if the keyword is one.
    pub fn alias(&self) -> (alias: &Option<Vec<char>>)
        ensures
            match *alias {
                Some(name) => self@.alias == Some(name@),
                None => self@.alias is None,
            },
    {
        &self.alias
    }
}

} // verus!
