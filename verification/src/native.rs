//! The native branch of a search: reading what the operating system's index
//! printed.

use crate::result::{hits, SearchResult};
use crate::scan::{found, found_all};
use crate::segment::{lines, lines_of, name_start, trim, trimmed};
use crate::text::{char_texts, chars_of, contains, has_part, part, string_of, texts};
use vstd::prelude::*;

verus! {

/// The native index is given this long to answer for the home and the
/// applications directory, in milliseconds.
pub const HOME_TIMEOUT_MILLIS: u64 = 3_000;

/// The native index is given this long to answer for the mounted volumes,
/// in milliseconds.
pub const VOLUMES_TIMEOUT_MILLIS: u64 = 4_000;

/// One call of the native index.
#[derive(Debug)]
pub struct SubQuery {
    /// What is handed to `mdfind`.
    pub arguments: Vec<String>,
    /// How long the answer is waited for, in milliseconds. A call that
    /// takes longer counts as having printed nothing.
    pub timeout_millis: u64,
}

/// What a call of the native index stands for.
pub struct SubQueryView {
    pub arguments: Seq<Seq<char>>,
    pub timeout_millis: int,
}

impl View for SubQuery {
    type V = SubQueryView;

    open spec fn view(&self) -> SubQueryView {
        SubQueryView {
            arguments: texts(self.arguments@),
            timeout_millis: self.timeout_millis as int,
        }
    }
}

/// The two calls of one search: the first looks below the home directory
/// and the applications directory, the second below the mounted volumes.
pub open spec fn planned_calls(home: Seq<char>, query: Seq<char>) -> Seq<SubQueryView> {
    seq![
        SubQueryView {
            arguments: seq!["-onlyin"@, home, "-onlyin"@, "/Applications"@, query],
            timeout_millis: HOME_TIMEOUT_MILLIS as int,
        },
        SubQueryView {
            arguments: seq!["-onlyin"@, "/Volumes"@, query],
            timeout_millis: VOLUMES_TIMEOUT_MILLIS as int,
        },
    ]
}

/// The calls of the native index that one search makes.
pub fn sub_queries(home: &str, query: &str) -> (calls: Vec<SubQuery>)
    ensures
        calls@.map_values(|c: SubQuery| c@) == planned_calls(home@, query@),
{
    let first = SubQuery {
        arguments: vec![
            "-onlyin".to_owned(),
            home.to_owned(),
            "-onlyin".to_owned(),
            "/Applications".to_owned(),
            query.to_owned(),
        ],
        timeout_millis: HOME_TIMEOUT_MILLIS,
    };
    let second = SubQuery {
        arguments: vec!["-onlyin".to_owned(), "/Volumes".to_owned(), query.to_owned()],
        timeout_millis: VOLUMES_TIMEOUT_MILLIS,
    };
    assert(first@.arguments =~= planned_calls(home@, query@)[0].arguments);
    assert(second@.arguments =~= planned_calls(home@, query@)[1].arguments);
    let calls = vec![first, second];
    assert(calls@.map_values(|c: SubQuery| c@) =~= planned_calls(home@, query@));
    calls
}

/// Whether a reported path is kept: it is not empty and lies neither in the
/// executable directory of a bundle nor in a library directory.
pub open spec fn reported(path: Seq<char>) -> bool {
    &&& path.len() > 0
    &&& !contains(path, "/Contents/MacOS/"@)
    &&& !contains(path, "/Library/"@)
}

/// The paths that a list of printed lines reports: each line without the
/// whitespace around it, where that is kept.
pub open spec fn reported_paths(printed: Seq<Seq<char>>) -> Seq<Seq<char>>
    decreases printed.len(),
{
    if printed.len() == 0 {
        Seq::empty()
    } else {
        let init = reported_paths(printed.drop_last());
        let path = trim(printed.last());
        if reported(path) {
            init.push(path)
        } else {
            init
        }
    }
}

/// The paths that one output of the native index reports.
pub open spec fn native_paths(output: Seq<char>) -> Seq<Seq<char>> {
    reported_paths(lines(output))
}

/// The paths that several outputs report, one output after the other.
pub open spec fn all_native_paths(outputs: Seq<Seq<char>>) -> Seq<Seq<char>>
    decreases outputs.len(),
{
    if outputs.len() == 0 {
        Seq::empty()
    } else {
        all_native_paths(outputs.drop_last()) + native_paths(outputs.last())
    }
}

/// Law: no reported path is empty or lies inside a bundle's executable
/// directory or a library directory.
pub proof fn lemma_reported_paths(printed: Seq<Seq<char>>)
    ensures
        forall|i: int|
            0 <= i < reported_paths(printed).len() ==> reported(
                #[trigger] reported_paths(printed)[i],
            ),
    decreases printed.len(),
{
    if printed.len() > 0 {
        let init = reported_paths(printed.drop_last());
        lemma_reported_paths(printed.drop_last());
        assert forall|i: int| 0 <= i < reported_paths(printed).len() implies reported(
            #[trigger] reported_paths(printed)[i],
        ) by {
            if i < init.len() {
                assert(reported_paths(printed)[i] == init[i]);
            }
        }
    }
}

/// The result that a printed path reports, where the path is kept.
pub fn report(path: &Vec<char>) -> (result: Option<SearchResult>)
    ensures
        match result {
            Some(r) => reported(path@) && r@ == found(path@),
            None => !reported(path@),
        },
{
    if path.len() == 0 || has_part(path, &chars_of("/Contents/MacOS/")) || has_part(
        path,
        &chars_of("/Library/"),
    ) {
        return None;
    }
    let start = name_start(path);
    let name = string_of(&part(path, start, path.len()));
    Some(SearchResult { path: string_of(path), name, score: 0 })
}

/// Appends to `out` the results that one output of the native index
/// reports.
pub fn read_output(out: &mut Vec<SearchResult>, output: &str)
    ensures
        hits(final(out)@) == hits(old(out)@) + found_all(native_paths(output@)),
{
    let chars = chars_of(output);
    let printed = lines_of(&chars);
    let ghost start = hits(out@);
    let ghost all = char_texts(printed@);
    let mut i: usize = 0;
    assert(all.take(0) =~= Seq::empty());
    assert(start + found_all(reported_paths(all.take(0))) =~= start);
    while i < printed.len()
        invariant
            i <= printed.len(),
            all == char_texts(printed@),
            hits(out@) == start + found_all(reported_paths(all.take(i as int))),
        decreases printed.len() - i,
    {
        proof {
            assert(all.take(i + 1).drop_last() =~= all.take(i as int));
            assert(all.take(i + 1).last() == printed@[i as int]@);
        }
        let path = trimmed(&printed[i]);
        match report(&path) {
            Some(result) => {
                let ghost before = out@;
                let ghost kept = reported_paths(all.take(i as int));
                out.push(result);
                proof {
                    assert(hits(out@) =~= hits(before).push(found(path@)));
                    assert(start + found_all(kept.push(path@)) =~= (start + found_all(kept)).push(
                        found(path@),
                    ));
                }
            },
            None => {},
        }
        i += 1;
    }
    assert(all.take(i as int) =~= all);
}

/// The results that the outputs of the native index report, one output
/// after the other.
pub fn read_outputs(outputs: &Vec<String>) -> (out: Vec<SearchResult>)
    ensures
        hits(out@) == found_all(all_native_paths(texts(outputs@))),
{
    let mut out: Vec<SearchResult> = Vec::new();
    let ghost all = texts(outputs@);
    let mut i: usize = 0;
    assert(all.take(0) =~= Seq::empty());
    assert(hits(out@) =~= found_all(all_native_paths(all.take(0))));
    while i < outputs.len()
        invariant
            i <= outputs.len(),
            all == texts(outputs@),
            hits(out@) == found_all(all_native_paths(all.take(i as int))),
        decreases outputs.len() - i,
    {
        proof {
            assert(all.take(i + 1).drop_last() =~= all.take(i as int));
            assert(all.take(i + 1).last() == outputs@[i as int]@);
            let done = all_native_paths(all.take(i as int));
            let next = native_paths(outputs@[i as int]@);
            assert(found_all(done + next) =~= found_all(done) + found_all(next));
        }
        read_output(&mut out, outputs[i].as_str());
        i += 1;
    }
    assert(all.take(i as int) =~= all);
    out
}

} // verus!
