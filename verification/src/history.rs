//! Click history: how often each path was opened.
//!
//! The history keeps its records in a list, each path once. vstd models the
//! hashing of integers and not of strings, so nothing could be proved of a
//! hash map keyed by paths.

use vstd::prelude::*;

verus! {

/// One path and the number of times it was opened.
#[derive(Debug)]
pub struct ClickRecord {
    pub path: String,
    pub count: u32,
}

/// The table that a list of records stands for: each path with its count.
pub open spec fn table_of(records: Seq<ClickRecord>) -> Map<Seq<char>, u32>
    decreases records.len(),
{
    if records.len() == 0 {
        Map::empty()
    } else {
        table_of(records.drop_last()).insert(records.last().path@, records.last().count)
    }
}

/// No path stands twice in the list.
pub open spec fn distinct_paths(records: Seq<ClickRecord>) -> bool {
    forall|i: int, j: int|
        0 <= i < j < records.len() ==> (#[trigger] records[i]).path@ != (#[trigger] records[j]).path@
}

/// A table holds exactly the paths of its records, each with its count.
pub proof fn lemma_table_of(records: Seq<ClickRecord>)
    requires
        distinct_paths(records),
    ensures
        forall|p: Seq<char>|
            table_of(records).contains_key(p) <==> exists|i: int|
                0 <= i < records.len() && (#[trigger] records[i]).path@ == p,
        forall|i: int|
            0 <= i < records.len() ==> table_of(records)[(#[trigger] records[i]).path@]
                == records[i].count,
    decreases records.len(),
{
    if records.len() > 0 {
        let init = records.drop_last();
        assert forall|i: int, j: int| 0 <= i < j < init.len() implies (#[trigger] init[i]).path@
            != (#[trigger] init[j]).path@ by {
            assert(init[i] == records[i] && init[j] == records[j]);
        }
        lemma_table_of(init);
        assert forall|p: Seq<char>| table_of(records).contains_key(p) implies exists|i: int|
            0 <= i < records.len() && (#[trigger] records[i]).path@ == p by {
            if p != records.last().path@ {
                assert(table_of(init).contains_key(p));
                let i = choose|i: int| 0 <= i < init.len() && (#[trigger] init[i]).path@ == p;
                assert(records[i] == init[i]);
            } else {
                assert(records[records.len() - 1].path@ == p);
            }
        }
        assert forall|i: int| 0 <= i < records.len() implies table_of(records)[(
        #[trigger] records[i]).path@] == records[i].count by {
            if i < records.len() - 1 {
                assert(init[i] == records[i]);
                assert(records[i].path@ != records[records.len() - 1].path@);
            }
        }
        assert forall|p: Seq<char>|
            (exists|i: int| 0 <= i < records.len() && (#[trigger] records[i]).path@ == p)
            implies table_of(records).contains_key(p) by {
            let i = choose|i: int| 0 <= i < records.len() && (#[trigger] records[i]).path@ == p;
            if i < records.len() - 1 {
                assert(init[i].path@ == p);
            }
        }
    }
}

/// The table that `serde_json::from_str` reads from a text, taken as a JSON
/// object of counts; `None` where it reads none.
pub uninterp spec fn decoded_counts(text: Seq<char>) -> Option<Map<Seq<char>, u32>>;

/// The text that `serde_json::to_string` writes for a table, its paths in
/// ascending order.
pub uninterp spec fn encoded_counts(table: Map<Seq<char>, u32>) -> Seq<char>;

/// Calls `serde_json::from_str` for a map from strings to 32-bit counts and
/// hands its entries out as records. Trusted: the call succeeds exactly
/// where `decoded_counts` is some table, the records then stand for that
/// table, and no path stands twice among them, as they come out of a map.
#[verifier::external_body]
fn decode_counts(text: &str) -> (r: Option<Vec<ClickRecord>>)
    ensures
        match r {
            Some(records) => distinct_paths(records@) && decoded_counts(text@) == Some(
                table_of(records@),
            ),
            None => decoded_counts(text@) is None,
        },
{
    match serde_json::from_str::<std::collections::HashMap<String, u32>>(text) {
        Ok(table) => Some(
            table.into_iter().map(|(path, count)| ClickRecord { path, count }).collect(),
        ),
        Err(_) => None,
    }
}

/// Calls `serde_json::to_string` on the records, gathered in a map ordered
/// by path. Trusted: the call succeeds, since every key is a string, every
/// value a number and the text is written to memory; and the text is a
/// function of the table that the records stand for, named `encoded_counts`
/// here. No path may stand twice among the records, so that gathering them
/// drops none.
#[verifier::external_body]
fn encode_counts(records: &Vec<ClickRecord>) -> (r: Option<String>)
    requires
        distinct_paths(records@),
    ensures
        r is Some,
        r->0@ == encoded_counts(table_of(records@)),
{
    let table: std::collections::BTreeMap<&str, u32> = records.iter().map(
        |record| (record.path.as_str(), record.count),
    ).collect();
    serde_json::to_string(&table).ok()
}

/// The number of clicks that a table holds for `path`: zero where it holds
/// none.
pub open spec fn clicks_in(table: Map<Seq<char>, u32>, path: Seq<char>) -> nat {
    if table.contains_key(path) {
        table[path] as nat
    } else {
        0
    }
}

/// A table after one more click on `path`. A counter that has reached the
/// largest number it can hold stays there.
pub open spec fn clicked(table: Map<Seq<char>, u32>, path: Seq<char>) -> Map<Seq<char>, u32> {
    if clicks_in(table, path) < u32::MAX {
        table.insert(path, (clicks_in(table, path) + 1) as u32)
    } else {
        table
    }
}

/// A table after `n` clicks on `path`.
pub open spec fn clicked_times(table: Map<Seq<char>, u32>, path: Seq<char>, n: nat) -> Map<
    Seq<char>,
    u32,
>
    decreases n,
{
    if n == 0 {
        table
    } else {
        clicked(clicked_times(table, path, (n - 1) as nat), path)
    }
}

/// Law: after `n` clicks on a path its count is `n` more than before, as
/// long as the counter can hold the sum, and the count of no other path has
/// changed.
pub proof fn lemma_clicks_add_up(table: Map<Seq<char>, u32>, path: Seq<char>, n: nat)
    requires
        clicks_in(table, path) + n <= u32::MAX,
    ensures
        clicks_in(clicked_times(table, path, n), path) == clicks_in(table, path) + n,
        forall|other: Seq<char>|
            other != path ==> clicks_in(clicked_times(table, path, n), other) == clicks_in(
                table,
                other,
            ),
    decreases n,
{
    if n > 0 {
        lemma_clicks_add_up(table, path, (n - 1) as nat);
    }
}

/// Law: a count never goes down, whatever is clicked.
pub proof fn lemma_clicks_never_decrease(
    table: Map<Seq<char>, u32>,
    clicked_path: Seq<char>,
    path: Seq<char>,
)
    ensures
        clicks_in(clicked(table, clicked_path), path) >= clicks_in(table, path),
{
}

/// Replacing the count of one record replaces the count of its path in the
/// table.
proof fn lemma_replaced(before: Seq<ClickRecord>, after: Seq<ClickRecord>, at: int)
    requires
        distinct_paths(before),
        0 <= at < before.len(),
        after.len() == before.len(),
        after[at].path@ == before[at].path@,
        forall|j: int| 0 <= j < before.len() && j != at ==> after[j] == before[j],
    ensures
        distinct_paths(after),
        table_of(after) == table_of(before).insert(before[at].path@, after[at].count),
{
    let path = before[at].path@;
    let count = after[at].count;
    assert forall|a: int, b: int| 0 <= a < b < after.len() implies (#[trigger] after[a]).path@ != (
    #[trigger] after[b]).path@ by {
        assert(after[a].path@ == before[a].path@);
        assert(after[b].path@ == before[b].path@);
    }
    lemma_table_of(before);
    lemma_table_of(after);
    assert forall|p: Seq<char>| table_of(after).contains_key(p) <==> table_of(before).insert(
        path,
        count,
    ).contains_key(p) by {
        if table_of(after).contains_key(p) {
            let j = choose|j: int| 0 <= j < after.len() && (#[trigger] after[j]).path@ == p;
            assert(before[j].path@ == p);
        }
        if table_of(before).contains_key(p) {
            let j = choose|j: int| 0 <= j < before.len() && (#[trigger] before[j]).path@ == p;
            assert(after[j].path@ == p);
        }
        if p == path {
            assert(after[at].path@ == p);
        }
    }
    assert forall|p: Seq<char>| table_of(after).contains_key(p) implies table_of(after)[p]
        == table_of(before).insert(path, count)[p] by {
        let j = choose|j: int| 0 <= j < after.len() && (#[trigger] after[j]).path@ == p;
        if j != at {
            assert(before[j].path@ == p);
            assert(after[j] == before[j]);
        }
    }
    assert(table_of(after) =~= table_of(before).insert(path, count));
}

/// The click counts of all paths that were ever opened.
pub struct ClickHistory {
    records: Vec<ClickRecord>,
}

impl View for ClickHistory {
    type V = Map<Seq<char>, u32>;

    closed spec fn view(&self) -> Map<Seq<char>, u32> {
        table_of(self.records@)
    }
}

impl ClickHistory {
    /// The representation holds each path once.
    #[verifier::type_invariant]
    spec fn each_path_once(&self) -> bool {
        distinct_paths(self.records@)
    }

    /// The recorded number of clicks on `path`: zero where none was
    /// recorded.
    pub open spec fn clicks(&self, path: Seq<char>) -> nat {
        clicks_in(self@, path)
    }

    /// A history without clicks.
    pub fn new() -> (history: Self)
        ensures
            history@ == Map::<Seq<char>, u32>::empty(),
    {
        ClickHistory { records: Vec::new() }
    }

    /// Where the record of `path` stands, if there is one.
    fn position(&self, path: &String) -> (at: Option<usize>)
        ensures
            match at {
                Some(i) => i < self.records@.len() && self.records@[i as int].path@ == path@
                    && self@.contains_key(path@) && self@[path@] == self.records@[i as int].count,
                None => !self@.contains_key(path@),
            },
    {
        proof {
            use_type_invariant(self);
        }
        let mut i: usize = 0;
        while i < self.records.len()
            invariant
                i <= self.records.len(),
                distinct_paths(self.records@),
                forall|j: int| 0 <= j < i ==> (#[trigger] self.records@[j]).path@ != path@,
            decreases self.records.len() - i,
        {
            if self.records[i].path == *path {
                proof {
                    lemma_table_of(self.records@);
                }
                return Some(i);
            }
            i += 1;
        }
        proof {
            lemma_table_of(self.records@);
        }
        None
    }

    /// The recorded number of clicks on `path`.
    pub fn count(&self, path: &str) -> (n: u32)
        ensures
            n == self.clicks(path@),
    {
        let key = path.to_owned();
        match self.position(&key) {
            Some(i) => self.records[i].count,
            None => 0,
        }
    }

    /// Sets the count of `path`.
    pub fn set_count(&mut self, path: &str, count: u32)
        ensures
            final(self)@ == old(self)@.insert(path@, count),
    {
        proof {
            use_type_invariant(&*self);
        }
        let key = path.to_owned();
        let ghost before = self.records@;
        let mut records: Vec<ClickRecord> = Vec::new();
        match self.position(&key) {
            Some(i) => {
                std::mem::swap(&mut records, &mut self.records);
                records.set(i, ClickRecord { path: key, count });
                proof {
                    lemma_replaced(before, records@, i as int);
                }
            },
            None => {
                std::mem::swap(&mut records, &mut self.records);
                records.push(ClickRecord { path: key, count });
                proof {
                    lemma_table_of(before);
                    assert(records@.drop_last() =~= before);
                }
            },
        }
        self.records = records;
    }

    /// The history that a list of records stands for. Of a path that stands
    /// twice, the later count holds.
    pub fn from_records(records: &Vec<ClickRecord>) -> (history: Self)
        ensures
            history@ == table_of(records@),
    {
        let mut history = ClickHistory::new();
        let mut i: usize = 0;
        assert(records@.take(0) =~= Seq::empty());
        while i < records.len()
            invariant
                i <= records.len(),
                history@ == table_of(records@.take(i as int)),
            decreases records.len() - i,
        {
            proof {
                assert(records@.take(i + 1).drop_last() =~= records@.take(i as int));
                assert(records@.take(i + 1).last() == records@[i as int]);
            }
            history.set_count(records[i].path.as_str(), records[i].count);
            i += 1;
        }
        assert(records@.take(i as int) =~= records@);
        history
    }

    /// The records of the history: each path once, with its count.
    pub fn records(&self) -> (records: &Vec<ClickRecord>)
        ensures
            table_of(records@) == self@,
            distinct_paths(records@),
    {
        proof {
            use_type_invariant(self);
        }
        &self.records
    }

    /// Reads a history from its stored form. Returns `None` where the text
    /// is not the stored form of any history.
    pub fn from_json(text: &str) -> (history: Option<Self>)
        ensures
            match history {
                Some(h) => decoded_counts(text@) == Some(h@),
                None => decoded_counts(text@) is None,
            },
    {
        match decode_counts(text) {
            Some(records) => Some(Self::from_records(&records)),
            None => None,
        }
    }

    /// The stored form of the history. There always is one.
    pub fn to_json(&self) -> (text: Option<String>)
        ensures
            text is Some,
            text->0@ == encoded_counts(self@),
    {
        proof {
            use_type_invariant(self);
        }
        encode_counts(&self.records)
    }

    /// Records one click on `path`. Returns whether the click was counted:
    /// it is, unless the counter of `path` has reached the largest number it
    /// can hold, in which case the history stays as it was.
    pub fn record_click(&mut self, path: &str) -> (counted: bool)
        ensures
            counted == (old(self).clicks(path@) < u32::MAX),
            final(self)@ == clicked(old(self)@, path@),
    {
        let count = self.count(path);
        if count == u32::MAX {
            return false;
        }
        self.set_count(path, count + 1);
        true
    }
}

} // verus!
