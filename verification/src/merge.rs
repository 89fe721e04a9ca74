//! Reconciling the two branches of a search: one list, each path once.
//!
//! Paths that were seen are found again through their fingerprints, so that
//! a long list is not walked once for every path. vstd models the hashing of
//! integers and not of strings: the buckets are keyed by the fingerprint of
//! a path, and the paths of a bucket are compared in full.

use crate::rank::{insert_ranked, lemma_rank_position, rank_position, ranked, truncated};
use crate::result::{hits, Hit, SearchResult};
use std::collections::HashMap;
use vstd::prelude::*;

verus! {

/// Some entry of the list has this path.
pub open spec fn has_path(list: Seq<Hit>, path: Seq<char>) -> bool {
    exists|i: int| 0 <= i < list.len() && (#[trigger] list[i]).path == path
}

/// No path stands twice in the list.
pub open spec fn distinct_paths(list: Seq<Hit>) -> bool {
    forall|i: int, j: int|
        0 <= i < j < list.len() ==> (#[trigger] list[i]).path != (#[trigger] list[j]).path
}

/// The list without the entries whose path stood in it before: of each path
/// the first entry stays.
pub open spec fn first_of_each(list: Seq<Hit>) -> Seq<Hit>
    decreases list.len(),
{
    if list.len() == 0 {
        Seq::empty()
    } else if has_path(list.drop_last(), list.last().path) {
        first_of_each(list.drop_last())
    } else {
        first_of_each(list.drop_last()).push(list.last())
    }
}

/// The paths of a list are those of the list without its last entry, and the
/// path of that entry.
pub proof fn lemma_has_path_step(list: Seq<Hit>)
    requires
        list.len() > 0,
    ensures
        forall|p: Seq<char>|
            has_path(list, p) <==> (has_path(list.drop_last(), p) || p == list.last().path),
{
    let init = list.drop_last();
    assert forall|p: Seq<char>| has_path(list, p) <==> (has_path(init, p) || p
        == list.last().path) by {
        if has_path(list, p) {
            let i = choose|i: int| 0 <= i < list.len() && (#[trigger] list[i]).path == p;
            if i < init.len() {
                assert(init[i].path == p);
            }
        }
        if has_path(init, p) {
            let i = choose|i: int| 0 <= i < init.len() && (#[trigger] init[i]).path == p;
            assert(list[i].path == p);
        }
        if p == list.last().path {
            assert(list[list.len() - 1].path == p);
        }
    }
}

/// Law: after deduplication no path stands twice, and no path is lost.
pub proof fn lemma_first_of_each(list: Seq<Hit>)
    ensures
        distinct_paths(first_of_each(list)),
        forall|p: Seq<char>| has_path(first_of_each(list), p) <==> has_path(list, p),
    decreases list.len(),
{
    if list.len() > 0 {
        let init = list.drop_last();
        let last = list.last();
        let kept = first_of_each(init);
        let out = first_of_each(list);
        lemma_first_of_each(init);
        lemma_has_path_step(list);
        if has_path(init, last.path) {
        } else {
            assert(!has_path(kept, last.path));
            assert forall|i: int, j: int| 0 <= i < j < out.len() implies (#[trigger] out[i]).path
                != (#[trigger] out[j]).path by {
                assert(out[i] == kept[i]);
                if j < kept.len() {
                    assert(out[j] == kept[j]);
                }
            }
            assert forall|p: Seq<char>| has_path(out, p) <==> (has_path(kept, p) || p
                == last.path) by {
                if has_path(out, p) {
                    let i = choose|i: int| 0 <= i < out.len() && (#[trigger] out[i]).path == p;
                    if i < kept.len() {
                        assert(kept[i].path == p);
                    }
                }
                if has_path(kept, p) {
                    let i = choose|i: int| 0 <= i < kept.len() && (#[trigger] kept[i]).path == p;
                    assert(out[i].path == p);
                }
                if p == last.path {
                    assert(out[out.len() - 1].path == p);
                }
            }
        }
    }
}

/// Putting a hit with a new path in its place keeps the paths distinct.
pub proof fn lemma_insert_distinct(list: Seq<Hit>, hit: Hit)
    requires
        distinct_paths(list),
        !has_path(list, hit.path),
    ensures
        distinct_paths(insert_ranked(list, hit)),
        forall|p: Seq<char>|
            has_path(insert_ranked(list, hit), p) <==> (has_path(list, p) || p == hit.path),
{
    lemma_rank_position(list, hit);
    let at = rank_position(list, hit);
    let out = insert_ranked(list, hit);
    assert forall|i: int| 0 <= i < out.len() implies (#[trigger] out[i]) == (if i < at {
        list[i]
    } else if i == at {
        hit
    } else {
        list[i - 1]
    }) by {}
    assert forall|i: int, j: int| 0 <= i < j < out.len() implies (#[trigger] out[i]).path != (
    #[trigger] out[j]).path by {
        let a = if i < at {
            i
        } else {
            i - 1
        };
        let b = if j < at {
            j
        } else {
            j - 1
        };
        if i != at && j != at {
            assert(list[a].path != list[b].path);
        } else if i == at {
            assert(list[b].path != hit.path);
        } else {
            assert(list[a].path != hit.path);
        }
    }
    assert forall|p: Seq<char>| has_path(out, p) <==> (has_path(list, p) || p == hit.path) by {
        if has_path(out, p) {
            let i = choose|i: int| 0 <= i < out.len() && (#[trigger] out[i]).path == p;
            if i < at {
                assert(list[i].path == p);
            } else if i > at {
                assert(list[i - 1].path == p);
            }
        }
        if has_path(list, p) {
            let i = choose|i: int| 0 <= i < list.len() && (#[trigger] list[i]).path == p;
            if i < at {
                assert(out[i].path == p);
            } else {
                assert(out[i + 1].path == p);
            }
        }
        if p == hit.path {
            assert(out[at].path == p);
        }
    }
}

/// Ranking a list of distinct paths gives a list of the same, distinct
/// paths.
pub proof fn lemma_ranked_distinct(list: Seq<Hit>)
    requires
        distinct_paths(list),
    ensures
        distinct_paths(ranked(list)),
        forall|p: Seq<char>| has_path(ranked(list), p) <==> has_path(list, p),
    decreases list.len(),
{
    if list.len() > 0 {
        let init = list.drop_last();
        let last = list.last();
        assert forall|i: int, j: int| 0 <= i < j < init.len() implies (#[trigger] init[i]).path
            != (#[trigger] init[j]).path by {
            assert(init[i] == list[i] && init[j] == list[j]);
        }
        lemma_ranked_distinct(init);
        assert(!has_path(init, last.path)) by {
            if has_path(init, last.path) {
                let i = choose|i: int|
                    0 <= i < init.len() && (#[trigger] init[i]).path == last.path;
                assert(list[i] == init[i]);
                assert(list[list.len() - 1] == last);
            }
        }
        lemma_insert_distinct(ranked(init), last);
        lemma_has_path_step(list);
    }
}

/// Cutting a list of distinct paths short leaves its paths distinct.
pub proof fn lemma_truncated_distinct(list: Seq<Hit>, limit: nat)
    requires
        distinct_paths(list),
    ensures
        distinct_paths(truncated(list, limit)),
{
    let out = truncated(list, limit);
    assert forall|i: int, j: int| 0 <= i < j < out.len() implies (#[trigger] out[i]).path != (
    #[trigger] out[j]).path by {
        assert(out[i] == list[i] && out[j] == list[j]);
    }
}

/// Where a fingerprint starts.
pub const FINGERPRINT_SEED: u64 = 0xcbf2_9ce4_8422_2325;

/// What a fingerprint is multiplied by at each character.
pub const FINGERPRINT_PRIME: u64 = 0x0000_0100_0000_01b3;

/// A fingerprint after one more character.
pub open spec fn mixed(print: u64, c: char) -> u64 {
    (print ^ (c as u64)).wrapping_mul(FINGERPRINT_PRIME)
}

/// The fingerprint of a text: a number that is the same for the same text.
pub open spec fn fingerprint(text: Seq<char>) -> u64
    decreases text.len(),
{
    if text.len() == 0 {
        FINGERPRINT_SEED
    } else {
        mixed(fingerprint(text.drop_last()), text.last())
    }
}

/// The fingerprint of a text.
pub fn fingerprint_of(text: &str) -> (print: u64)
    ensures
        print == fingerprint(text@),
{
    let mut print: u64 = FINGERPRINT_SEED;
    for c in it: text.chars()
        invariant
            it.seq() == text@,
            print == fingerprint(it.seq().take(it.index() as int)),
    {
        proof {
            let next = it.seq().take(it.index() + 1);
            assert(next.drop_last() =~= it.seq().take(it.index() as int));
            assert(next.last() == c);
        }
        print = (print ^ (c as u64)).wrapping_mul(FINGERPRINT_PRIME);
    }
    assert(text@.take(text@.len() as int) =~= text@);
    print
}

/// The bucket holds this place.
spec fn holds_place(bucket: Seq<usize>, place: int) -> bool {
    exists|k: int| 0 <= k < bucket.len() && #[trigger] bucket[k] == place
}

/// The buckets lead to every entry of the list: the place of each entry
/// stands in the bucket of its path's fingerprint, and no bucket holds a
/// place beyond the list.
spec fn leads_to(buckets: Map<u64, Vec<usize>>, list: Seq<Hit>) -> bool {
    &&& forall|j: int|
        0 <= j < list.len() ==> buckets.contains_key(fingerprint((#[trigger] list[j]).path))
            && holds_place(buckets[fingerprint(list[j].path)]@, j)
    &&& forall|print: u64, k: int|
        buckets.contains_key(print) && 0 <= k < buckets[print]@.len() ==> (
        #[trigger] buckets[print]@[k]) < list.len()
}

/// Whether one of the results has this path.
fn holds_path(
    results: &Vec<SearchResult>,
    buckets: &HashMap<u64, Vec<usize>>,
    path: &String,
    print: u64,
) -> (r: bool)
    requires
        leads_to(buckets@, hits(results@)),
        print == fingerprint(path@),
    ensures
        r == has_path(hits(results@), path@),
{
    broadcast use vstd::std_specs::hash::group_hash_axioms;

    let ghost list = hits(results@);
    match buckets.get(&print) {
        None => {
            assert(!has_path(list, path@)) by {
                if has_path(list, path@) {
                    let j = choose|j: int| 0 <= j < list.len() && (#[trigger] list[j]).path == path@;
                    assert(buckets@.contains_key(fingerprint(list[j].path)));
                }
            }
            false
        },
        Some(bucket) => {
            assert(bucket == buckets@[print]);
            let mut k: usize = 0;
            while k < bucket.len()
                invariant
                    k <= bucket.len(),
                    list == hits(results@),
                    leads_to(buckets@, list),
                    buckets@.contains_key(print),
                    bucket == buckets@[print],
                    print == fingerprint(path@),
                    forall|m: int| 0 <= m < k ==> list[(#[trigger] bucket@[m]) as int].path != path@,
                decreases bucket.len() - k,
            {
                let at = bucket[k];
                assert(buckets@[print]@[k as int] < list.len());
                if results[at].path == *path {
                    assert(list[at as int].path == path@);
                    return true;
                }
                k += 1;
            }
            assert(!has_path(list, path@)) by {
                if has_path(list, path@) {
                    let j = choose|j: int| 0 <= j < list.len() && (#[trigger] list[j]).path == path@;
                    assert(holds_place(bucket@, j));
                    let m = choose|m: int| 0 <= m < bucket@.len() && #[trigger] bucket@[m] == j;
                    assert(list[bucket@[m] as int].path != path@);
                }
            }
            false
        },
    }
}

/// Notes in the buckets that the entry with this fingerprint stands at the
/// end of the list.
fn note(
    buckets: &mut HashMap<u64, Vec<usize>>,
    print: u64,
    at: usize,
    Ghost(list): Ghost<Seq<Hit>>,
    Ghost(hit): Ghost<Hit>,
)
    requires
        leads_to(old(buckets)@, list),
        at == list.len(),
        print == fingerprint(hit.path),
    ensures
        leads_to(final(buckets)@, list.push(hit)),
{
    broadcast use vstd::std_specs::hash::group_hash_axioms;

    let ghost before = buckets@;
    let mut bucket = match buckets.remove(&print) {
        Some(bucket) => bucket,
        None => Vec::new(),
    };
    let ghost old_bucket = bucket@;
    bucket.push(at);
    let ghost new_bucket = bucket@;
    buckets.insert(print, bucket);
    proof {
        let after = buckets@;
        let longer = list.push(hit);
        assert(before.contains_key(print) ==> old_bucket == before[print]@);
        assert forall|j: int| 0 <= j < longer.len() implies after.contains_key(
            fingerprint((#[trigger] longer[j]).path),
        ) && holds_place(after[fingerprint(longer[j].path)]@, j) by {
            if j < list.len() {
                assert(longer[j] == list[j]);
                let p = fingerprint(list[j].path);
                assert(before.contains_key(p) && holds_place(before[p]@, j));
                if p == print {
                    let m = choose|m: int|
                        0 <= m < old_bucket.len() && #[trigger] old_bucket[m] == j;
                    assert(new_bucket[m] == j);
                }
            } else {
                assert(new_bucket[new_bucket.len() - 1] == at);
            }
        }
        assert forall|p: u64, k: int|
            after.contains_key(p) && 0 <= k < after[p]@.len() implies (#[trigger] after[p]@[k])
            < longer.len() by {
            if p == print {
                if k < old_bucket.len() {
                    assert(before.contains_key(print));
                    assert(new_bucket[k] == before[print]@[k]);
                }
            } else {
                assert(after[p] == before[p]);
            }
        }
    }
}

/// Appends to `kept` a copy of each result whose path is new.
fn absorb(
    kept: &mut Vec<SearchResult>,
    buckets: &mut HashMap<u64, Vec<usize>>,
    results: &Vec<SearchResult>,
    Ghost(seen): Ghost<Seq<Hit>>,
)
    requires
        hits(old(kept)@) == first_of_each(seen),
        leads_to(old(buckets)@, hits(old(kept)@)),
    ensures
        hits(final(kept)@) == first_of_each(seen + hits(results@)),
        leads_to(final(buckets)@, hits(final(kept)@)),
{
    let ghost all = hits(results@);
    let mut i: usize = 0;
    assert(seen + all.take(0) =~= seen);
    while i < results.len()
        invariant
            i <= results.len(),
            all == hits(results@),
            hits(kept@) == first_of_each(seen + all.take(i as int)),
            leads_to(buckets@, hits(kept@)),
        decreases results.len() - i,
    {
        proof {
            let list = seen + all.take(i + 1);
            assert(list.drop_last() =~= seen + all.take(i as int));
            assert(list.last() == results@[i as int]@);
            lemma_first_of_each(list.drop_last());
        }
        let print = fingerprint_of(results[i].path.as_str());
        if !holds_path(kept, buckets, &results[i].path, print) {
            let ghost before = kept@;
            let copy = results[i].duplicate();
            note(buckets, print, kept.len(), Ghost(hits(kept@)), Ghost(copy@));
            kept.push(copy);
            assert(hits(kept@) =~= hits(before).push(copy@));
        }
        i += 1;
    }
    assert(all.take(i as int) =~= all);
}

/// The results of `first` followed by those of `second`, of each path the
/// first entry only.
pub fn merge(first: &Vec<SearchResult>, second: &Vec<SearchResult>) -> (out: Vec<SearchResult>)
    ensures
        hits(out@) == first_of_each(hits(first@) + hits(second@)),
        distinct_paths(hits(out@)),
{
    let mut out: Vec<SearchResult> = Vec::new();
    let mut buckets: HashMap<u64, Vec<usize>> = HashMap::new();
    assert(hits(out@) =~= first_of_each(Seq::empty()));
    absorb(&mut out, &mut buckets, first, Ghost(Seq::empty()));
    assert(Seq::<Hit>::empty() + hits(first@) =~= hits(first@));
    absorb(&mut out, &mut buckets, second, Ghost(hits(first@)));
    proof {
        lemma_first_of_each(hits(first@) + hits(second@));
    }
    out
}

} // verus!
