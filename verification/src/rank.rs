//! The final order of a result list: by descending score, entries of equal
//! score in the order in which they were found, cut off at a limit.
//!
//! vstd has no specification for the sorts of the standard library. The
//! order is built here by putting each result in its place among the best
//! so far, which is proved to be the stable order.

use crate::result::{hits, Hit, SearchResult};
use vstd::prelude::*;

verus! {

/// Where `hit` goes in a ranked list: just behind the last entry whose score
/// is at least its own.
pub open spec fn rank_position(ranked: Seq<Hit>, hit: Hit) -> int
    decreases ranked.len(),
{
    if ranked.len() == 0 {
        0
    } else if ranked.last().score >= hit.score {
        ranked.len() as int
    } else {
        rank_position(ranked.drop_last(), hit)
    }
}

/// A ranked list with one more hit in its place.
pub open spec fn insert_ranked(ranked: Seq<Hit>, hit: Hit) -> Seq<Hit> {
    ranked.insert(rank_position(ranked, hit), hit)
}

/// The hits in ranked order: each put in its place in turn.
pub open spec fn ranked(list: Seq<Hit>) -> Seq<Hit>
    decreases list.len(),
{
    if list.len() == 0 {
        Seq::empty()
    } else {
        insert_ranked(ranked(list.drop_last()), list.last())
    }
}

/// No entry has a lower score than one behind it.
pub open spec fn descending(list: Seq<Hit>) -> bool {
    forall|i: int, j: int| 0 <= i < j < list.len() ==> list[i].score >= list[j].score
}

/// The first `limit` entries, or all of them where there are fewer.
pub open spec fn truncated<A>(list: Seq<A>, limit: nat) -> Seq<A> {
    if list.len() > limit {
        list.take(limit as int)
    } else {
        list
    }
}

/// The test "has this score".
pub open spec fn has_score(score: int) -> spec_fn(Hit) -> bool {
    |h: Hit| h.score == score
}

/// What `rank_position` finds: everything from there on scores lower, and
/// the entry before it, if any, does not.
pub proof fn lemma_rank_position(ranked: Seq<Hit>, hit: Hit)
    ensures
        0 <= rank_position(ranked, hit) <= ranked.len(),
        forall|i: int|
            rank_position(ranked, hit) <= i < ranked.len() ==> ranked[i].score < hit.score,
        rank_position(ranked, hit) > 0 ==> ranked[rank_position(ranked, hit) - 1].score
            >= hit.score,
    decreases ranked.len(),
{
    if ranked.len() > 0 && ranked.last().score < hit.score {
        let init = ranked.drop_last();
        lemma_rank_position(init, hit);
        assert forall|i: int| rank_position(ranked, hit) <= i < ranked.len() implies ranked[i].score
            < hit.score by {
            if i < init.len() {
                assert(init[i] == ranked[i]);
            }
        }
        if rank_position(ranked, hit) > 0 {
            assert(init[rank_position(ranked, hit) - 1] == ranked[rank_position(ranked, hit) - 1]);
        }
    }
}

/// The place is decided by what it says: any index with lower scores from
/// there on and no lower score just before it is the rank position.
pub proof fn lemma_rank_position_is(ranked: Seq<Hit>, hit: Hit, at: int)
    requires
        0 <= at <= ranked.len(),
        forall|i: int| at <= i < ranked.len() ==> ranked[i].score < hit.score,
        at > 0 ==> ranked[at - 1].score >= hit.score,
    ensures
        rank_position(ranked, hit) == at,
    decreases ranked.len(),
{
    if ranked.len() > 0 && at < ranked.len() {
        let init = ranked.drop_last();
        assert forall|i: int| at <= i < init.len() implies init[i].score < hit.score by {
            assert(init[i] == ranked[i]);
        }
        if at > 0 {
            assert(init[at - 1] == ranked[at - 1]);
        }
        lemma_rank_position_is(init, hit, at);
    }
}

/// Putting a hit in its place keeps a descending list descending.
pub proof fn lemma_insert_descending(ranked: Seq<Hit>, hit: Hit)
    requires
        descending(ranked),
    ensures
        descending(insert_ranked(ranked, hit)),
        insert_ranked(ranked, hit).len() == ranked.len() + 1,
{
    lemma_rank_position(ranked, hit);
    let at = rank_position(ranked, hit);
    let out = insert_ranked(ranked, hit);
    assert forall|i: int, j: int| 0 <= i < j < out.len() implies out[i].score
        >= out[j].score by {
        if at > 0 && i < at {
            assert(ranked[i].score >= ranked[at - 1].score);
        }
    }
}

/// Law: a ranked list is in descending order of score and is as long as the
/// list it was made from.
pub proof fn lemma_ranked_descending(list: Seq<Hit>)
    ensures
        descending(ranked(list)),
        ranked(list).len() == list.len(),
    decreases list.len(),
{
    if list.len() > 0 {
        lemma_ranked_descending(list.drop_last());
        lemma_insert_descending(ranked(list.drop_last()), list.last());
    }
}

/// Law: ranking only reorders. Every hit occurs in the ranked list as often
/// as in the list it was made from.
pub proof fn lemma_ranked_permutes(list: Seq<Hit>)
    ensures
        ranked(list).to_multiset() == list.to_multiset(),
    decreases list.len(),
{
    broadcast use vstd::seq_lib::to_multiset_insert, vstd::seq_lib::to_multiset_build;

    if list.len() > 0 {
        let init = list.drop_last();
        lemma_ranked_permutes(init);
        lemma_rank_position(ranked(init), list.last());
        assert(list =~= init.push(list.last()));
    } else {
        assert(ranked(list) =~= list);
    }
}

/// Putting a hit in its place puts it behind every hit of the same score.
pub proof fn lemma_insert_keeps_ties(ranked: Seq<Hit>, hit: Hit, score: int)
    ensures
        insert_ranked(ranked, hit).filter(has_score(score)) == if hit.score == score {
            ranked.filter(has_score(score)).push(hit)
        } else {
            ranked.filter(has_score(score))
        },
{
    broadcast use Seq::filter_distributes_over_add, Seq::lemma_filter_push;

    lemma_rank_position(ranked, hit);
    let at = rank_position(ranked, hit);
    let front = ranked.take(at);
    let back = ranked.skip(at);
    let test = has_score(score);
    assert(ranked =~= front + back);
    assert(insert_ranked(ranked, hit) =~= front.push(hit) + back);
    if hit.score == score {
        assert forall|i: int| 0 <= i < back.len() implies !test(#[trigger] back[i]) by {
            assert(back[i] == ranked[at + i]);
        }
        back.lemma_all_neg_filter_empty(test);
        assert(back.filter(test) =~= Seq::empty());
        assert(front.filter(test).push(hit) + Seq::<Hit>::empty() =~= front.filter(test).push(
            hit,
        ));
        assert(front.filter(test) + Seq::<Hit>::empty() =~= front.filter(test));
    }
}

/// Law: ranking is stable. The hits of any one score stand in the ranked
/// list in the order in which they stood in the list it was made from.
pub proof fn lemma_ranked_keeps_ties(list: Seq<Hit>, score: int)
    ensures
        ranked(list).filter(has_score(score)) == list.filter(has_score(score)),
    decreases list.len(),
{
    broadcast use Seq::lemma_filter_push;

    if list.len() > 0 {
        let init = list.drop_last();
        lemma_ranked_keeps_ties(init, score);
        lemma_insert_keeps_ties(ranked(init), list.last(), score);
        assert(list =~= init.push(list.last()));
    } else {
        assert(ranked(list) =~= list);
    }
}

/// The head of a descending list after an insertion depends on the head of
/// the list alone.
pub proof fn lemma_truncated_insert(ranked: Seq<Hit>, hit: Hit, limit: nat)
    requires
        descending(ranked),
    ensures
        truncated(insert_ranked(ranked, hit), limit) == truncated(
            insert_ranked(truncated(ranked, limit), hit),
            limit,
        ),
{
    if ranked.len() > limit {
        lemma_rank_position(ranked, hit);
        let at = rank_position(ranked, hit);
        let head = ranked.take(limit as int);
        if at <= limit {
            lemma_rank_position_is(head, hit, at);
            assert(ranked.insert(at, hit).take(limit as int) =~= head.insert(at, hit).take(
                limit as int,
            ));
        } else {
            assert(limit > 0 ==> ranked[limit - 1].score >= ranked[at - 1].score);
            lemma_rank_position_is(head, hit, limit as int);
            assert(ranked.insert(at, hit).take(limit as int) =~= head);
            assert(head.insert(limit as int, hit).take(limit as int) =~= head);
        }
    }
}

/// Inserting a result inserts what it stands for.
proof fn lemma_hits_insert(results: Seq<SearchResult>, at: int, result: SearchResult)
    requires
        0 <= at <= results.len(),
    ensures
        hits(results.insert(at, result)) == hits(results).insert(at, result@),
{
    assert(hits(results.insert(at, result)) =~= hits(results).insert(at, result@));
}

/// Dropping the last result drops what it stands for.
proof fn lemma_hits_take(results: Seq<SearchResult>, n: int)
    requires
        0 <= n <= results.len(),
    ensures
        hits(results.take(n)) == hits(results).take(n),
{
    assert(hits(results.take(n)) =~= hits(results).take(n));
}

/// Where `result` goes in `top`.
fn position_in(top: &Vec<SearchResult>, result: &SearchResult) -> (at: usize)
    ensures
        at == rank_position(hits(top@), result@),
        at <= top.len(),
{
    let ghost before = hits(top@);
    let ghost hit = result@;
    let mut at: usize = top.len();
    while at > 0 && top[at - 1].score < result.score
        invariant
            at <= top.len(),
            before == hits(top@),
            hit == result@,
            forall|i: int| at <= i < before.len() ==> before[i].score < hit.score,
        decreases at,
    {
        assert(before[at - 1] == top@[at - 1]@);
        at -= 1;
    }
    proof {
        if at > 0 {
            assert(before[at - 1] == top@[at - 1]@);
        }
        lemma_rank_position_is(before, hit, at as int);
    }
    at
}

/// Puts a copy of `result` in its place in `top` and drops what falls
/// behind the limit.
fn place(top: &mut Vec<SearchResult>, result: &SearchResult, limit: usize)
    requires
        old(top)@.len() <= limit,
    ensures
        final(top)@.len() <= limit,
        hits(final(top)@) == truncated(insert_ranked(hits(old(top)@), result@), limit as nat),
{
    let ghost start = top@;
    let ghost before = hits(top@);
    let ghost hit = result@;
    let at = position_in(top, result);
    if at == limit {
        assert(before.insert(at as int, hit).take(limit as int) =~= before);
        return ;
    }
    let copy = result.duplicate();
    top.insert(at, copy);
    proof {
        lemma_hits_insert(start, at as int, copy);
    }
    if top.len() > limit {
        let ghost full = top@;
        top.pop();
        proof {
            assert(top@ =~= full.take(limit as int));
            lemma_hits_take(full, limit as int);
        }
    }
}

/// The `limit` best results in ranked order: by descending score, results of
/// equal score in the order of `results`.
pub fn rank(results: &Vec<SearchResult>, limit: usize) -> (top: Vec<SearchResult>)
    ensures
        hits(top@) == truncated(ranked(hits(results@)), limit as nat),
{
    let ghost all = hits(results@);
    let mut top: Vec<SearchResult> = Vec::new();
    let mut i: usize = 0;
    assert(all.take(0) =~= Seq::empty());
    assert(hits(top@) =~= Seq::empty());
    while i < results.len()
        invariant
            i <= results.len(),
            all == hits(results@),
            top@.len() <= limit,
            hits(top@) == truncated(ranked(all.take(i as int)), limit as nat),
        decreases results.len() - i,
    {
        proof {
            let done = all.take(i as int);
            assert(all.take(i + 1).drop_last() =~= done);
            assert(all.take(i + 1).last() == results@[i as int]@);
            lemma_ranked_descending(done);
            lemma_truncated_insert(ranked(done), results@[i as int]@, limit as nat);
        }
        place(&mut top, &results[i], limit);
        i += 1;
    }
    assert(all.take(i as int) =~= all);
    top
}

} // verus!
