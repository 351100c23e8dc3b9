//! Trust tables and their shares.
//!
//! A table maps a peer to its raw score. Its total is the sum of all its
//! scores, and the share of a peer is its score set against that total. A
//! share is kept as the exact pair of the two integers, so that nothing is
//! rounded here: the quotient is taken by whoever needs a decimal number.

use std::collections::HashMap;
use std::hash::Hash;
use vstd::prelude::*;
use vstd::std_specs::hash::obeys_key_model;
use vstd::std_specs::iter::IteratorSpec;

verus! {

/// The share of one peer in a table: the fraction `score / total`.
///
/// `total` is zero for a table whose scores cancel out or are all zero. The
/// fraction then has no value, and the pair says so by its zero denominator.
#[derive(Clone, Copy, Debug, PartialEq, Eq)]
pub struct NormalizedTrust {
    /// The peer's raw score when the shares were computed.
    pub score: i64,
    /// The sum of all raw scores of the table at that time.
    pub total: i128,
}

/// The sum of all scores of a finite table; zero for the empty table.
pub open spec fn total_trust<K>(scores: Map<K, i64>) -> int
    decreases scores.dom().len(),
{
    if scores.dom().finite() && scores.dom().len() > 0 {
        let peer = scores.dom().choose();
        scores[peer] + total_trust(scores.remove(peer))
    } else {
        0
    }
}

/// `shares` is what normalizing `scores` gives: the same peers, and for each
/// its own score over the total of the whole table.
pub open spec fn is_normalization_of<K>(
    shares: Map<K, NormalizedTrust>,
    scores: Map<K, i64>,
) -> bool {
    &&& shares.dom() == scores.dom()
    &&& forall|peer: K| #[trigger]
        shares.contains_key(peer) ==> shares[peer].score == scores[peer] && shares[peer].total
            == total_trust(scores)
}

/// The table after a peer was met: a peer that it already holds keeps its
/// score, a new one enters with `score`.
pub open spec fn initialized<K>(scores: Map<K, i64>, peer: K, score: i64) -> Map<K, i64> {
    if scores.contains_key(peer) {
        scores
    } else {
        scores.insert(peer, score)
    }
}

/// A sum of scores brought back into the range of a score: a sum beyond
/// either end of the range is the nearest end.
pub open spec fn saturated(sum: int) -> i64 {
    if sum > i64::MAX {
        i64::MAX
    } else if sum < i64::MIN {
        i64::MIN
    } else {
        sum as i64
    }
}

/// The table after `delta` was added to the score of `peer`: unchanged where
/// the table does not hold the peer.
pub open spec fn updated<K>(scores: Map<K, i64>, peer: K, delta: i64) -> Map<K, i64> {
    if scores.contains_key(peer) {
        scores.insert(peer, saturated(scores[peer] + delta))
    } else {
        scores
    }
}

/// Adds `delta` to `score`. A sum that no score can hold stops at the end of
/// the range that it went beyond.
pub fn accumulate(score: i64, delta: i64) -> (sum: i64)
    ensures
        sum == saturated(score + delta),
{
    match score.checked_add(delta) {
        Some(sum) => sum,
        None => if delta < 0 {
            i64::MIN
        } else {
            i64::MAX
        },
    }
}

/// The sum of the numerators of a table of shares.
pub open spec fn score_sum<K>(shares: Map<K, NormalizedTrust>) -> int {
    total_trust(shares.map_values(|share: NormalizedTrust| share.score))
}

/// The total may be split at any peer of the table, not only at the one that
/// the definition happens to pick.
pub proof fn lemma_total_trust_remove<K>(scores: Map<K, i64>, peer: K)
    requires
        scores.dom().finite(),
        scores.contains_key(peer),
    ensures
        total_trust(scores) == scores[peer] + total_trust(scores.remove(peer)),
    decreases scores.dom().len(),
{
    let first = scores.dom().choose();
    if first != peer {
        lemma_total_trust_remove(scores.remove(first), peer);
        lemma_total_trust_remove(scores.remove(peer), first);
        assert(scores.remove(first).remove(peer) =~= scores.remove(peer).remove(first));
    }
}

/// Adding a new peer to a table raises the total by that peer's score.
pub proof fn lemma_total_trust_insert<K>(scores: Map<K, i64>, peer: K, score: i64)
    requires
        scores.dom().finite(),
        !scores.contains_key(peer),
    ensures
        total_trust(scores.insert(peer, score)) == total_trust(scores) + score,
{
    lemma_total_trust_remove(scores.insert(peer, score), peer);
    assert(scores.insert(peer, score).remove(peer) =~= scores);
}

/// The total of a table lies within its size times the range of a score.
pub proof fn lemma_total_trust_bounds<K>(scores: Map<K, i64>)
    requires
        scores.dom().finite(),
    ensures
        scores.dom().len() * i64::MIN <= total_trust(scores) <= scores.dom().len() * i64::MAX,
    decreases scores.dom().len(),
{
    if scores.dom().len() > 0 {
        let peer = scores.dom().choose();
        lemma_total_trust_bounds(scores.remove(peer));
        assert(scores.dom().len() * i64::MIN == (scores.dom().len() - 1) * i64::MIN + i64::MIN)
            by (nonlinear_arith);
        assert(scores.dom().len() * i64::MAX == (scores.dom().len() - 1) * i64::MAX + i64::MAX)
            by (nonlinear_arith);
    }
}

/// Meeting a peer twice is meeting it once: the second time changes nothing,
/// whatever score it offers.
pub proof fn lemma_initialized_idempotent<K>(
    scores: Map<K, i64>,
    peer: K,
    first: i64,
    second: i64,
)
    ensures
        initialized(initialized(scores, peer, first), peer, second) == initialized(
            scores,
            peer,
            first,
        ),
        initialized(scores, peer, first).contains_key(peer),
        !scores.contains_key(peer) ==> initialized(scores, peer, first)[peer] == first,
{
}

/// Meeting a peer that the table already holds leaves its score alone, also
/// where an update has moved that score away from the initial one.
pub proof fn lemma_initialized_keeps_score<K>(scores: Map<K, i64>, peer: K, score: i64)
    requires
        scores.contains_key(peer),
    ensures
        initialized(scores, peer, score) == scores,
        initialized(scores, peer, score)[peer] == scores[peer],
{
}

/// An update for a peer that the table does not hold changes neither the
/// peers of the table nor any score.
pub proof fn lemma_updated_absent<K>(scores: Map<K, i64>, peer: K, delta: i64)
    requires
        !scores.contains_key(peer),
    ensures
        updated(scores, peer, delta) == scores,
        updated(scores, peer, delta).dom() == scores.dom(),
{
}

/// An update never changes which peers a table holds.
pub proof fn lemma_updated_keeps_peers<K>(scores: Map<K, i64>, peer: K, delta: i64)
    ensures
        updated(scores, peer, delta).dom() == scores.dom(),
{
    assert(updated(scores, peer, delta).dom() =~= scores.dom());
}

/// The shares of a table of positive scores add up to one: all have the
/// total as their denominator, the total is positive, and the numerators add
/// up to it. The table holds at least one peer.
pub proof fn lemma_shares_sum_to_one<K>(scores: Map<K, i64>, shares: Map<K, NormalizedTrust>)
    requires
        scores.dom().finite(),
        scores.dom().len() > 0,
        forall|peer: K| scores.contains_key(peer) ==> #[trigger] scores[peer] > 0,
        is_normalization_of(shares, scores),
    ensures
        total_trust(scores) > 0,
        forall|peer: K| #[trigger]
            shares.contains_key(peer) ==> shares[peer].total == total_trust(scores),
        score_sum(shares) == total_trust(scores),
{
    lemma_total_trust_positive(scores);
    assert(shares.map_values(|share: NormalizedTrust| share.score) =~= scores);
}

/// The total of a table of positive scores is positive, unless the table is
/// empty.
pub proof fn lemma_total_trust_positive<K>(scores: Map<K, i64>)
    requires
        scores.dom().finite(),
        forall|peer: K| scores.contains_key(peer) ==> #[trigger] scores[peer] > 0,
    ensures
        total_trust(scores) >= 0,
        scores.dom().len() > 0 ==> total_trust(scores) > 0,
    decreases scores.dom().len(),
{
    if scores.dom().len() > 0 {
        let peer = scores.dom().choose();
        lemma_total_trust_positive(scores.remove(peer));
    }
}

/// The table cut down to the peers among the first `count` entries of
/// `order`.
spec fn visited<K>(scores: Map<K, i64>, order: Seq<(&K, &i64)>, count: int) -> Map<K, i64> {
    scores.restrict(Set::new(|peer: K| exists|i: int| 0 <= i < count && *order[i].0 == peer))
}

/// `order` walks the table: it names every peer of the table once, each with
/// its score.
spec fn walks<K>(order: Seq<(&K, &i64)>, scores: Map<K, i64>) -> bool {
    &&& order.len() == scores.dom().len()
    &&& forall|i: int|
        0 <= i < order.len() ==> scores.contains_key(*(#[trigger] order[i]).0)
            && scores[*order[i].0] == *order[i].1
    &&& forall|i: int, j: int|
        0 <= i < j < order.len() ==> *(#[trigger] order[i]).0 != *(#[trigger] order[j]).0
    &&& forall|peer: K| #[trigger]
        scores.contains_key(peer) ==> exists|i: int| 0 <= i < order.len() && *order[i].0 == peer
}

/// Visiting one more entry of a walk adds that entry's score.
proof fn lemma_visit_next<K>(scores: Map<K, i64>, order: Seq<(&K, &i64)>, count: int)
    requires
        scores.dom().finite(),
        walks(order, scores),
        0 <= count < order.len(),
    ensures
        visited(scores, order, count).dom().finite(),
        visited(scores, order, count + 1) == visited(scores, order, count).insert(
            *order[count].0,
            *order[count].1,
        ),
        total_trust(visited(scores, order, count + 1)) == total_trust(
            visited(scores, order, count),
        ) + *order[count].1,
        visited(scores, order, count + 1).dom().len() == visited(scores, order, count).dom().len()
            + 1,
{
    let before = visited(scores, order, count);
    let after = visited(scores, order, count + 1);
    let peer = *order[count].0;
    assert(before.dom().subset_of(scores.dom()));
    vstd::set_lib::lemma_len_subset(before.dom(), scores.dom());
    assert(!before.contains_key(peer)) by {
        if before.contains_key(peer) {
            let i = choose|i: int| 0 <= i < count && *order[i].0 == peer;
            assert(*order[i].0 != *order[count].0);
        }
    }
    assert(after =~= before.insert(peer, scores[peer])) by {
        assert forall|p: K| after.contains_key(p) implies before.insert(
            peer,
            scores[peer],
        ).contains_key(p) by {
            let i = choose|i: int| 0 <= i < count + 1 && *order[i].0 == p;
            if i < count {
                assert(before.contains_key(p));
            }
        }
        assert forall|p: K| before.insert(peer, scores[peer]).contains_key(
            p,
        ) implies after.contains_key(p) by {
            if p == peer {
                assert(*order[count].0 == p);
            } else {
                let i = choose|i: int| 0 <= i < count && *order[i].0 == p;
                assert(0 <= i < count + 1 && *order[i].0 == p);
            }
        }
    }
    lemma_total_trust_insert(before, peer, scores[peer]);
}

/// A walk that has visited all its entries has seen the whole table.
proof fn lemma_visit_all<K>(scores: Map<K, i64>, order: Seq<(&K, &i64)>)
    requires
        walks(order, scores),
    ensures
        visited(scores, order, order.len() as int) == scores,
        visited(scores, order, 0) == Map::<K, i64>::empty(),
{
    assert(visited(scores, order, order.len() as int) =~= scores);
    assert(visited(scores, order, 0) =~= Map::<K, i64>::empty());
}

/// The entries that the iterator of a hash table hands out walk the table,
/// provided that no entry comes twice.
proof fn lemma_iter_walks<K>(scores: &HashMap<K, i64>)
    requires
        scores.iter().remaining().no_duplicates(),
    ensures
        walks(scores.iter().remaining(), scores@),
{
    broadcast use vstd::std_specs::hash::group_hash_axioms;

    let order = scores.iter().remaining();
    assert forall|i: int, j: int| 0 <= i < j < order.len() implies *(#[trigger] order[i]).0 != *(
    #[trigger] order[j]).0 by {
        if *order[i].0 == *order[j].0 {
            assert(scores@[*order[i].0] == *order[i].1);
            assert(scores@[*order[j].0] == *order[j].1);
            assert(order[i] == order[j]);
        }
    }
    assert forall|peer: K| #[trigger] scores@.contains_key(peer) implies exists|i: int|
        0 <= i < order.len() && *order[i].0 == peer by {
        assert(order.contains((&peer, &scores@[peer])));
        let i = choose|i: int| 0 <= i < order.len() && order[i] == (&peer, &scores@[peer]);
        assert(*order[i].0 == peer);
    }
}

/// Computes the shares of a table: for every peer its score over the total
/// of all scores. The empty table gives the empty table of shares.
pub fn normalize<K: Copy + Eq + Hash>(scores: &HashMap<K, i64>) -> (shares: HashMap<
    K,
    NormalizedTrust,
>)
    requires
        obeys_key_model::<K>(),
    ensures
        is_normalization_of(shares@, scores@),
{
    broadcast use vstd::std_specs::hash::group_hash_axioms;

    let ghost table = scores@;
    let ghost order = scores.iter().remaining();
    let ghost mut seen: int = 0;
    let size = scores.len();
    let entries = scores.iter();
    proof {
        lemma_iter_walks(scores);
        lemma_visit_all(table, order);
    }
    let mut total: i128 = 0;
    for (_, score) in walk: entries
        invariant
            order == walk.seq(),
            seen == walk.index(),
            table.dom().finite(),
            order.len() <= usize::MAX,
            walks(order, table),
            total == total_trust(visited(table, order, seen)),
            visited(table, order, seen).dom().len() == seen,
    {
        proof {
            lemma_visit_next(table, order, seen);
            lemma_total_trust_bounds(visited(table, order, seen + 1));
            let n = seen + 1;
            assert(n * i64::MIN >= usize::MAX * i64::MIN && n * i64::MAX <= usize::MAX * i64::MAX)
                by (nonlinear_arith)
                requires
                    0 <= n <= usize::MAX,
            ;
            seen = seen + 1;
        }
        total = total + (*score as i128);
    }
    proof {
        seen = 0;
    }
    let mut shares: HashMap<K, NormalizedTrust> = HashMap::with_capacity(size);
    for (peer, score) in walk: scores.iter()
        invariant
            obeys_key_model::<K>(),
            order == walk.seq(),
            seen == walk.index(),
            table.dom().finite(),
            walks(order, table),
            shares@.dom() == visited(table, order, seen).dom(),
            forall|p: K| #[trigger]
                shares@.contains_key(p) ==> shares@[p].score == table[p] && shares@[p].total
                    == total,
    {
        proof {
            lemma_visit_next(table, order, seen);
            seen = seen + 1;
        }
        shares.insert(*peer, NormalizedTrust { score: *score, total });
    }
    shares
}

} // verus!
