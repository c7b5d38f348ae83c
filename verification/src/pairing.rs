use vstd::prelude::*;

use crate::deck::{vec_contains_card, Card};

verus! {

/// The greedy pairwise scan over a hand, one visit at a time. The scan walks
/// all index pairs (i, j) with i < j in earliest-index-first order; whenever
/// the two cards share a rank and neither is already claimed, it claims both
/// (first the card at i, then the card at j) into `acc`.
pub open spec fn pairs_scan(hand: Seq<Card>, i: int, j: int, acc: Seq<Card>) -> Seq<Card>
    decreases hand.len() - i, hand.len() - j,
{
    if i < 0 || j < i + 1 || i >= hand.len() {
        acc
    } else if j >= hand.len() {
        pairs_scan(hand, i + 1, i + 2, acc)
    } else if hand[i].rank == hand[j].rank && !acc.contains(hand[i]) && !acc.contains(hand[j]) {
        pairs_scan(hand, i, j + 1, acc.push(hand[i]).push(hand[j]))
    } else {
        pairs_scan(hand, i, j + 1, acc)
    }
}

/// The cards claimed into rank pairs by the greedy scan of a hand, in the
/// order they were claimed.
pub open spec fn pairs_of(hand: Seq<Card>) -> Seq<Card> {
    pairs_scan(hand, 0, 1, Seq::<Card>::empty())
}

/// The cards of `hand` that are not in `claimed`, in hand order.
pub open spec fn unclaimed(hand: Seq<Card>, claimed: Seq<Card>) -> Seq<Card>
    decreases hand.len(),
{
    if hand.len() == 0 {
        Seq::<Card>::empty()
    } else if claimed.contains(hand.last()) {
        unclaimed(hand.drop_last(), claimed)
    } else {
        unclaimed(hand.drop_last(), claimed).push(hand.last())
    }
}

/// The unpaired remainder of a hand: the cards the greedy scan did not claim.
pub open spec fn remainder_of(hand: Seq<Card>) -> Seq<Card> {
    unclaimed(hand, pairs_of(hand))
}

/// The scan only ever adds to its accumulator.
proof fn lemma_scan_monotone(hand: Seq<Card>, i: int, j: int, acc: Seq<Card>, x: Card)
    requires
        acc.contains(x),
    ensures
        pairs_scan(hand, i, j, acc).contains(x),
    decreases hand.len() - i, hand.len() - j,
{
    if i < 0 || j < i + 1 || i >= hand.len() {
    } else if j >= hand.len() {
        lemma_scan_monotone(hand, i + 1, i + 2, acc, x);
    } else if hand[i].rank == hand[j].rank && !acc.contains(hand[i]) && !acc.contains(hand[j]) {
        let acc2 = acc.push(hand[i]).push(hand[j]);
        assert(acc2.contains(x)) by {
            let w = choose|w: int| 0 <= w < acc.len() && acc[w] == x;
            assert(acc2[w] == x);
        }
        lemma_scan_monotone(hand, i, j + 1, acc2, x);
    } else {
        lemma_scan_monotone(hand, i, j + 1, acc, x);
    }
}

/// Whatever rank pair the scan has still to visit, it resolves: of two
/// same-rank cards at positions the scan has not passed, at least one ends up
/// claimed.
proof fn lemma_scan_covers(hand: Seq<Card>, i: int, j: int, acc: Seq<Card>, a: int, b: int)
    requires
        0 <= a < b < hand.len(),
        hand[a].rank == hand[b].rank,
        0 <= i,
        i + 1 <= j,
        i < a || (i == a && j <= b),
    ensures
        pairs_scan(hand, i, j, acc).contains(hand[a]) || pairs_scan(hand, i, j, acc).contains(
            hand[b],
        ),
    decreases hand.len() - i, hand.len() - j,
{
    if j >= hand.len() {
        lemma_scan_covers(hand, i + 1, i + 2, acc, a, b);
    } else if i == a && j == b {
        if !acc.contains(hand[a]) && !acc.contains(hand[b]) {
            let acc2 = acc.push(hand[a]).push(hand[b]);
            assert(acc2.contains(hand[a])) by {
                assert(acc2[acc.len() as int] == hand[a]);
            }
            lemma_scan_monotone(hand, i, j + 1, acc2, hand[a]);
        } else if acc.contains(hand[a]) {
            if hand[i].rank == hand[j].rank && !acc.contains(hand[i]) && !acc.contains(hand[j]) {
                lemma_scan_monotone(hand, i, j + 1, acc.push(hand[i]).push(hand[j]), hand[a]);
            } else {
                lemma_scan_monotone(hand, i, j + 1, acc, hand[a]);
            }
        } else {
            if hand[i].rank == hand[j].rank && !acc.contains(hand[i]) && !acc.contains(hand[j]) {
                lemma_scan_monotone(hand, i, j + 1, acc.push(hand[i]).push(hand[j]), hand[b]);
            } else {
                lemma_scan_monotone(hand, i, j + 1, acc, hand[b]);
            }
        }
    } else if hand[i].rank == hand[j].rank && !acc.contains(hand[i]) && !acc.contains(hand[j]) {
        lemma_scan_covers(hand, i, j + 1, acc.push(hand[i]).push(hand[j]), a, b);
    } else {
        lemma_scan_covers(hand, i, j + 1, acc, a, b);
    }
}

/// On a hand where no two positions share a rank, the scan claims nothing.
proof fn lemma_scan_no_shared_rank(hand: Seq<Card>, i: int, j: int, acc: Seq<Card>)
    requires
        forall|p: int, q: int|
            0 <= p < q < hand.len() ==> (#[trigger] hand[p]).rank != (#[trigger] hand[q]).rank,
    ensures
        pairs_scan(hand, i, j, acc) == acc,
    decreases hand.len() - i, hand.len() - j,
{
    if i < 0 || j < i + 1 || i >= hand.len() {
    } else if j >= hand.len() {
        lemma_scan_no_shared_rank(hand, i + 1, i + 2, acc);
    } else {
        assert(hand[i].rank != hand[j].rank);
        lemma_scan_no_shared_rank(hand, i, j + 1, acc);
    }
}

/// Every card the remainder keeps comes from the hand and was not claimed.
proof fn lemma_unclaimed_membership(hand: Seq<Card>, claimed: Seq<Card>, x: Card)
    requires
        unclaimed(hand, claimed).contains(x),
    ensures
        hand.contains(x),
        !claimed.contains(x),
    decreases hand.len(),
{
    if hand.len() == 0 {
    } else {
        let rest = unclaimed(hand.drop_last(), claimed);
        if claimed.contains(hand.last()) {
            lemma_unclaimed_membership(hand.drop_last(), claimed, x);
            let w = choose|w: int| 0 <= w < hand.drop_last().len() && hand.drop_last()[w] == x;
            assert(hand[w] == x);
        } else {
            if x == hand.last() {
                assert(hand[hand.len() - 1] == x);
            } else {
                assert(rest.contains(x)) by {
                    let w = choose|w: int| 0 <= w < rest.push(hand.last()).len()
                        && rest.push(hand.last())[w] == x;
                    assert(rest[w] == x);
                }
                lemma_unclaimed_membership(hand.drop_last(), claimed, x);
                let w = choose|w: int| 0 <= w < hand.drop_last().len() && hand.drop_last()[w] == x;
                assert(hand[w] == x);
            }
        }
    }
}

/// The remainder of a duplicate-free hand is duplicate-free.
proof fn lemma_unclaimed_no_duplicates(hand: Seq<Card>, claimed: Seq<Card>)
    requires
        hand.no_duplicates(),
    ensures
        unclaimed(hand, claimed).no_duplicates(),
    decreases hand.len(),
{
    if hand.len() == 0 {
    } else {
        assert(hand.drop_last().no_duplicates());
        lemma_unclaimed_no_duplicates(hand.drop_last(), claimed);
        let rest = unclaimed(hand.drop_last(), claimed);
        if !claimed.contains(hand.last()) {
            assert(!rest.contains(hand.last())) by {
                if rest.contains(hand.last()) {
                    lemma_unclaimed_membership(hand.drop_last(), claimed, hand.last());
                    let w = choose|w: int| 0 <= w < hand.drop_last().len()
                        && hand.drop_last()[w] == hand.last();
                    assert(hand[w] == hand[hand.len() - 1]);
                }
            }
            assert(rest.push(hand.last()).no_duplicates()) by {
                assert forall|p: int, q: int|
                    0 <= p < q < rest.push(hand.last()).len() implies rest.push(hand.last())[p]
                    != rest.push(hand.last())[q] by {
                    if q < rest.len() {
                        assert(rest[p] != rest[q]);
                    } else {
                        assert(rest.push(hand.last())[q] == hand.last());
                        assert(rest.contains(rest[p])) by {
                            assert(rest[p] == rest[p]);
                        }
                    }
                }
            }
        }
    }
}

/// Pair extraction is idempotent: once the greedy scan has claimed every
/// disjoint rank pair of a duplicate-free hand, scanning the unpaired
/// remainder claims nothing further.
pub proof fn lemma_pair_extraction_idempotent(hand: Seq<Card>)
    requires
        hand.no_duplicates(),
    ensures
        pairs_of(remainder_of(hand)) == Seq::<Card>::empty(),
{
    let rem = remainder_of(hand);
    assert forall|p: int, q: int|
        0 <= p < q < rem.len() implies (#[trigger] rem[p]).rank != (#[trigger] rem[q]).rank by {
        if rem[p].rank == rem[q].rank {
            lemma_unclaimed_no_duplicates(hand, pairs_of(hand));
            assert(rem[p] != rem[q]);
            assert(rem.contains(rem[p]));
            assert(rem.contains(rem[q]));
            lemma_unclaimed_membership(hand, pairs_of(hand), rem[p]);
            lemma_unclaimed_membership(hand, pairs_of(hand), rem[q]);
            let a0 = choose|w: int| 0 <= w < hand.len() && hand[w] == rem[p];
            let b0 = choose|w: int| 0 <= w < hand.len() && hand[w] == rem[q];
            let a = if a0 < b0 { a0 } else { b0 };
            let b = if a0 < b0 { b0 } else { a0 };
            assert(a0 != b0);
            lemma_scan_covers(hand, 0, 1, Seq::<Card>::empty(), a, b);
            assert(false);
        }
    }
    lemma_scan_no_shared_rank(rem, 0, 1, Seq::<Card>::empty());
}

/// Finds all disjoint rank-matched pairs of a hand with the greedy
/// earliest-index-first scan, returning the claimed cards in claim order.
pub fn find_pairs(hand: &Vec<Card>) -> (r: Vec<Card>)
    ensures
        r@ == pairs_of(hand@),
{
    let n = hand.len();
    let mut claimed: Vec<Card> = Vec::new();
    let mut i: usize = 0;
    while i < n
        invariant
            n == hand@.len(),
            i <= n,
            pairs_scan(hand@, i as int, i as int + 1, claimed@) == pairs_of(hand@),
        decreases n - i,
    {
        let mut j: usize = i + 1;
        while j < n
            invariant
                n == hand@.len(),
                i < n,
                i + 1 <= j <= n,
                pairs_scan(hand@, i as int, j as int, claimed@) == pairs_of(hand@),
            decreases n - j,
        {
            if hand[i].rank == hand[j].rank && !vec_contains_card(&claimed, hand[i])
                && !vec_contains_card(&claimed, hand[j]) {
                claimed.push(hand[i]);
                claimed.push(hand[j]);
            }
            j = j + 1;
        }
        i = i + 1;
    }
    claimed
}

/// Keeps the cards of a hand that the claimed set does not hold, in hand order.
pub fn drop_claimed(hand: &Vec<Card>, claimed: &Vec<Card>) -> (r: Vec<Card>)
    ensures
        r@ == unclaimed(hand@, claimed@),
        r@.len() <= hand@.len(),
{
    let mut kept: Vec<Card> = Vec::new();
    let mut k: usize = 0;
    while k < hand.len()
        invariant
            k <= hand@.len(),
            kept@ == unclaimed(hand@.take(k as int), claimed@),
            kept@.len() <= k,
        decreases hand@.len() - k,
    {
        assert(hand@.take(k as int + 1).drop_last() =~= hand@.take(k as int));
        assert(hand@.take(k as int + 1).last() == hand@[k as int]);
        if !vec_contains_card(claimed, hand[k]) {
            kept.push(hand[k]);
        }
        k = k + 1;
    }
    assert(hand@.take(hand@.len() as int) =~= hand@);
    kept
}

} // verus!
