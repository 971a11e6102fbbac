//! What the categories mean in cards: each pattern that the histogram shows
//! is the pattern that a player sees in the hand.

use vstd::prelude::*;
use crate::cards::{is_scorable, valid_hand};
use crate::ranking::lemma_no_rank_beyond_ace;
use crate::strength::{
    groups_of, hand_ranks, is_four_of_a_kind, is_full_house, is_one_pair, is_three_of_a_kind,
    is_two_pair, lemma_count_of_five, rank_count, rank_histogram, ranks_below,
};

verus! {

/// The sum of the entries of a histogram.
pub open spec fn histogram_sum(histogram: Seq<nat>) -> nat
    decreases histogram.len(),
{
    if histogram.len() == 0 {
        0
    } else {
        histogram_sum(histogram.drop_last()) + histogram.last()
    }
}

/// Some rank is held by exactly `size` cards of the hand.
pub open spec fn holds_group(hand: Seq<u8>, size: nat) -> bool {
    exists|rank: u8| rank < 13 && #[trigger] rank_count(hand, rank) == size
}

/// Two different ranks are each held by exactly `size` cards of the hand.
pub open spec fn holds_two_groups(hand: Seq<u8>, size: nat) -> bool {
    exists|low: u8, high: u8|
        low < high < 13 && #[trigger] rank_count(hand, low) == size && #[trigger] rank_count(
            hand,
            high,
        ) == size
}

/// A histogram has an entry equal to `size` exactly when some position
/// holds it.
proof fn lemma_group_has_position(histogram: Seq<nat>, size: nat)
    ensures
        groups_of(histogram, size) >= 1 <==> exists|r: int|
            0 <= r < histogram.len() && #[trigger] histogram[r] == size,
    decreases histogram.len(),
{
    if histogram.len() > 0 {
        let front = histogram.drop_last();
        lemma_group_has_position(front, size);
        if groups_of(histogram, size) >= 1 {
            if histogram.last() == size {
                assert(histogram[histogram.len() - 1] == size);
            } else {
                let r = choose|r: int| 0 <= r < front.len() && #[trigger] front[r] == size;
                assert(histogram[r] == size);
            }
        }
        if exists|r: int| 0 <= r < histogram.len() && #[trigger] histogram[r] == size {
            let r = choose|r: int| 0 <= r < histogram.len() && #[trigger] histogram[r] == size;
            if r < front.len() {
                assert(front[r] == size);
            }
        }
    }
}

/// A histogram has two entries equal to `size` exactly when two positions
/// hold it.
proof fn lemma_two_groups_have_positions(histogram: Seq<nat>, size: nat)
    ensures
        groups_of(histogram, size) >= 2 <==> exists|r: int, q: int|
            0 <= r < q < histogram.len() && #[trigger] histogram[r] == size
                && #[trigger] histogram[q] == size,
    decreases histogram.len(),
{
    if histogram.len() > 0 {
        let front = histogram.drop_last();
        let last = histogram.len() - 1;
        lemma_two_groups_have_positions(front, size);
        lemma_group_has_position(front, size);
        if groups_of(histogram, size) >= 2 {
            if groups_of(front, size) >= 2 {
                let (r, q) = choose|r: int, q: int|
                    0 <= r < q < front.len() && #[trigger] front[r] == size
                        && #[trigger] front[q] == size;
                assert(histogram[r] == size && histogram[q] == size);
            } else {
                let r = choose|r: int| 0 <= r < front.len() && #[trigger] front[r] == size;
                assert(histogram[r] == size && histogram[last] == size);
            }
        }
        if exists|r: int, q: int|
            0 <= r < q < histogram.len() && #[trigger] histogram[r] == size
                && #[trigger] histogram[q] == size {
            let (r, q) = choose|r: int, q: int|
                0 <= r < q < histogram.len() && #[trigger] histogram[r] == size
                    && #[trigger] histogram[q] == size;
            assert(front[r] == size);
            if q < last {
                assert(front[q] == size);
            }
        }
    }
}

/// The groups of four, three and two take their cards out of the sum of the
/// histogram.
proof fn lemma_groups_within_sum(histogram: Seq<nat>)
    ensures
        4 * groups_of(histogram, 4) + 3 * groups_of(histogram, 3) + 2 * groups_of(histogram, 2)
            <= histogram_sum(histogram),
    decreases histogram.len(),
{
    if histogram.len() > 0 {
        lemma_groups_within_sum(histogram.drop_last());
    }
}

/// The first `limit` entries of the rank histogram add up to the number of
/// cards whose rank lies below `limit`.
proof fn lemma_sum_of_prefix(hand: Seq<u8>, limit: int)
    requires
        hand.len() == 5,
        0 <= limit <= 13,
    ensures
        histogram_sum(rank_histogram(hand).take(limit)) == ranks_below(hand_ranks(hand), limit),
    decreases limit,
{
    if limit > 0 {
        lemma_sum_of_prefix(hand, limit - 1);
        lemma_count_of_five(hand_ranks(hand), (limit - 1) as u8);
        assert(rank_histogram(hand).take(limit).drop_last() =~= rank_histogram(hand).take(
            limit - 1,
        ));
    }
}

/// The rank histogram of a hand counts its five cards.
pub proof fn lemma_histogram_sums_to_five(hand: Seq<u8>)
    requires
        is_scorable(hand),
    ensures
        histogram_sum(rank_histogram(hand)) == 5,
{
    lemma_sum_of_prefix(hand, 13);
    assert(rank_histogram(hand).take(13) =~= rank_histogram(hand));
    assert(hand[0] < 52 && hand[1] < 52 && hand[2] < 52 && hand[3] < 52 && hand[4] < 52);
}

/// The hand holds a group of `size` cards exactly when its histogram has
/// such an entry, and two groups exactly when the histogram has two.
pub proof fn lemma_groups_are_held(hand: Seq<u8>, size: nat)
    ensures
        holds_group(hand, size) <==> groups_of(rank_histogram(hand), size) >= 1,
        holds_two_groups(hand, size) <==> groups_of(rank_histogram(hand), size) >= 2,
{
    let histogram = rank_histogram(hand);
    lemma_group_has_position(histogram, size);
    lemma_two_groups_have_positions(histogram, size);
    if holds_group(hand, size) {
        let rank = choose|rank: u8| rank < 13 && #[trigger] rank_count(hand, rank) == size;
        assert(histogram[rank as int] == size);
    }
    if groups_of(histogram, size) >= 1 {
        let r = choose|r: int| 0 <= r < histogram.len() && #[trigger] histogram[r] == size;
        assert(rank_count(hand, r as u8) == size);
    }
    if holds_two_groups(hand, size) {
        let (low, high) = choose|low: u8, high: u8|
            low < high < 13 && #[trigger] rank_count(hand, low) == size && #[trigger] rank_count(
                hand,
                high,
            ) == size;
        assert(histogram[low as int] == size && histogram[high as int] == size);
    }
    if groups_of(histogram, size) >= 2 {
        let (r, q) = choose|r: int, q: int|
            0 <= r < q < histogram.len() && #[trigger] histogram[r] == size
                && #[trigger] histogram[q] == size;
        assert(rank_count(hand, r as u8) == size && rank_count(hand, q as u8) == size);
    }
}

/// The patterns read off the histogram are the patterns of poker: four of a
/// kind is four cards of one rank; a full house, three cards of one rank and
/// two of another; three of a kind, three cards of one rank and no pair; two
/// pair, two cards of each of two ranks; one pair, two cards of one rank and
/// neither a second pair nor three of a kind.
pub proof fn lemma_patterns_in_cards(hand: Seq<u8>)
    requires
        is_scorable(hand),
    ensures
        is_four_of_a_kind(hand) <==> holds_group(hand, 4),
        is_full_house(hand) <==> holds_group(hand, 3) && holds_group(hand, 2),
        is_three_of_a_kind(hand) <==> holds_group(hand, 3) && !holds_group(hand, 2),
        is_two_pair(hand) <==> holds_two_groups(hand, 2),
        is_one_pair(hand) <==> holds_group(hand, 2) && !holds_two_groups(hand, 2) && !holds_group(
            hand,
            3,
        ),
{
    lemma_histogram_sums_to_five(hand);
    lemma_groups_within_sum(rank_histogram(hand));
    lemma_groups_are_held(hand, 4);
    lemma_groups_are_held(hand, 3);
    lemma_groups_are_held(hand, 2);
}

/// No hand holds more than four cards of a rank when its cards are
/// distinct, and none holds a card of a rank beyond the Ace.
pub proof fn lemma_at_most_four_of_a_rank(hand: Seq<u8>, rank: u8)
    requires
        valid_hand(hand),
    ensures
        rank_count(hand, rank) <= 4,
{
    if rank >= 13 {
        lemma_no_rank_beyond_ace(hand, rank);
    } else {
        lemma_count_of_five(hand_ranks(hand), rank);
        if rank_count(hand, rank) == 5 {
            // five distinct cards of one rank would need five suits
            let low = 4 * rank;
            assert(hand[0] - low < 4 && hand[1] - low < 4 && hand[2] - low < 4 && hand[3] - low < 4
                && hand[4] - low < 4);
            assert(hand[0] != hand[1] && hand[0] != hand[2] && hand[0] != hand[3] && hand[0]
                != hand[4] && hand[1] != hand[2] && hand[1] != hand[3] && hand[1] != hand[4]
                && hand[2] != hand[3] && hand[2] != hand[4] && hand[3] != hand[4]);
        }
    }
}

} // verus!
