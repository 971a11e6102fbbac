//! Scoring a five-card hand without a branch on what the cards are: every
//! decision is an arithmetic selection and every loop runs a fixed number of
//! times.

use vstd::prelude::*;
use vstd::relations::sorted_by;
use crate::kickers::{count_at, histogram_order, histogram_total, order_kickers};
use crate::cards::{
    all_valid, card_rank, card_suit, rank_of, suit_of, valid_card, RANK_ACE, RANK_FIVE, RANK_FOUR,
    RANK_THREE, RANK_TWO,
};
use crate::select::{both, either, flag, indicator, negate, select_u8};
use crate::sorting::{is_descending, sort_descending};
use crate::strength::{
    FLUSH, FOUR_OF_A_KIND, FULL_HOUSE, HIGH_CARD, ONE_PAIR, STRAIGHT, STRAIGHT_FLUSH,
    THREE_OF_A_KIND, TWO_PAIR,
};
use crate::strength::{
    groups_of, hand_category, hand_kickers, hand_ranks, hand_score, is_flush, is_run_from,
    is_wheel, kicker_order, lemma_count_of_five, lemma_kicker_order_total, rank_count,
    rank_histogram, ranks_below, wheel_kickers,
};

verus! {

/// Splits the cards of a hand into their ranks and their suits.
pub fn split_hand(hand: [u8; 5]) -> (parts: ([u8; 5], [u8; 5]))
    ensures
        parts.0@ == hand_ranks(hand@),
        forall|i: int| 0 <= i < 5 ==> parts.1@[i] == card_suit(hand@[i]),
{
    let mut ranks: [u8; 5] = [0u8; 5];
    let mut suits: [u8; 5] = [0u8; 5];
    let mut i: usize = 0;
    while i < 5
        invariant
            i <= 5,
            forall|j: int| 0 <= j < i ==> ranks@[j] == card_rank(hand@[j]),
            forall|j: int| 0 <= j < i ==> suits@[j] == card_suit(hand@[j]),
        decreases 5 - i,
    {
        ranks[i] = rank_of(hand[i]);
        suits[i] = suit_of(hand[i]);
        i += 1;
    }
    assert(ranks@ =~= hand_ranks(hand@));
    (ranks, suits)
}

/// Counts, for each of the thirteen ranks, the entries of `ranks` that hold
/// it. Every rank is compared with every entry.
pub fn count_ranks(ranks: &[u8; 5]) -> (counts: [u8; 13])
    ensures
        forall|r: int| 0 <= r < 13 ==> counts@[r] == ranks@.to_multiset().count(r as u8),
{
    let mut counts: [u8; 13] = [0u8; 13];
    let mut r: u8 = 0;
    while r < 13
        invariant
            r <= 13,
            forall|q: int| 0 <= q < r ==> counts@[q] == ranks@.to_multiset().count(q as u8),
        decreases 13 - r,
    {
        proof {
            lemma_count_of_five(ranks@, r);
        }
        let held: u8 = flag(ranks[0] == r) + flag(ranks[1] == r) + flag(ranks[2] == r) + flag(
            ranks[3] == r,
        ) + flag(ranks[4] == r);
        counts[r as usize] = held;
        r += 1;
    }
    counts
}

/// Tells whether the five suits are all the same.
pub fn detect_flush(suits: &[u8; 5]) -> (flush: bool)
    ensures
        flush == (suits@[1] == suits@[0] && suits@[2] == suits@[0] && suits@[3] == suits@[0]
            && suits@[4] == suits@[0]),
{
    let first_three: u8 = both(flag(suits[0] == suits[1]), flag(suits[0] == suits[2]));
    let last_two: u8 = both(flag(suits[0] == suits[3]), flag(suits[0] == suits[4]));
    both(first_three, last_two) == 1
}

/// The ranks of the wheel as they read once sorted from high to low.
pub open spec fn sorted_wheel() -> Seq<u8> {
    seq![12u8, 3u8, 2u8, 1u8, 0u8]
}

/// Five ranks sorted from high to low step down by one from each to the next.
pub open spec fn steps_down_by_one(sorted: Seq<u8>) -> bool {
    &&& sorted[0] - sorted[4] == 4
    &&& sorted[0] != sorted[1]
    &&& sorted[1] != sorted[2]
    &&& sorted[2] != sorted[3]
    &&& sorted[3] != sorted[4]
}

/// Reads a straight off five ranks sorted from high to low. The first result
/// tells whether they step down by one; the second, whether they are the
/// wheel.
pub fn detect_straight(sorted: &[u8; 5]) -> (found: (bool, bool))
    requires
        is_descending(sorted@),
    ensures
        found.0 == steps_down_by_one(sorted@),
        found.1 == (sorted@ == sorted_wheel()),
{
    let spread: u8 = flag(sorted[0] - sorted[4] == 4);
    let upper_apart: u8 = both(flag(sorted[0] != sorted[1]), flag(sorted[1] != sorted[2]));
    let lower_apart: u8 = both(flag(sorted[2] != sorted[3]), flag(sorted[3] != sorted[4]));
    let stepping: u8 = both(spread, both(upper_apart, lower_apart));
    let high_pair: u8 = both(flag(sorted[0] == RANK_ACE), flag(sorted[1] == RANK_FIVE));
    let low_pair: u8 = both(flag(sorted[2] == RANK_FOUR), flag(sorted[3] == RANK_THREE));
    let wheel: u8 = both(both(high_pair, low_pair), flag(sorted[4] == RANK_TWO));
    assert((wheel == 1) == (sorted@ =~= sorted_wheel()));
    (stepping == 1, wheel == 1)
}

/// What the sorted ranks show is what the hand holds: they are the wheel
/// exactly when the hand is, and they step down by one exactly when the hand
/// is a run of five ranks.
proof fn lemma_straight_from_sorted(hand: Seq<u8>, sorted: Seq<u8>)
    requires
        hand.len() == 5,
        all_valid(hand),
        sorted.len() == 5,
        is_descending(sorted),
        sorted.to_multiset() == hand_ranks(hand).to_multiset(),
    ensures
        is_wheel(hand) <==> sorted == sorted_wheel(),
        (exists|low: u8| low <= 8 && #[trigger] is_run_from(hand, low)) <==> steps_down_by_one(
            sorted,
        ),
        forall|i: int| 0 <= i < 5 ==> sorted[i] < 13,
{
    assert forall|i: int| 0 <= i < 5 implies sorted[i] < 13 by {
        lemma_count_of_five(sorted, sorted[i]);
        lemma_count_of_five(hand_ranks(hand), sorted[i]);
        assert(valid_card(hand[0]) && valid_card(hand[1]) && valid_card(hand[2]) && valid_card(
            hand[3],
        ) && valid_card(hand[4]));
    }
    lemma_count_of_five(sorted, 12);
    lemma_count_of_five(sorted, 3);
    lemma_count_of_five(sorted, 2);
    lemma_count_of_five(sorted, 1);
    lemma_count_of_five(sorted, 0);
    assert(is_wheel(hand) <==> sorted =~= sorted_wheel());
    if steps_down_by_one(sorted) {
        let low = sorted[4];
        assert forall|rank: u8| low <= rank <= low + 4 implies #[trigger] rank_count(hand, rank)
            == 1 by {
            lemma_count_of_five(sorted, rank);
        }
        assert(is_run_from(hand, low));
    }
    if exists|low: u8| low <= 8 && #[trigger] is_run_from(hand, low) {
        let low = choose|low: u8| low <= 8 && #[trigger] is_run_from(hand, low);
        lemma_count_of_five(sorted, low);
        lemma_count_of_five(sorted, (low + 1) as u8);
        lemma_count_of_five(sorted, (low + 2) as u8);
        lemma_count_of_five(sorted, (low + 3) as u8);
        lemma_count_of_five(sorted, (low + 4) as u8);
        assert(rank_count(hand, low) == 1);
        assert(rank_count(hand, (low + 1) as u8) == 1);
        assert(rank_count(hand, (low + 2) as u8) == 1);
        assert(rank_count(hand, (low + 3) as u8) == 1);
        assert(rank_count(hand, (low + 4) as u8) == 1);
        assert(steps_down_by_one(sorted));
    }
}

/// Counts the entries of the histogram that equal `size`.
pub fn count_groups(counts: &[u8; 13], size: u8) -> (groups: u8)
    ensures
        groups == groups_of(Seq::new(13, |r: int| counts@[r] as nat), size as nat),
{
    let ghost histogram = Seq::new(13, |r: int| counts@[r] as nat);
    let mut groups: u8 = 0;
    let mut r: usize = 0;
    while r < 13
        invariant
            r <= 13,
            groups <= r,
            histogram == Seq::new(13, |r: int| counts@[r] as nat),
            groups == groups_of(histogram.take(r as int), size as nat),
        decreases 13 - r,
    {
        proof {
            assert(histogram.take(r + 1).drop_last() =~= histogram.take(r as int));
        }
        groups += flag(counts[r] == size);
        r += 1;
    }
    proof {
        assert(histogram.take(13) =~= histogram);
    }
    groups
}

/// The category that the detected patterns add up to: the strongest pattern
/// wins, whatever else is present.
pub open spec fn category_of(flush: bool, straight: bool, quads: nat, trips: nat, pairs: nat)
    -> nat {
    if straight && flush {
        8
    } else if quads == 1 {
        7
    } else if trips == 1 && pairs == 1 {
        6
    } else if flush {
        5
    } else if straight {
        4
    } else if trips == 1 && pairs == 0 {
        3
    } else if pairs == 2 {
        2
    } else if pairs == 1 && trips == 0 {
        1
    } else {
        0
    }
}

/// Resolves the detected patterns into one category. Each pattern gets a
/// flag that holds only when no stronger pattern was detected, and the
/// category is the sum of each category's number times its flag.
pub fn classify(flush: bool, straight: bool, quads: u8, trips: u8, pairs: u8) -> (category: u64)
    ensures
        category == category_of(flush, straight, quads as nat, trips as nat, pairs as nat),
        category <= 8,
{
    let flush_bit: u8 = flag(flush);
    let straight_bit: u8 = flag(straight);
    let straight_flush: u8 = both(straight_bit, flush_bit);
    let four_of_a_kind: u8 = flag(quads == 1);
    let full_house: u8 = both(flag(trips == 1), flag(pairs == 1));
    let three_of_a_kind: u8 = both(flag(trips == 1), flag(pairs == 0));
    let two_pair: u8 = flag(pairs == 2);
    let one_pair: u8 = both(flag(pairs == 1), flag(trips == 0));

    let only_eight: u8 = straight_flush;
    let taken: u8 = straight_flush;
    let only_seven: u8 = both(negate(taken), four_of_a_kind);
    let taken: u8 = either(taken, four_of_a_kind);
    let only_six: u8 = both(negate(taken), full_house);
    let taken: u8 = either(taken, full_house);
    let only_five: u8 = both(negate(taken), flush_bit);
    let taken: u8 = either(taken, flush_bit);
    let only_four: u8 = both(negate(taken), straight_bit);
    let taken: u8 = either(taken, straight_bit);
    let only_three: u8 = both(negate(taken), three_of_a_kind);
    let taken: u8 = either(taken, three_of_a_kind);
    let only_two: u8 = both(negate(taken), two_pair);
    let taken: u8 = either(taken, two_pair);
    let only_one: u8 = both(negate(taken), one_pair);
    let taken: u8 = either(taken, one_pair);
    let only_zero: u8 = negate(taken);

    (only_eight as u64) * STRAIGHT_FLUSH + (only_seven as u64) * FOUR_OF_A_KIND + (
    only_six as u64) * FULL_HOUSE + (only_five as u64) * FLUSH + (only_four as u64) * STRAIGHT
        + (only_three as u64) * THREE_OF_A_KIND + (only_two as u64) * TWO_PAIR + (
    only_one as u64) * ONE_PAIR + (only_zero as u64) * HIGH_CARD
}

/// The first `limit` entries of the histogram of five ranks add up to the
/// number of ranks below `limit`.
proof fn lemma_total_of_prefix(counts: Seq<u8>, ranks: Seq<u8>, limit: int)
    requires
        ranks.len() == 5,
        0 <= limit <= counts.len(),
        forall|r: int| 0 <= r < counts.len() ==> counts[r] == ranks.to_multiset().count(r as u8),
        counts.len() <= 256,
    ensures
        histogram_total(counts.take(limit)) == ranks_below(ranks, limit),
    decreases limit,
{
    if limit > 0 {
        lemma_total_of_prefix(counts, ranks, limit - 1);
        lemma_count_of_five(ranks, (limit - 1) as u8);
        assert(counts.take(limit).drop_last() =~= counts.take(limit - 1));
    }
}

/// The histogram of five ranks counts five cards.
proof fn lemma_histogram_counts_five(counts: Seq<u8>, ranks: Seq<u8>)
    requires
        ranks.len() == 5,
        counts.len() == 13,
        forall|i: int| 0 <= i < 5 ==> ranks[i] < 13,
        forall|r: int| 0 <= r < 13 ==> counts[r] == ranks.to_multiset().count(r as u8),
    ensures
        histogram_total(counts) == 5,
{
    lemma_total_of_prefix(counts, ranks, 13);
    assert(counts.take(13) =~= counts);
}

/// Kickers that hold each rank as often as the hand does, in the order of
/// kickers, are the hand's ranks sorted by that order.
proof fn lemma_kickers_are_sorted_ranks(hand: Seq<u8>, counts: Seq<u8>, kickers: Seq<u8>)
    requires
        hand.len() == 5,
        all_valid(hand),
        counts.len() == 13,
        forall|r: int| 0 <= r < 13 ==> counts[r] == rank_count(hand, r as u8),
        forall|rank: u8| #[trigger] kickers.to_multiset().count(rank) == count_at(counts, rank),
        sorted_by(kickers, histogram_order(counts)),
    ensures
        kickers == hand_ranks(hand).sort_by(kicker_order(hand)),
{
    let ranks = hand_ranks(hand);
    assert forall|rank: u8| count_at(counts, rank) == rank_count(hand, rank) by {
        if rank >= 13 {
            lemma_count_of_five(ranks, rank);
            assert(valid_card(hand[0]) && valid_card(hand[1]) && valid_card(hand[2])
                && valid_card(hand[3]) && valid_card(hand[4]));
        }
    }
    assert(kickers.to_multiset() =~= ranks.to_multiset());
    assert forall|i: int, j: int| 0 <= i < j < kickers.len() implies #[trigger] kicker_order(
        hand,
    )(kickers[i], kickers[j]) by {
        assert(histogram_order(counts)(kickers[i], kickers[j]));
    }
    lemma_kicker_order_total(hand);
    ranks.lemma_sort_by_ensures(kicker_order(hand));
    vstd::seq_lib::lemma_sorted_unique(
        kickers,
        ranks.sort_by(kicker_order(hand)),
        kicker_order(hand),
    );
}

/// Scores a five-card hand: the category in bits 20 to 23, then the five
/// kickers in four bits each, most significant first. A higher score is a
/// stronger hand.
///
/// The same operations are executed whatever the cards are.
pub fn evaluate_hand(hand: [u8; 5]) -> (score: u64)
    requires
        all_valid(hand@),
    ensures
        score == hand_score(hand@),
{
    let (ranks, suits) = split_hand(hand);
    let mut sorted: [u8; 5] = ranks;
    sort_descending(&mut sorted);
    let counts: [u8; 13] = count_ranks(&sorted);

    let flush: bool = detect_flush(&suits);
    proof {
        lemma_straight_from_sorted(hand@, sorted@);
    }
    let (stepping, wheel) = detect_straight(&sorted);
    let straight: bool = either(flag(stepping), flag(wheel)) == 1;

    let quads: u8 = count_groups(&counts, 4);
    let trips: u8 = count_groups(&counts, 3);
    let pairs: u8 = count_groups(&counts, 2);
    let category: u64 = classify(flush, straight, quads, trips, pairs);
    proof {
        assert(Seq::new(13, |r: int| counts@[r] as nat) =~= rank_histogram(hand@));
        assert(flush == is_flush(hand@)) by {
            let h = hand@;
            assert(is_flush(h) ==> card_suit(h[1]) == card_suit(h[0]) && card_suit(h[2])
                == card_suit(h[0]) && card_suit(h[3]) == card_suit(h[0]) && card_suit(h[4])
                == card_suit(h[0]));
        }
        assert(category == hand_category(hand@));
        lemma_histogram_counts_five(counts@, sorted@);
    }

    let mut kickers: [u8; 5] = order_kickers(&counts);
    proof {
        lemma_kickers_are_sorted_ranks(hand@, counts@, kickers@);
    }
    let ghost generic = kickers@;
    let wheel_bit: u8 = flag(wheel);
    let wheel_order: [u8; 5] = [RANK_FIVE, RANK_FOUR, RANK_THREE, RANK_TWO, RANK_ACE];
    let mut i: usize = 0;
    while i < 5
        invariant
            i <= 5,
            wheel_bit == indicator(wheel),
            wheel_order@ == wheel_kickers(),
            generic.len() == 5,
            forall|j: int|
                0 <= j < i ==> kickers@[j] == if wheel {
                    wheel_kickers()[j]
                } else {
                    generic[j]
                },
            forall|j: int| i <= j < 5 ==> kickers@[j] == generic[j],
        decreases 5 - i,
    {
        kickers[i] = select_u8(wheel_bit, wheel_order[i], kickers[i]);
        i += 1;
    }
    proof {
        assert(kickers@ =~= hand_kickers(hand@));
    }
    category * 0x100000 + (kickers[0] as u64) * 0x10000 + (kickers[1] as u64) * 0x1000 + (
    kickers[2] as u64) * 0x100 + (kickers[3] as u64) * 0x10 + (kickers[4] as u64)
}

} // verus!
