//! The order among hands, and why comparing scores is comparing hands.

use vstd::prelude::*;
use crate::cards::{card_rank, card_suit, is_scorable, valid_card};
use crate::select::indicator;
use crate::strength::{
    hand_category, hand_kickers, hand_ranks, hand_score, is_flush, is_run_from, is_straight,
    is_wheel, kicker_order, lemma_count_of_five, lemma_kicker_order_total, pack_score, rank_count,
    rank_histogram,
};

verus! {

/// The first kicker in which `first` and `second` differ is higher in
/// `first`.
pub open spec fn kickers_lead(first: Seq<u8>, second: Seq<u8>) -> bool {
    exists|i: int|
        0 <= i < 5 && first[i] > second[i] && forall|j: int| 0 <= j < i ==> first[j] == second[j]
}

/// `first` is the stronger hand: it is of a higher category, or of the same
/// category with kickers that lead.
pub open spec fn beats(first: Seq<u8>, second: Seq<u8>) -> bool {
    hand_category(first) > hand_category(second) || (hand_category(first) == hand_category(second)
        && kickers_lead(hand_kickers(first), hand_kickers(second)))
}

/// The two hands are of the same strength: same category, same kickers in
/// order.
pub open spec fn ties_with(first: Seq<u8>, second: Seq<u8>) -> bool {
    hand_category(first) == hand_category(second) && hand_kickers(first) == hand_kickers(second)
}

/// A hand has five kickers, each of them a rank.
pub proof fn lemma_kickers_are_ranks(hand: Seq<u8>)
    requires
        is_scorable(hand),
    ensures
        hand_kickers(hand).len() == 5,
        forall|i: int| 0 <= i < 5 ==> hand_kickers(hand)[i] < 13,
        hand_category(hand) <= 8,
{
    if !is_wheel(hand) {
        let ranks = hand_ranks(hand);
        let sorted = ranks.sort_by(kicker_order(hand));
        lemma_kicker_order_total(hand);
        ranks.lemma_sort_by_ensures(kicker_order(hand));
        ranks.to_multiset_ensures();
        sorted.to_multiset_ensures();
        assert(sorted.len() == 5);
        assert forall|i: int| 0 <= i < 5 implies sorted[i] < 13 by {
            assert(sorted.contains(sorted[i]));
            assert(sorted.to_multiset().count(sorted[i]) > 0);
            assert(ranks.to_multiset().count(sorted[i]) > 0);
            assert(ranks.contains(sorted[i]));
            let k = choose|k: int| 0 <= k < 5 && ranks[k] == sorted[i];
            assert(valid_card(hand[k]));
        }
    }
}

/// The kickers of a hand that is not the wheel are known once five ranks are
/// shown that are the ranks of the hand and stand in the order of kickers.
pub proof fn lemma_kickers_known(hand: Seq<u8>, kickers: Seq<u8>)
    requires
        !is_wheel(hand),
        kickers.to_multiset() == hand_ranks(hand).to_multiset(),
        vstd::relations::sorted_by(kickers, kicker_order(hand)),
    ensures
        hand_kickers(hand) == kickers,
{
    lemma_kicker_order_total(hand);
    hand_ranks(hand).lemma_sort_by_ensures(kicker_order(hand));
    vstd::seq_lib::lemma_sorted_unique(
        kickers,
        hand_ranks(hand).sort_by(kicker_order(hand)),
        kicker_order(hand),
    );
}

/// Packed scores compare as their categories and then their kickers, most
/// significant first.
pub proof fn lemma_packing_keeps_order(
    category_a: nat,
    kickers_a: Seq<u8>,
    category_b: nat,
    kickers_b: Seq<u8>,
)
    requires
        kickers_a.len() == 5,
        kickers_b.len() == 5,
        forall|i: int| 0 <= i < 5 ==> kickers_a[i] < 16,
        forall|i: int| 0 <= i < 5 ==> kickers_b[i] < 16,
    ensures
        pack_score(category_a, kickers_a) > pack_score(category_b, kickers_b) <==> (category_a
            > category_b || (category_a == category_b && kickers_lead(kickers_a, kickers_b))),
        pack_score(category_a, kickers_a) == pack_score(category_b, kickers_b) <==> (category_a
            == category_b && kickers_a == kickers_b),
{
    let a = kickers_a;
    let b = kickers_b;
    assert(a[0] < 16 && a[1] < 16 && a[2] < 16 && a[3] < 16 && a[4] < 16);
    assert(b[0] < 16 && b[1] < 16 && b[2] < 16 && b[3] < 16 && b[4] < 16);
    let first_gap: int = if a[0] != b[0] {
        0
    } else if a[1] != b[1] {
        1
    } else if a[2] != b[2] {
        2
    } else if a[3] != b[3] {
        3
    } else if a[4] != b[4] {
        4
    } else {
        5
    };
    if first_gap == 5 {
        assert(a =~= b);
        assert(!kickers_lead(a, b)) by {
            if kickers_lead(a, b) {
                let i = choose|i: int|
                    0 <= i < 5 && a[i] > b[i] && forall|j: int| 0 <= j < i ==> a[j] == b[j];
                assert(a[i] == b[i]);
            }
        }
    } else {
        assert(kickers_lead(a, b) <==> a[first_gap] > b[first_gap]) by {
            if kickers_lead(a, b) {
                let i = choose|i: int|
                    0 <= i < 5 && a[i] > b[i] && forall|j: int| 0 <= j < i ==> a[j] == b[j];
                assert(i == first_gap);
            }
            if a[first_gap] > b[first_gap] {
                assert(forall|j: int| 0 <= j < first_gap ==> a[j] == b[j]);
            }
        }
    }
}

/// Scores order hands as poker does: the higher score belongs to the hand
/// that beats the other, and two hands score the same exactly when they
/// tie, category for category and kicker for kicker.
pub proof fn lemma_score_orders_hands(first: Seq<u8>, second: Seq<u8>)
    requires
        is_scorable(first),
        is_scorable(second),
    ensures
        hand_score(first) > hand_score(second) <==> beats(first, second),
        hand_score(first) < hand_score(second) <==> beats(second, first),
        hand_score(first) == hand_score(second) <==> ties_with(first, second),
{
    lemma_kickers_are_ranks(first);
    lemma_kickers_are_ranks(second);
    lemma_packing_keeps_order(
        hand_category(first),
        hand_kickers(first),
        hand_category(second),
        hand_kickers(second),
    );
    lemma_packing_keeps_order(
        hand_category(second),
        hand_kickers(second),
        hand_category(first),
        hand_kickers(first),
    );
}

/// Any two hands compare in exactly one way: the first beats the second,
/// the second beats the first, or they tie.
pub proof fn lemma_hands_compare_one_way(first: Seq<u8>, second: Seq<u8>)
    requires
        is_scorable(first),
        is_scorable(second),
    ensures
        beats(first, second) || beats(second, first) || ties_with(first, second),
        !(beats(first, second) && beats(second, first)),
        !(beats(first, second) && ties_with(first, second)),
        !(beats(second, first) && ties_with(first, second)),
{
    lemma_score_orders_hands(first, second);
}

/// A hand that beats a second hand beats every hand that the second beats
/// or ties with.
pub proof fn lemma_beating_carries_on(first: Seq<u8>, second: Seq<u8>, third: Seq<u8>)
    requires
        is_scorable(first),
        is_scorable(second),
        is_scorable(third),
        beats(first, second),
        beats(second, third) || ties_with(second, third),
    ensures
        beats(first, third),
{
    lemma_score_orders_hands(first, second);
    lemma_score_orders_hands(second, third);
    lemma_score_orders_hands(first, third);
}

/// A hand of a higher category scores higher, whatever the kickers of the
/// two hands are.
pub proof fn lemma_category_decides(first: Seq<u8>, second: Seq<u8>)
    requires
        is_scorable(first),
        is_scorable(second),
        hand_category(first) > hand_category(second),
    ensures
        hand_score(first) > hand_score(second),
{
    lemma_score_orders_hands(first, second);
}

/// A packed score gives back what was packed: the category in bits 20 to
/// 23 and the kickers in the five groups of four bits below.
pub proof fn lemma_unpack(category: nat, kickers: Seq<u8>)
    requires
        category <= 8,
        kickers.len() == 5,
        forall|i: int| 0 <= i < 5 ==> kickers[i] < 16,
    ensures
        pack_score(category, kickers) < 0x900000,
        pack_score(category, kickers) / 0x100000 == category,
        (pack_score(category, kickers) / 0x10000) % 16 == kickers[0],
        (pack_score(category, kickers) / 0x1000) % 16 == kickers[1],
        (pack_score(category, kickers) / 0x100) % 16 == kickers[2],
        (pack_score(category, kickers) / 0x10) % 16 == kickers[3],
        pack_score(category, kickers) % 16 == kickers[4],
{
    let c = category as u64;
    let k0 = kickers[0] as u64;
    let k1 = kickers[1] as u64;
    let k2 = kickers[2] as u64;
    let k3 = kickers[3] as u64;
    let k4 = kickers[4] as u64;
    let packed = (c * 0x100000 + k0 * 0x10000 + k1 * 0x1000 + k2 * 0x100 + k3 * 0x10 + k4) as u64;
    assert(packed == pack_score(category, kickers));
    assert(packed < 0x900000 && packed / 0x100000 == c && (packed / 0x10000) % 16 == k0 && (packed
        / 0x1000) % 16 == k1 && (packed / 0x100) % 16 == k2 && (packed / 0x10) % 16 == k3
        && packed % 16 == k4) by (bit_vector)
        requires
            c <= 8,
            k0 < 16,
            k1 < 16,
            k2 < 16,
            k3 < 16,
            k4 < 16,
            packed == (c * 0x100000 + k0 * 0x10000 + k1 * 0x1000 + k2 * 0x100 + k3 * 0x10
                + k4) as u64,
    ;
}

/// The score of a hand holds its category in bits 20 to 23 and its kickers
/// in the five groups of four bits below, most significant first.
pub proof fn lemma_score_layout(hand: Seq<u8>)
    requires
        is_scorable(hand),
    ensures
        hand_score(hand) < 0x900000,
        hand_score(hand) / 0x100000 == hand_category(hand),
        (hand_score(hand) / 0x10000) % 16 == hand_kickers(hand)[0],
        (hand_score(hand) / 0x1000) % 16 == hand_kickers(hand)[1],
        (hand_score(hand) / 0x100) % 16 == hand_kickers(hand)[2],
        (hand_score(hand) / 0x10) % 16 == hand_kickers(hand)[3],
        hand_score(hand) % 16 == hand_kickers(hand)[4],
{
    lemma_kickers_are_ranks(hand);
    lemma_unpack(hand_category(hand), hand_kickers(hand));
}

/// A card has rank `rank` exactly when it is one of the four cards of that
/// rank.
proof fn lemma_card_of_rank(card: u8, rank: u8)
    requires
        rank < 13,
    ensures
        indicator(card_rank(card) == rank) == indicator(card == 4 * rank) + indicator(
            card == 4 * rank + 1,
        ) + indicator(card == 4 * rank + 2) + indicator(card == 4 * rank + 3),
{
}

/// A hand holds as many cards of a rank as it holds of the four cards of
/// that rank together.
pub proof fn lemma_rank_count_by_cards(hand: Seq<u8>, rank: u8)
    requires
        is_scorable(hand),
        rank < 13,
    ensures
        rank_count(hand, rank) == hand.to_multiset().count((4 * rank) as u8)
            + hand.to_multiset().count((4 * rank + 1) as u8) + hand.to_multiset().count(
            (4 * rank + 2) as u8,
        ) + hand.to_multiset().count((4 * rank + 3) as u8),
{
    lemma_card_of_rank(hand[0], rank);
    lemma_card_of_rank(hand[1], rank);
    lemma_card_of_rank(hand[2], rank);
    lemma_card_of_rank(hand[3], rank);
    lemma_card_of_rank(hand[4], rank);
    lemma_count_of_five(hand_ranks(hand), rank);
    lemma_count_of_five(hand, (4 * rank) as u8);
    lemma_count_of_five(hand, (4 * rank + 1) as u8);
    lemma_count_of_five(hand, (4 * rank + 2) as u8);
    lemma_count_of_five(hand, (4 * rank + 3) as u8);
}

/// No card of a hand has a rank beyond the Ace.
pub proof fn lemma_no_rank_beyond_ace(hand: Seq<u8>, rank: u8)
    requires
        is_scorable(hand),
        rank >= 13,
    ensures
        rank_count(hand, rank) == 0,
{
    lemma_count_of_five(hand_ranks(hand), rank);
    assert(valid_card(hand[0]) && valid_card(hand[1]) && valid_card(hand[2]) && valid_card(
        hand[3],
    ) && valid_card(hand[4]));
}

/// When all cards of `first` share a suit, so do the same cards in another
/// order.
proof fn lemma_flush_carries_over(first: Seq<u8>, second: Seq<u8>)
    requires
        is_scorable(first),
        is_scorable(second),
        first.to_multiset() == second.to_multiset(),
        is_flush(first),
    ensures
        is_flush(second),
{
    first.to_multiset_ensures();
    second.to_multiset_ensures();
    assert forall|j: int| 0 <= j < 5 implies card_suit(#[trigger] second[j]) == card_suit(
        first[0],
    ) by {
        assert(second.contains(second[j]));
        assert(second.to_multiset().count(second[j]) > 0);
        assert(first.to_multiset().count(second[j]) > 0);
        assert(first.contains(second[j]));
        let i = choose|i: int| 0 <= i < 5 && first[i] == second[j];
        assert(card_suit(first[i]) == card_suit(first[0]));
    }
    assert(card_suit(second[0]) == card_suit(first[0]));
}

/// The score of a hand does not depend on the order of its cards: two hands
/// of the same cards score the same.
pub proof fn lemma_score_is_order_free(first: Seq<u8>, second: Seq<u8>)
    requires
        is_scorable(first),
        is_scorable(second),
        first.to_multiset() == second.to_multiset(),
    ensures
        hand_category(first) == hand_category(second),
        hand_kickers(first) == hand_kickers(second),
        hand_score(first) == hand_score(second),
{
    assert forall|rank: u8| #[trigger]
        hand_ranks(first).to_multiset().count(rank) == hand_ranks(second).to_multiset().count(
            rank,
        ) by {
        assert(rank_count(first, rank) == hand_ranks(first).to_multiset().count(rank));
        assert(rank_count(second, rank) == hand_ranks(second).to_multiset().count(rank));
        if rank < 13 {
            lemma_rank_count_by_cards(first, rank);
            lemma_rank_count_by_cards(second, rank);
        } else {
            lemma_no_rank_beyond_ace(first, rank);
            lemma_no_rank_beyond_ace(second, rank);
        }
    }
    assert forall|rank: u8|
        #![trigger rank_count(first, rank)]
        #![trigger rank_count(second, rank)]
        rank_count(first, rank) == rank_count(second, rank) by {
        assert(hand_ranks(first).to_multiset().count(rank) == hand_ranks(
            second,
        ).to_multiset().count(rank));
    }
    assert(rank_histogram(first) =~= rank_histogram(second));
    assert(is_wheel(first) == is_wheel(second));
    assert(is_straight(first) == is_straight(second)) by {
        if exists|low: u8| low <= 8 && #[trigger] is_run_from(first, low) {
            let low = choose|low: u8| low <= 8 && #[trigger] is_run_from(first, low);
            assert(is_run_from(second, low));
        }
        if exists|low: u8| low <= 8 && #[trigger] is_run_from(second, low) {
            let low = choose|low: u8| low <= 8 && #[trigger] is_run_from(second, low);
            assert(is_run_from(first, low));
        }
    }
    assert(is_flush(first) == is_flush(second)) by {
        if is_flush(first) {
            lemma_flush_carries_over(first, second);
        }
        if is_flush(second) {
            lemma_flush_carries_over(second, first);
        }
    }
    if !is_wheel(first) {
        let order = kicker_order(first);
        let sorted_first = hand_ranks(first).sort_by(order);
        let sorted_second = hand_ranks(second).sort_by(kicker_order(second));
        lemma_kicker_order_total(first);
        lemma_kicker_order_total(second);
        hand_ranks(first).lemma_sort_by_ensures(order);
        hand_ranks(second).lemma_sort_by_ensures(kicker_order(second));
        assert(hand_ranks(first).to_multiset() =~= hand_ranks(second).to_multiset());
        assert forall|i: int, j: int| 0 <= i < j < sorted_second.len() implies #[trigger] order(
            sorted_second[i],
            sorted_second[j],
        ) by {
            assert(kicker_order(second)(sorted_second[i], sorted_second[j]));
        }
        vstd::seq_lib::lemma_sorted_unique(sorted_first, sorted_second, order);
    }
}

} // verus!
