//! What a five-card hand is worth: its category, its ordered kickers and the
//! single number that packs both so that comparing numbers compares hands.

use vstd::prelude::*;
use vstd::multiset::Multiset;
use crate::cards::{card_rank, card_suit};
use crate::select::indicator;

verus! {

/// The category of a hand that shows no pattern.
pub const HIGH_CARD: u64 = 0;

/// The category of a hand with one pair.
pub const ONE_PAIR: u64 = 1;

/// The category of a hand with two pairs.
pub const TWO_PAIR: u64 = 2;

/// The category of a hand with three cards of one rank.
pub const THREE_OF_A_KIND: u64 = 3;

/// The category of five consecutive ranks.
pub const STRAIGHT: u64 = 4;

/// The category of five cards of one suit.
pub const FLUSH: u64 = 5;

/// The category of three cards of one rank with two of another.
pub const FULL_HOUSE: u64 = 6;

/// The category of a hand with four cards of one rank.
pub const FOUR_OF_A_KIND: u64 = 7;

/// The category of five consecutive ranks of one suit.
pub const STRAIGHT_FLUSH: u64 = 8;

/// The ranks of the cards of `hand`, card by card.
pub open spec fn hand_ranks(hand: Seq<u8>) -> Seq<u8> {
    Seq::new(hand.len(), |i: int| card_rank(hand[i]))
}

/// How many cards of `hand` have rank `rank`.
pub open spec fn rank_count(hand: Seq<u8>, rank: u8) -> nat {
    hand_ranks(hand).to_multiset().count(rank)
}

/// The rank histogram of `hand`: entry `r` is the number of cards of rank `r`.
pub open spec fn rank_histogram(hand: Seq<u8>) -> Seq<nat> {
    Seq::new(13, |r: int| rank_count(hand, r as u8))
}

/// How many entries of `histogram` equal `size`: the number of ranks held by
/// exactly `size` cards.
pub open spec fn groups_of(histogram: Seq<nat>, size: nat) -> nat
    decreases histogram.len(),
{
    if histogram.len() == 0 {
        0
    } else {
        groups_of(histogram.drop_last(), size) + if histogram.last() == size {
            1nat
        } else {
            0nat
        }
    }
}

/// All cards share one suit.
pub open spec fn is_flush(hand: Seq<u8>) -> bool {
    forall|i: int| 0 <= i < hand.len() ==> card_suit(#[trigger] hand[i]) == card_suit(hand[0])
}

/// The hand holds each of the five ranks `low`, `low + 1`, .. `low + 4` once.
pub open spec fn is_run_from(hand: Seq<u8>, low: u8) -> bool {
    forall|rank: u8| low <= rank <= low + 4 ==> #[trigger] rank_count(hand, rank) == 1
}

/// The hand is Ace, Two, Three, Four, Five: the straight in which the Ace
/// plays low.
pub open spec fn is_wheel(hand: Seq<u8>) -> bool {
    &&& rank_count(hand, 12) == 1
    &&& rank_count(hand, 3) == 1
    &&& rank_count(hand, 2) == 1
    &&& rank_count(hand, 1) == 1
    &&& rank_count(hand, 0) == 1
}

/// Five consecutive ranks, the wheel included.
pub open spec fn is_straight(hand: Seq<u8>) -> bool {
    is_wheel(hand) || exists|low: u8| low <= 8 && #[trigger] is_run_from(hand, low)
}

/// One rank is held by four cards.
pub open spec fn is_four_of_a_kind(hand: Seq<u8>) -> bool {
    groups_of(rank_histogram(hand), 4) == 1
}

/// One rank is held by three cards and one by two.
pub open spec fn is_full_house(hand: Seq<u8>) -> bool {
    groups_of(rank_histogram(hand), 3) == 1 && groups_of(rank_histogram(hand), 2) == 1
}

/// One rank is held by three cards and none by two.
pub open spec fn is_three_of_a_kind(hand: Seq<u8>) -> bool {
    groups_of(rank_histogram(hand), 3) == 1 && groups_of(rank_histogram(hand), 2) == 0
}

/// Two ranks are held by two cards each.
pub open spec fn is_two_pair(hand: Seq<u8>) -> bool {
    groups_of(rank_histogram(hand), 2) == 2
}

/// One rank is held by two cards and none by three.
pub open spec fn is_one_pair(hand: Seq<u8>) -> bool {
    groups_of(rank_histogram(hand), 2) == 1 && groups_of(rank_histogram(hand), 3) == 0
}

/// The category of `hand`: the strongest pattern it shows, from 8 for a
/// straight flush down to 0 for a high card.
pub open spec fn hand_category(hand: Seq<u8>) -> nat {
    if is_straight(hand) && is_flush(hand) {
        8
    } else if is_four_of_a_kind(hand) {
        7
    } else if is_full_house(hand) {
        6
    } else if is_flush(hand) {
        5
    } else if is_straight(hand) {
        4
    } else if is_three_of_a_kind(hand) {
        3
    } else if is_two_pair(hand) {
        2
    } else if is_one_pair(hand) {
        1
    } else {
        0
    }
}

/// The order in which ranks of `hand` count as kickers: `first` stands
/// before `second` when the hand holds more cards of it, or as many and it
/// is the higher rank.
pub open spec fn kicker_order(hand: Seq<u8>) -> spec_fn(u8, u8) -> bool {
    |first: u8, second: u8|
        rank_count(hand, first) > rank_count(hand, second) || (rank_count(hand, first)
            == rank_count(hand, second) && first >= second)
}

/// The kickers of the wheel: Five down to Two, then the Ace that plays low.
pub open spec fn wheel_kickers() -> Seq<u8> {
    seq![3u8, 2u8, 1u8, 0u8, 12u8]
}

/// The five kickers of `hand`, most significant first: its ranks sorted by
/// `kicker_order`, except for the wheel.
pub open spec fn hand_kickers(hand: Seq<u8>) -> Seq<u8> {
    if is_wheel(hand) {
        wheel_kickers()
    } else {
        hand_ranks(hand).sort_by(kicker_order(hand))
    }
}

/// A category and five kickers packed four bits each, category on top.
pub open spec fn pack_score(category: nat, kickers: Seq<u8>) -> nat {
    (category * 0x100000 + kickers[0] * 0x10000 + kickers[1] * 0x1000 + kickers[2] * 0x100
        + kickers[3] * 0x10 + kickers[4]) as nat
}

/// The score of a five-card hand.
pub open spec fn hand_score(hand: Seq<u8>) -> nat {
    pack_score(hand_category(hand), hand_kickers(hand))
}

/// In a sequence of five values, a value occurs as often as it is met when
/// the five positions are read one by one.
pub proof fn lemma_count_of_five<T>(s: Seq<T>, v: T)
    requires
        s.len() == 5,
    ensures
        s.to_multiset().count(v) == indicator(s[0] == v) + indicator(s[1] == v) + indicator(
            s[2] == v,
        ) + indicator(s[3] == v) + indicator(s[4] == v),
{
    broadcast use vstd::seq_lib::to_multiset_build;
    broadcast use vstd::multiset::group_multiset_axioms;

    let s0 = Seq::<T>::empty();
    let s1 = s0.push(s[0]);
    let s2 = s1.push(s[1]);
    let s3 = s2.push(s[2]);
    let s4 = s3.push(s[3]);
    let s5 = s4.push(s[4]);
    assert(s5 =~= s);
    assert(s0.to_multiset() =~= Multiset::<T>::empty()) by {
        broadcast use vstd::seq_lib::group_to_multiset_ensures;

        assert(s0.to_multiset().len() == 0);
    }
    assert(s1.to_multiset().count(v) == indicator(s[0] == v));
    assert(s2.to_multiset().count(v) == s1.to_multiset().count(v) + indicator(s[1] == v));
    assert(s3.to_multiset().count(v) == s2.to_multiset().count(v) + indicator(s[2] == v));
    assert(s4.to_multiset().count(v) == s3.to_multiset().count(v) + indicator(s[3] == v));
    assert(s5.to_multiset().count(v) == s4.to_multiset().count(v) + indicator(s[4] == v));
}

/// How many of five ranks lie below `limit`.
pub open spec fn ranks_below(ranks: Seq<u8>, limit: int) -> int {
    indicator(ranks[0] < limit) + indicator(ranks[1] < limit) + indicator(ranks[2] < limit)
        + indicator(ranks[3] < limit) + indicator(ranks[4] < limit)
}

/// The order of kickers is a total order on ranks.
pub proof fn lemma_kicker_order_total(hand: Seq<u8>)
    ensures
        vstd::relations::total_ordering(kicker_order(hand)),
{
    let order = kicker_order(hand);
    assert(vstd::relations::reflexive(order));
    assert(vstd::relations::antisymmetric(order));
    assert(vstd::relations::transitive(order));
    assert(vstd::relations::strongly_connected(order));
}

} // verus!
