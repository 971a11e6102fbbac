//! The card model: a card is a number below 52 whose quotient by four is its
//! rank (0 for a Two up to 12 for an Ace) and whose remainder is its suit.

use vstd::prelude::*;

verus! {

/// Cards in a deck.
pub const DECK_SIZE: u8 = 52;

/// The rank of a Two, the lowest.
pub const RANK_TWO: u8 = 0;

/// The rank of a Three.
pub const RANK_THREE: u8 = 1;

/// The rank of a Four.
pub const RANK_FOUR: u8 = 2;

/// The rank of a Five.
pub const RANK_FIVE: u8 = 3;

/// The rank of an Ace, the highest.
pub const RANK_ACE: u8 = 12;

/// The rank of a card: 0 for a Two, 12 for an Ace.
pub open spec fn card_rank(card: u8) -> u8 {
    (card / 4) as u8
}

/// The suit of a card, a number below four with no order among suits.
pub open spec fn card_suit(card: u8) -> u8 {
    (card % 4) as u8
}

/// The card belongs to a 52-card deck.
pub open spec fn valid_card(card: u8) -> bool {
    card < 52
}

/// Every card of `cards` belongs to a 52-card deck.
pub open spec fn all_valid(cards: Seq<u8>) -> bool {
    forall|i: int| 0 <= i < cards.len() ==> valid_card(#[trigger] cards[i])
}

/// No card occurs twice in `cards`.
pub open spec fn all_distinct(cards: Seq<u8>) -> bool {
    forall|i: int, j: int| 0 <= i < j < cards.len() ==> cards[i] != cards[j]
}

/// Five cards of one deck, in any order; a card may even repeat.
pub open spec fn is_scorable(hand: Seq<u8>) -> bool {
    hand.len() == 5 && all_valid(hand)
}

/// Five distinct cards of one deck.
pub open spec fn valid_hand(hand: Seq<u8>) -> bool {
    &&& hand.len() == 5
    &&& all_valid(hand)
    &&& all_distinct(hand)
}

/// The rank of `card`.
pub fn rank_of(card: u8) -> (rank: u8)
    ensures
        rank == card_rank(card),
        valid_card(card) ==> rank < 13,
{
    card / 4
}

/// The suit of `card`.
pub fn suit_of(card: u8) -> (suit: u8)
    ensures
        suit == card_suit(card),
        suit < 4,
{
    card % 4
}

/// Tells whether every card of `cards` belongs to a 52-card deck.
pub fn cards_in_deck<const N: usize>(cards: &[u8; N]) -> (valid: bool)
    ensures
        valid == all_valid(cards@),
{
    let mut valid: bool = true;
    let mut i: usize = 0;
    while i < N
        invariant
            i <= N,
            valid == all_valid(cards@.take(i as int)),
        decreases N - i,
    {
        proof {
            let before = cards@.take(i as int);
            let after = cards@.take(i + 1);
            assert(forall|j: int| 0 <= j < i ==> before[j] == after[j]);
            assert(after[i as int] == cards@[i as int]);
        }
        valid = valid && cards[i] < DECK_SIZE;
        i += 1;
    }
    proof {
        assert(cards@.take(N as int) =~= cards@);
    }
    valid
}

} // verus!
