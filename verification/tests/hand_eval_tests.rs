use veridian_holdem::cards::{cards_in_deck, rank_of, suit_of};
use veridian_holdem::hand_eval::evaluate_hand;

const TWO: u8 = 0;
const THREE: u8 = 1;
const FOUR: u8 = 2;
const FIVE: u8 = 3;
const SIX: u8 = 4;
const SEVEN: u8 = 5;
const NINE: u8 = 7;
const TEN: u8 = 8;
const JACK: u8 = 9;
const QUEEN: u8 = 10;
const KING: u8 = 11;
const ACE: u8 = 12;

const CLUBS: u8 = 0;
const DIAMONDS: u8 = 1;
const HEARTS: u8 = 2;
const SPADES: u8 = 3;

fn card(rank: u8, suit: u8) -> u8 {
    rank * 4 + suit
}

fn packed(category: u64, kickers: [u8; 5]) -> u64 {
    (category << 20)
        | ((kickers[0] as u64) << 16)
        | ((kickers[1] as u64) << 12)
        | ((kickers[2] as u64) << 8)
        | ((kickers[3] as u64) << 4)
        | (kickers[4] as u64)
}

#[test]
fn full_house_orders_trips_before_pair() {
    let hand = [
        card(QUEEN, HEARTS),
        card(KING, CLUBS),
        card(QUEEN, SPADES),
        card(KING, DIAMONDS),
        card(KING, HEARTS),
    ];
    assert_eq!(evaluate_hand(hand), packed(6, [KING, KING, KING, QUEEN, QUEEN]));
}

#[test]
fn full_house_with_low_trips_still_leads_with_trips() {
    let hand = [
        card(TWO, HEARTS),
        card(ACE, CLUBS),
        card(TWO, SPADES),
        card(ACE, DIAMONDS),
        card(TWO, CLUBS),
    ];
    assert_eq!(evaluate_hand(hand), packed(6, [TWO, TWO, TWO, ACE, ACE]));
}

#[test]
fn two_pair_orders_pairs_by_rank() {
    let hand = [
        card(KING, HEARTS),
        card(ACE, CLUBS),
        card(QUEEN, SPADES),
        card(KING, DIAMONDS),
        card(ACE, HEARTS),
    ];
    assert_eq!(evaluate_hand(hand), packed(2, [ACE, ACE, KING, KING, QUEEN]));
}

#[test]
fn high_card_reads_ranks_from_high_to_low() {
    let hand = [
        card(THREE, HEARTS),
        card(SEVEN, CLUBS),
        card(TWO, SPADES),
        card(FIVE, DIAMONDS),
        card(FOUR, HEARTS),
    ];
    assert_eq!(evaluate_hand(hand), packed(0, [SEVEN, FIVE, FOUR, THREE, TWO]));
    assert_eq!(evaluate_hand(hand), 0x053210);
}

#[test]
fn wheel_of_mixed_suits_is_a_straight() {
    let hand = [
        card(ACE, HEARTS),
        card(FIVE, CLUBS),
        card(FOUR, SPADES),
        card(THREE, DIAMONDS),
        card(TWO, HEARTS),
    ];
    assert_eq!(evaluate_hand(hand), packed(4, [FIVE, FOUR, THREE, TWO, ACE]));
    assert_eq!(evaluate_hand(hand), 0x43210C);
}

#[test]
fn wheel_of_one_suit_is_a_straight_flush() {
    let hand = [
        card(THREE, SPADES),
        card(ACE, SPADES),
        card(TWO, SPADES),
        card(FIVE, SPADES),
        card(FOUR, SPADES),
    ];
    assert_eq!(evaluate_hand(hand), packed(8, [FIVE, FOUR, THREE, TWO, ACE]));
}

#[test]
fn wheel_scores_below_six_high_straight() {
    let wheel = [
        card(ACE, HEARTS),
        card(FIVE, CLUBS),
        card(FOUR, SPADES),
        card(THREE, DIAMONDS),
        card(TWO, HEARTS),
    ];
    let six_high = [
        card(SIX, HEARTS),
        card(FIVE, CLUBS),
        card(FOUR, SPADES),
        card(THREE, DIAMONDS),
        card(TWO, HEARTS),
    ];
    assert_eq!(evaluate_hand(six_high), packed(4, [SIX, FIVE, FOUR, THREE, TWO]));
    assert!(evaluate_hand(wheel) < evaluate_hand(six_high));
}

#[test]
fn royal_flush_is_the_highest_score() {
    let hand = [
        card(TEN, SPADES),
        card(JACK, SPADES),
        card(QUEEN, SPADES),
        card(KING, SPADES),
        card(ACE, SPADES),
    ];
    assert_eq!(evaluate_hand(hand), packed(8, [ACE, KING, QUEEN, JACK, TEN]));
    assert_eq!(evaluate_hand(hand), 0x8CBA98);
}

#[test]
fn four_of_a_kind_leads_with_the_quads() {
    let hand = [
        card(NINE, SPADES),
        card(ACE, SPADES),
        card(NINE, HEARTS),
        card(NINE, CLUBS),
        card(NINE, DIAMONDS),
    ];
    assert_eq!(evaluate_hand(hand), packed(7, [NINE, NINE, NINE, NINE, ACE]));
}

#[test]
fn flush_that_is_no_straight_is_a_flush() {
    let hand = [
        card(NINE, HEARTS),
        card(ACE, HEARTS),
        card(TWO, HEARTS),
        card(JACK, HEARTS),
        card(FOUR, HEARTS),
    ];
    assert_eq!(evaluate_hand(hand), packed(5, [ACE, JACK, NINE, FOUR, TWO]));
}

#[test]
fn three_of_a_kind_leads_with_the_trips() {
    let hand = [
        card(SEVEN, HEARTS),
        card(ACE, HEARTS),
        card(SEVEN, CLUBS),
        card(KING, DIAMONDS),
        card(SEVEN, SPADES),
    ];
    assert_eq!(evaluate_hand(hand), packed(3, [SEVEN, SEVEN, SEVEN, ACE, KING]));
}

#[test]
fn one_pair_leads_with_the_pair() {
    let hand = [
        card(THREE, HEARTS),
        card(ACE, HEARTS),
        card(THREE, CLUBS),
        card(KING, DIAMONDS),
        card(SEVEN, SPADES),
    ];
    assert_eq!(evaluate_hand(hand), packed(1, [THREE, THREE, ACE, KING, SEVEN]));
}

#[test]
fn ace_high_run_without_five_consecutive_ranks_is_no_straight() {
    // King, Ace, Two, Three, Four does not wrap around.
    let hand = [
        card(KING, HEARTS),
        card(ACE, CLUBS),
        card(TWO, SPADES),
        card(THREE, DIAMONDS),
        card(FOUR, HEARTS),
    ];
    assert_eq!(evaluate_hand(hand), packed(0, [ACE, KING, FOUR, THREE, TWO]));
}

#[test]
fn score_does_not_depend_on_the_order_of_the_cards() {
    let cards = [
        card(KING, HEARTS),
        card(ACE, CLUBS),
        card(QUEEN, SPADES),
        card(KING, DIAMONDS),
        card(ACE, HEARTS),
    ];
    let expected = evaluate_hand(cards);
    for a in 0..5 {
        for b in 0..5 {
            let mut shuffled = cards;
            shuffled.swap(a, b);
            assert_eq!(evaluate_hand(shuffled), expected);
        }
    }
}

#[test]
fn categories_rank_above_any_kickers_of_the_category_below() {
    // one hand per category, the weakest kickers above, the strongest below
    let lowest_straight_flush = [card(ACE, 0), card(TWO, 0), card(THREE, 0), card(FOUR, 0), card(FIVE, 0)];
    let highest_quads = [card(ACE, 0), card(ACE, 1), card(ACE, 2), card(ACE, 3), card(KING, 0)];
    let lowest_quads = [card(TWO, 0), card(TWO, 1), card(TWO, 2), card(TWO, 3), card(THREE, 0)];
    let highest_full_house = [card(ACE, 0), card(ACE, 1), card(ACE, 2), card(KING, 3), card(KING, 0)];
    let lowest_full_house = [card(TWO, 0), card(TWO, 1), card(TWO, 2), card(THREE, 3), card(THREE, 0)];
    let highest_flush = [card(ACE, 0), card(KING, 0), card(QUEEN, 0), card(JACK, 0), card(NINE, 0)];
    let lowest_flush = [card(TWO, 0), card(THREE, 0), card(FOUR, 0), card(FIVE, 0), card(SEVEN, 0)];
    let highest_straight = [card(ACE, 0), card(KING, 1), card(QUEEN, 0), card(JACK, 0), card(TEN, 0)];
    let lowest_straight = [card(ACE, 0), card(TWO, 1), card(THREE, 0), card(FOUR, 0), card(FIVE, 0)];
    let highest_trips = [card(ACE, 0), card(ACE, 1), card(ACE, 2), card(KING, 3), card(QUEEN, 0)];
    let lowest_trips = [card(TWO, 0), card(TWO, 1), card(TWO, 2), card(THREE, 3), card(FOUR, 0)];
    let highest_two_pair = [card(ACE, 0), card(ACE, 1), card(KING, 2), card(KING, 3), card(QUEEN, 0)];
    let lowest_two_pair = [card(TWO, 0), card(TWO, 1), card(THREE, 2), card(THREE, 3), card(FOUR, 0)];
    let highest_pair = [card(ACE, 0), card(ACE, 1), card(KING, 2), card(QUEEN, 3), card(JACK, 0)];
    let lowest_pair = [card(TWO, 0), card(TWO, 1), card(THREE, 2), card(FOUR, 3), card(FIVE, 0)];
    let highest_high_card = [card(ACE, 0), card(KING, 1), card(QUEEN, 2), card(JACK, 3), card(NINE, 0)];
    let ladder = [
        (highest_high_card, lowest_pair),
        (highest_pair, lowest_two_pair),
        (highest_two_pair, lowest_trips),
        (highest_trips, lowest_straight),
        (highest_straight, lowest_flush),
        (highest_flush, lowest_full_house),
        (highest_full_house, lowest_quads),
        (highest_quads, lowest_straight_flush),
    ];
    for (category, (below, above)) in ladder.iter().enumerate() {
        assert_eq!(evaluate_hand(*below) >> 20, category as u64);
        assert_eq!(evaluate_hand(*above) >> 20, category as u64 + 1);
        assert!(evaluate_hand(*below) < evaluate_hand(*above));
    }
}

#[test]
fn cards_outside_the_deck_are_told_apart() {
    assert!(cards_in_deck(&[0u8, 51, 17]));
    assert!(!cards_in_deck(&[0u8, 52, 17]));
    assert!(!cards_in_deck(&[255u8]));
    let none: [u8; 0] = [];
    assert!(cards_in_deck(&none));
    assert_eq!(rank_of(0), 0);
    assert_eq!(rank_of(51), 12);
    assert_eq!(rank_of(43), 10);
    assert_eq!(suit_of(43), 3);
    assert_eq!(suit_of(48), 0);
}

#[test]
fn scores_order_hands_as_poker_does() {
    // from weakest to strongest, neighbours often differing in one kicker only
    let ladder: [[u8; 5]; 16] = [
        [card(SEVEN, 0), card(FIVE, 1), card(FOUR, 2), card(THREE, 3), card(TWO, 0)],
        [card(ACE, 0), card(KING, 1), card(QUEEN, 2), card(JACK, 3), card(NINE, 0)],
        [card(TWO, 0), card(TWO, 1), card(FIVE, 2), card(FOUR, 3), card(THREE, 0)],
        [card(TWO, 0), card(TWO, 1), card(SIX, 2), card(FOUR, 3), card(THREE, 0)],
        [card(ACE, 0), card(ACE, 1), card(KING, 2), card(QUEEN, 3), card(JACK, 0)],
        [card(THREE, 0), card(THREE, 1), card(TWO, 2), card(TWO, 3), card(ACE, 0)],
        [card(FOUR, 0), card(FOUR, 1), card(TWO, 2), card(TWO, 3), card(THREE, 0)],
        [card(ACE, 0), card(ACE, 1), card(KING, 2), card(KING, 3), card(JACK, 0)],
        [card(ACE, 0), card(ACE, 1), card(KING, 2), card(KING, 3), card(QUEEN, 0)],
        [card(TWO, 0), card(TWO, 1), card(TWO, 2), card(FOUR, 3), card(THREE, 0)],
        [card(ACE, 0), card(FIVE, 1), card(FOUR, 2), card(THREE, 3), card(TWO, 0)],
        [card(SIX, 0), card(FIVE, 1), card(FOUR, 2), card(THREE, 3), card(TWO, 0)],
        [card(SEVEN, 2), card(FIVE, 2), card(FOUR, 2), card(THREE, 2), card(TWO, 2)],
        [card(TWO, 0), card(TWO, 1), card(TWO, 2), card(THREE, 3), card(THREE, 0)],
        [card(TWO, 0), card(TWO, 1), card(TWO, 2), card(TWO, 3), card(THREE, 0)],
        [card(ACE, 1), card(FIVE, 1), card(FOUR, 1), card(THREE, 1), card(TWO, 1)],
    ];
    for weaker in 0..ladder.len() {
        for stronger in 0..ladder.len() {
            let below = evaluate_hand(ladder[weaker]);
            let above = evaluate_hand(ladder[stronger]);
            assert_eq!(below < above, weaker < stronger);
            assert_eq!(below == above, weaker == stronger);
        }
    }
}

#[test]
fn hands_of_the_same_ranks_tie_whatever_the_suits() {
    let first = [card(ACE, 0), card(ACE, 1), card(KING, 2), card(QUEEN, 3), card(JACK, 0)];
    let second = [card(JACK, 1), card(QUEEN, 0), card(ACE, 3), card(KING, 1), card(ACE, 2)];
    assert_eq!(evaluate_hand(first), evaluate_hand(second));
    assert_eq!(evaluate_hand(first), packed(1, [ACE, ACE, KING, QUEEN, JACK]));
}

#[test]
fn score_uses_the_low_twenty_four_bits_only() {
    let royal = [card(TEN, 3), card(JACK, 3), card(QUEEN, 3), card(KING, 3), card(ACE, 3)];
    assert!(evaluate_hand(royal) < 1 << 24);
    assert_eq!(evaluate_hand(royal) >> 20, 8);
}
