use veridian_holdem::deal::{ordered_deck, reveal_community_cards, shuffle_and_deal, Deck};

fn board_deck() -> Deck {
    let mut cards = [0u8; 48];
    for (i, card) in cards.iter_mut().enumerate() {
        *card = (i as u8) + 4;
    }
    Deck { cards, dealt_community_cards: 0 }
}

#[test]
fn ordered_deck_holds_every_card_at_its_own_position() {
    let deck = ordered_deck();
    for (i, card) in deck.iter().enumerate() {
        assert_eq!(*card as usize, i);
    }
}

#[test]
fn deal_takes_hole_cards_from_the_top() {
    let mut shuffled = ordered_deck();
    shuffled.reverse();
    let (p1, p2, deck) = shuffle_and_deal(shuffled);
    assert_eq!(p1, [51, 50]);
    assert_eq!(p2, [49, 48]);
    assert_eq!(deck.dealt_community_cards, 0);
    assert_eq!(deck.cards[0], 47);
    assert_eq!(deck.cards[47], 0);
    for i in 0..48 {
        assert_eq!(deck.cards[i], shuffled[i + 4]);
    }
}

#[test]
fn deal_hands_out_every_card_once() {
    let mut shuffled = ordered_deck();
    shuffled.rotate_left(17);
    let (p1, p2, deck) = shuffle_and_deal(shuffled);
    let mut seen = [false; 52];
    for card in p1.iter().chain(p2.iter()).chain(deck.cards.iter()) {
        assert!(!seen[*card as usize]);
        seen[*card as usize] = true;
    }
    assert!(seen.iter().all(|s| *s));
}

#[test]
fn flop_reveals_three_cards() {
    let (deck, revealed) = reveal_community_cards(board_deck(), 0);
    assert_eq!(revealed, [4, 5, 6]);
    assert_eq!(deck.dealt_community_cards, 3);
    assert_eq!(deck.cards, board_deck().cards);
}

#[test]
fn turn_and_river_reveal_one_card_each() {
    let (after_flop, _) = reveal_community_cards(board_deck(), 0);
    let (after_turn, turn) = reveal_community_cards(after_flop, 1);
    assert_eq!(turn, [7, 255, 255]);
    assert_eq!(after_turn.dealt_community_cards, 4);
    let (after_river, river) = reveal_community_cards(after_turn, 2);
    assert_eq!(river, [8, 255, 255]);
    assert_eq!(after_river.dealt_community_cards, 5);
}

#[test]
fn unknown_street_reveals_nothing() {
    let (deck, revealed) = reveal_community_cards(board_deck(), 3);
    assert_eq!(revealed, [255, 255, 255]);
    assert_eq!(deck, board_deck());
}

#[test]
fn last_cards_of_the_deck_can_be_revealed() {
    let mut deck = board_deck();
    deck.dealt_community_cards = 45;
    let (after, revealed) = reveal_community_cards(deck, 0);
    assert_eq!(revealed, [49, 50, 51]);
    assert_eq!(after.dealt_community_cards, 48);
    let mut deck = board_deck();
    deck.dealt_community_cards = 47;
    let (after, revealed) = reveal_community_cards(deck, 2);
    assert_eq!(revealed, [51, 255, 255]);
    assert_eq!(after.dealt_community_cards, 48);
}
