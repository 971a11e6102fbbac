//! Dealing: the hole cards and the board deck that a shuffled deck gives, and
//! the community cards that each street takes off the board deck.

use vstd::prelude::*;
use crate::select::{either, flag, select_u8};

verus! {

/// The street that reveals three community cards.
pub const FLOP: u8 = 0;

/// The street that reveals the fourth community card.
pub const TURN: u8 = 1;

/// The street that reveals the fifth community card.
pub const RIVER: u8 = 2;

/// What stands for a card that is not revealed.
pub const NO_CARD: u8 = 255;

/// The 48 cards left once both players hold their hole cards, and how many
/// of them have gone to the board.
#[derive(Clone, Copy, PartialEq, Eq, Debug)]
pub struct Deck {
    pub cards: [u8; 48],
    pub dealt_community_cards: u8,
}

/// Every card of the deck is in `cards`, once.
pub open spec fn is_full_deck(cards: Seq<u8>) -> bool {
    &&& cards.len() == 52
    &&& forall|i: int| 0 <= i < 52 ==> (#[trigger] cards[i]) < 52
    &&& forall|i: int, j: int| 0 <= i < j < 52 ==> cards[i] != cards[j]
}

/// The deck in order: position `i` holds card `i`.
pub fn ordered_deck() -> (deck: [u8; 52])
    ensures
        forall|i: int| 0 <= i < 52 ==> deck@[i] == i,
        is_full_deck(deck@),
{
    let mut deck: [u8; 52] = [0u8; 52];
    let mut i: u8 = 0;
    while i < 52
        invariant
            i <= 52,
            forall|j: int| 0 <= j < i ==> deck@[j] == j,
        decreases 52 - i,
    {
        deck[i as usize] = i;
        i += 1;
    }
    deck
}

/// Deals from `shuffled`, the deck as the shuffle left it: its first two
/// cards to the first player, the next two to the second player, and the
/// other 48, in order, to the board deck, of which none is dealt yet.
pub fn shuffle_and_deal(shuffled: [u8; 52]) -> (dealt: ([u8; 2], [u8; 2], Deck))
    ensures
        dealt.0@ == shuffled@.subrange(0, 2),
        dealt.1@ == shuffled@.subrange(2, 4),
        dealt.2.cards@ == shuffled@.subrange(4, 52),
        dealt.2.dealt_community_cards == 0,
{
    let p1_cards: [u8; 2] = [shuffled[0], shuffled[1]];
    let p2_cards: [u8; 2] = [shuffled[2], shuffled[3]];
    let mut board_cards: [u8; 48] = [0u8; 48];
    let mut i: usize = 0;
    while i < 48
        invariant
            i <= 48,
            forall|j: int| 0 <= j < i ==> board_cards@[j] == shuffled@[j + 4],
        decreases 48 - i,
    {
        board_cards[i] = shuffled[i + 4];
        i += 1;
    }
    assert(p1_cards@ =~= shuffled@.subrange(0, 2));
    assert(p2_cards@ =~= shuffled@.subrange(2, 4));
    assert(board_cards@ =~= shuffled@.subrange(4, 52));
    (p1_cards, p2_cards, Deck { cards: board_cards, dealt_community_cards: 0 })
}

/// Dealing from a full deck gives each player two cards and the board deck
/// 48, all of them cards of the deck and no two of them the same.
pub proof fn lemma_deal_splits_the_deck(
    shuffled: Seq<u8>,
    p1_cards: Seq<u8>,
    p2_cards: Seq<u8>,
    board_cards: Seq<u8>,
)
    requires
        is_full_deck(shuffled),
        p1_cards == shuffled.subrange(0, 2),
        p2_cards == shuffled.subrange(2, 4),
        board_cards == shuffled.subrange(4, 52),
    ensures
        p1_cards + p2_cards + board_cards == shuffled,
        forall|i: int| 0 <= i < 2 ==> (#[trigger] p1_cards[i]) < 52 && !p2_cards.contains(
            p1_cards[i],
        ) && !board_cards.contains(p1_cards[i]),
        forall|i: int| 0 <= i < 2 ==> (#[trigger] p2_cards[i]) < 52 && !board_cards.contains(
            p2_cards[i],
        ),
        forall|i: int| 0 <= i < 48 ==> (#[trigger] board_cards[i]) < 52,
        p1_cards[0] != p1_cards[1],
        p2_cards[0] != p2_cards[1],
        forall|i: int, j: int| 0 <= i < j < 48 ==> board_cards[i] != board_cards[j],
{
    assert(p1_cards + p2_cards + board_cards =~= shuffled);
    assert forall|i: int| 0 <= i < 2 implies (#[trigger] p1_cards[i]) < 52 && !p2_cards.contains(
        p1_cards[i],
    ) && !board_cards.contains(p1_cards[i]) by {
        assert(p1_cards[i] == shuffled[i]);
        if p2_cards.contains(p1_cards[i]) {
            let j = choose|j: int| 0 <= j < 2 && p2_cards[j] == p1_cards[i];
            assert(p2_cards[j] == shuffled[j + 2]);
        }
        if board_cards.contains(p1_cards[i]) {
            let j = choose|j: int| 0 <= j < 48 && board_cards[j] == p1_cards[i];
            assert(board_cards[j] == shuffled[j + 4]);
        }
    }
    assert forall|i: int| 0 <= i < 2 implies (#[trigger] p2_cards[i]) < 52
        && !board_cards.contains(p2_cards[i]) by {
        assert(p2_cards[i] == shuffled[i + 2]);
        if board_cards.contains(p2_cards[i]) {
            let j = choose|j: int| 0 <= j < 48 && board_cards[j] == p2_cards[i];
            assert(board_cards[j] == shuffled[j + 4]);
        }
    }
    assert forall|i: int| 0 <= i < 48 implies (#[trigger] board_cards[i]) < 52 by {
        assert(board_cards[i] == shuffled[i + 4]);
    }
    assert(p1_cards[0] == shuffled[0] && p1_cards[1] == shuffled[1]);
    assert(p2_cards[0] == shuffled[2] && p2_cards[1] == shuffled[3]);
    assert forall|i: int, j: int| 0 <= i < j < 48 implies board_cards[i] != board_cards[j] by {
        assert(board_cards[i] == shuffled[i + 4]);
        assert(board_cards[j] == shuffled[j + 4]);
    }
}

/// How many community cards a street reveals: three on the flop, one on the
/// turn and on the river, none for a number that is no street.
pub open spec fn cards_revealed_in(phase: u8) -> nat {
    if phase == 0 {
        3
    } else if phase == 1 || phase == 2 {
        1
    } else {
        0
    }
}

/// What a street shows of the board deck `cards` of which `dealt` are gone:
/// the next three cards on the flop; the next card, then twice no card, on
/// the turn and on the river; three times no card otherwise.
pub open spec fn revealed_in(cards: Seq<u8>, dealt: int, phase: u8) -> Seq<u8> {
    if phase == 0 {
        seq![cards[dealt], cards[dealt + 1], cards[dealt + 2]]
    } else if phase == 1 || phase == 2 {
        seq![cards[dealt], 255u8, 255u8]
    } else {
        seq![255u8, 255u8, 255u8]
    }
}

/// The card at position `at` of the board deck, and 0 when there is no such
/// position. All 48 positions are read, whichever is asked for.
pub fn card_at(cards: &[u8; 48], at: usize) -> (card: u8)
    ensures
        card == if at < 48 { cards@[at as int] } else { 0 },
{
    let mut card: u8 = 0;
    let mut i: usize = 0;
    while i < 48
        invariant
            i <= 48,
            card == if at < i { cards@[at as int] } else { 0 },
        decreases 48 - i,
    {
        card = select_u8(flag(i == at), cards[i], card);
        i += 1;
    }
    card
}

/// Takes the community cards of one street off the board deck: the deck with
/// its count of dealt cards moved on, and the three places of revealed
/// cards, those not used holding 255.
pub fn reveal_community_cards(deck: Deck, phase: u8) -> (revealed: (Deck, [u8; 3]))
    requires
        deck.dealt_community_cards + cards_revealed_in(phase) <= 48,
    ensures
        revealed.0.cards == deck.cards,
        revealed.0.dealt_community_cards == deck.dealt_community_cards + cards_revealed_in(phase),
        revealed.1@ == revealed_in(deck.cards@, deck.dealt_community_cards as int, phase),
{
    let is_flop: u8 = flag(phase == FLOP);
    let is_single: u8 = either(flag(phase == TURN), flag(phase == RIVER));
    let is_street: u8 = either(is_flop, is_single);
    let start: usize = deck.dealt_community_cards as usize;
    let first: u8 = card_at(&deck.cards, start);
    let second: u8 = card_at(&deck.cards, start + 1);
    let third: u8 = card_at(&deck.cards, start + 2);
    let cards: [u8; 3] = [
        select_u8(is_street, first, NO_CARD),
        select_u8(is_flop, second, NO_CARD),
        select_u8(is_flop, third, NO_CARD),
    ];
    let taken: u8 = is_flop * 3 + is_single;
    assert(cards@ =~= revealed_in(deck.cards@, deck.dealt_community_cards as int, phase));
    (Deck { cards: deck.cards, dealt_community_cards: deck.dealt_community_cards + taken }, cards)
}

} // verus!
