use veridian_holdem::hand_eval::evaluate_hand;
use veridian_holdem::showdown::{best_of_seven, determine_winner};

fn card(rank: u8, suit: u8) -> u8 {
    rank * 4 + suit
}

/// The highest score over every way of leaving two of seven cards out.
fn brute_force_best(cards: [u8; 7]) -> u64 {
    let mut best = 0;
    let mut hands = 0;
    for skip_a in 0..7 {
        for skip_b in (skip_a + 1)..7 {
            let mut hand = [0u8; 5];
            let mut filled = 0;
            for (position, card) in cards.iter().enumerate() {
                if position != skip_a && position != skip_b {
                    hand[filled] = *card;
                    filled += 1;
                }
            }
            hands += 1;
            best = best.max(evaluate_hand(hand));
        }
    }
    assert_eq!(hands, 21);
    best
}

/// Seven distinct cards drawn from `state`, a linear congruential generator.
fn draw_seven(state: &mut u64) -> [u8; 7] {
    let mut deck: Vec<u8> = (0..52).collect();
    let mut cards = [0u8; 7];
    for slot in cards.iter_mut() {
        *state = state.wrapping_mul(6364136223846793005).wrapping_add(1442695040888963407);
        let pick = ((*state >> 33) % deck.len() as u64) as usize;
        *slot = deck.swap_remove(pick);
    }
    cards
}

#[test]
fn best_of_seven_matches_brute_force_on_sampled_hands() {
    let mut state: u64 = 0x5eed;
    for _ in 0..300 {
        let cards = draw_seven(&mut state);
        assert_eq!(best_of_seven(cards), brute_force_best(cards));
    }
}

#[test]
fn best_of_seven_finds_the_hand_hidden_among_seven() {
    // Ace, King of spades with Queen, Jack, Ten of spades on the board.
    let cards = [card(12, 3), card(11, 3), card(10, 3), card(9, 3), card(8, 3), card(7, 2), card(1, 1)];
    assert_eq!(best_of_seven(cards), 0x8CBA98);
}

#[test]
fn best_of_seven_of_a_pair_of_deuces() {
    let cards = [card(0, 0), card(0, 1), card(10, 3), card(9, 3), card(8, 3), card(7, 2), card(1, 1)];
    // pair of Twos with Queen, Jack, Ten
    assert_eq!(best_of_seven(cards), 0x100A98);
}

#[test]
fn straight_flush_beats_pair_of_deuces() {
    let p1_hole = [card(12, 3), card(11, 3)];
    let p2_hole = [card(0, 0), card(0, 1)];
    let board = [card(10, 3), card(9, 3), card(8, 3), card(7, 2), card(1, 1)];
    assert_eq!(determine_winner(p1_hole, p2_hole, board), 0);
}

#[test]
fn second_player_wins_when_the_hands_are_swapped() {
    let p1_hole = [card(0, 0), card(0, 1)];
    let p2_hole = [card(12, 3), card(11, 3)];
    let board = [card(10, 3), card(9, 3), card(8, 3), card(7, 2), card(1, 1)];
    assert_eq!(determine_winner(p1_hole, p2_hole, board), 1);
}

#[test]
fn players_who_both_play_the_board_tie() {
    // the board is a royal flush; no hole card improves it
    let p1_hole = [card(0, 0), card(1, 1)];
    let p2_hole = [card(2, 2), card(3, 0)];
    let board = [card(12, 3), card(11, 3), card(10, 3), card(9, 3), card(8, 3)];
    assert_eq!(determine_winner(p1_hole, p2_hole, board), 2);
}

#[test]
fn equal_ranks_in_other_suits_tie() {
    let p1_hole = [card(12, 0), card(11, 1)];
    let p2_hole = [card(12, 2), card(11, 3)];
    let board = [card(0, 0), card(5, 1), card(7, 2), card(9, 3), card(3, 0)];
    assert_eq!(determine_winner(p1_hole, p2_hole, board), 2);
}

#[test]
fn kicker_decides_between_equal_pairs() {
    let p1_hole = [card(12, 0), card(11, 1)];
    let p2_hole = [card(12, 2), card(10, 3)];
    let board = [card(12, 1), card(5, 1), card(7, 2), card(2, 3), card(3, 0)];
    assert_eq!(determine_winner(p1_hole, p2_hole, board), 0);
    assert_eq!(determine_winner(p2_hole, p1_hole, board), 1);
}

#[test]
fn determine_winner_agrees_with_best_of_seven_on_sampled_deals() {
    let mut state: u64 = 0xdea1;
    for _ in 0..100 {
        let mut deck: Vec<u8> = (0..52).collect();
        let mut dealt = [0u8; 9];
        for slot in dealt.iter_mut() {
            state = state.wrapping_mul(6364136223846793005).wrapping_add(1442695040888963407);
            let pick = ((state >> 33) % deck.len() as u64) as usize;
            *slot = deck.swap_remove(pick);
        }
        let p1_hole = [dealt[0], dealt[1]];
        let p2_hole = [dealt[2], dealt[3]];
        let board = [dealt[4], dealt[5], dealt[6], dealt[7], dealt[8]];
        let first = best_of_seven([dealt[0], dealt[1], dealt[4], dealt[5], dealt[6], dealt[7], dealt[8]]);
        let second = best_of_seven([dealt[2], dealt[3], dealt[4], dealt[5], dealt[6], dealt[7], dealt[8]]);
        let expected = if first > second {
            0
        } else if second > first {
            1
        } else {
            2
        };
        assert_eq!(determine_winner(p1_hole, p2_hole, board), expected);
    }
}
