//! What the table does with the results of the confidential computations:
//! it starts the betting once the cards are dealt, shows the community cards
//! of a street, and pays the pot out once the winner is known.

use vstd::prelude::*;
use crate::betting::{next_hand, transition_to_next_hand, with_chips};
use crate::state::{Config, ErrorCode, GamePhase, GameState, HandState, TableConfig};

verus! {

/// A length in four bytes, least significant first.
pub open spec fn length_prefix(length: nat) -> Seq<u8> {
    seq![
        (length % 256) as u8,
        (length / 0x100 % 256) as u8,
        (length / 0x10000 % 256) as u8,
        (length / 0x1000000 % 256) as u8,
    ]
}

/// A byte vector as it is written into an account: its length in four
/// bytes, then its bytes.
pub open spec fn serialized(data: Seq<u8>) -> Seq<u8> {
    length_prefix(data.len()) + data
}

/// Serialises a byte vector with `anchor_lang::AnchorSerialize::try_to_vec`.
///
/// Not proved: that the serialiser writes the length of the vector as four
/// bytes, least significant first, followed by the bytes themselves, and
/// that it fails only on a vector whose length does not fit in 32 bits.
#[verifier::external_body]
fn serialize_bytes(data: &Vec<u8>) -> (bytes: Option<Vec<u8>>)
    ensures
        data@.len() <= u32::MAX ==> bytes is Some,
        bytes matches Some(written) ==> written@ == serialized(data@),
{
    anchor_lang::AnchorSerialize::try_to_vec(data).ok()
}

/// `slot` with `blob` written over its first bytes.
pub open spec fn stored(slot: Seq<u8>, blob: Seq<u8>) -> Seq<u8> {
    blob + slot.subrange(blob.len() as int, slot.len() as int)
}

/// Writes `blob` over the first bytes of `slot`.
pub fn store_blob<const N: usize>(slot: &mut [u8; N], blob: &Vec<u8>)
    requires
        blob.len() <= N,
    ensures
        final(slot)@ == stored(old(slot)@, blob@),
{
    let mut i: usize = 0;
    while i < blob.len()
        invariant
            i <= blob.len() <= N,
            forall|j: int| 0 <= j < i ==> slot@[j] == blob@[j],
            forall|j: int| i <= j < N ==> slot@[j] == old(slot)@[j],
        decreases blob.len() - i,
    {
        slot[i] = blob[i];
        i += 1;
    }
    assert(slot@ =~= stored(old(slot)@, blob@));
}

/// The table once the blinds are posted: the dealer has put in the small
/// blind and the other player the big blind, the first betting round is
/// open, and the dealer is to act.
pub open spec fn blinds_posted(s: GameState, table: TableConfig) -> GameState {
    let dealer = s.dealer_index as int;
    let other = 1 - s.dealer_index;
    let small_paid = with_chips(s.stacks, dealer, (s.stacks[dealer] - table.small_blind) as u64);
    GameState {
        stacks: with_chips(small_paid, other, (small_paid[other] - table.big_blind) as u64),
        bets: with_chips(with_chips(s.bets, dealer, table.small_blind), other, table.big_blind),
        game_phase: GamePhase::PreFlop,
        current_turn_index: s.dealer_index,
        ..s
    }
}

/// The confidential data of a hand once the three blobs of a deal are
/// stored: the hole cards of each player and the board deck.
pub open spec fn deal_stored(hand: HandState, p1: Seq<u8>, p2: Seq<u8>, deck: Seq<u8>) -> bool {
    &&& hand.encrypted_hole_cards[0]@ == p1
    &&& hand.encrypted_hole_cards[1]@ == p2
    &&& hand.encrypted_deck@ == deck
}

/// Serialises `data` and writes it over the first bytes of `slot`.
fn store_serialized<const N: usize>(slot: &mut [u8; N], data: &Vec<u8>)
    requires
        data.len() + 4 <= N <= u32::MAX,
    ensures
        final(slot)@ == stored(old(slot)@, serialized(data@)),
{
    match serialize_bytes(data) {
        Some(written) => {
            store_blob(slot, &written);
        },
        None => {
            // a vector that fits in the slot is always serialised
            assert(false);
        },
    }
}

/// Takes in the result of the shuffle: stores the encrypted hole cards and
/// the encrypted board deck, each serialised, posts the blinds and opens the
/// first betting round. A computation that gave no result is refused with
/// `InvalidAction` and changes nothing.
pub fn shuffle_and_deal_callback(
    state: &mut GameState,
    hand: &mut HandState,
    table: &TableConfig,
    output: Option<(Vec<u8>, Vec<u8>, Vec<u8>)>,
) -> (outcome: Result<(), ErrorCode>)
    requires
        old(state).dealer_index < 2,
        output matches Some(blobs) ==> {
            &&& blobs.0.len() + 4 <= 128
            &&& blobs.1.len() + 4 <= 128
            &&& blobs.2.len() + 4 <= 1568
            &&& old(state).stacks[old(state).dealer_index as int] >= table.small_blind
            &&& old(state).stacks[1 - old(state).dealer_index] >= table.big_blind
        },
    ensures
        match output {
            Some(blobs) => {
                &&& outcome is Ok
                &&& *final(state) == blinds_posted(*old(state), *table)
                &&& deal_stored(
                    *final(hand),
                    stored(old(hand).encrypted_hole_cards[0]@, serialized(blobs.0@)),
                    stored(old(hand).encrypted_hole_cards[1]@, serialized(blobs.1@)),
                    stored(old(hand).encrypted_deck@, serialized(blobs.2@)),
                )
                &&& final(hand).shuffle_tx_sig == old(hand).shuffle_tx_sig
            },
            None => {
                &&& outcome == Err::<(), ErrorCode>(ErrorCode::InvalidAction)
                &&& *final(state) == *old(state)
                &&& *final(hand) == *old(hand)
            },
        },
{
    let (p1_data, p2_data, deck_data) = match output {
        Some(blobs) => blobs,
        None => {
            return Err(ErrorCode::InvalidAction);
        },
    };
    let mut first: [u8; 128] = hand.encrypted_hole_cards[0];
    store_serialized(&mut first, &p1_data);
    hand.encrypted_hole_cards[0] = first;
    let mut second: [u8; 128] = hand.encrypted_hole_cards[1];
    store_serialized(&mut second, &p2_data);
    hand.encrypted_hole_cards[1] = second;
    let mut deck: [u8; 1568] = hand.encrypted_deck;
    store_serialized(&mut deck, &deck_data);
    hand.encrypted_deck = deck;

    let small_blind_seat: usize = state.dealer_index as usize;
    let big_blind_seat: usize = (1 - state.dealer_index) as usize;
    state.stacks[small_blind_seat] = state.stacks[small_blind_seat] - table.small_blind;
    state.bets[small_blind_seat] = table.small_blind;
    state.stacks[big_blind_seat] = state.stacks[big_blind_seat] - table.big_blind;
    state.bets[big_blind_seat] = table.big_blind;
    state.game_phase = GamePhase::PreFlop;
    state.current_turn_index = state.dealer_index;
    proof {
        let expected = blinds_posted(*old(state), *table);
        assert(state.stacks =~= expected.stacks);
        assert(state.bets =~= expected.bets);
    }
    Ok(())
}

/// Posting the blinds on a table where nothing is bet neither makes nor
/// loses a chip, and where the small blind is no more than the big blind it
/// leaves the table in a state that play can go on from.
pub proof fn lemma_blinds_keep_chips(s: GameState, table: TableConfig)
    requires
        s.dealer_index < 2,
        s.chips() <= u64::MAX,
        s.bets[0] == 0,
        s.bets[1] == 0,
        s.stacks[s.dealer_index as int] >= table.small_blind,
        s.stacks[1 - s.dealer_index] >= table.big_blind,
    ensures
        blinds_posted(s, table).chips() == s.chips(),
        table.small_blind <= table.big_blind ==> blinds_posted(s, table).well_formed(),
{
}

/// Enough cards were revealed for the street that the table is in, and each
/// of them has its first byte; nothing is asked outside the three streets.
pub open spec fn reveal_is_readable(phase: GamePhase, revealed: Seq<Vec<u8>>) -> bool {
    match phase {
        GamePhase::Flop => revealed.len() >= 3 ==> revealed[0]@.len() >= 1 && revealed[1]@.len()
            >= 1 && revealed[2]@.len() >= 1,
        GamePhase::Turn => revealed.len() >= 1 ==> revealed[0]@.len() >= 1,
        GamePhase::River => revealed.len() >= 1 ==> revealed[0]@.len() >= 1,
        _ => true,
    }
}

/// The community cards once a street is shown: on the flop the first three
/// take the first bytes of the first three revealed cards, on the turn the
/// fourth and on the river the fifth takes the first byte of the first
/// revealed card; too few revealed cards change nothing.
pub open spec fn board_shown(s: GameState, revealed: Seq<Vec<u8>>) -> [u8; 5] {
    let board = s.community_cards;
    match s.game_phase {
        GamePhase::Flop => if revealed.len() >= 3 {
            [revealed[0]@[0], revealed[1]@[0], revealed[2]@[0], board[3], board[4]]
        } else {
            board
        },
        GamePhase::Turn => if revealed.len() >= 1 {
            [board[0], board[1], board[2], revealed[0]@[0], board[4]]
        } else {
            board
        },
        GamePhase::River => if revealed.len() >= 1 {
            [board[0], board[1], board[2], board[3], revealed[0]@[0]]
        } else {
            board
        },
        _ => board,
    }
}

/// Takes in the result of a reveal: stores the encrypted board deck,
/// serialised, shows
/// the community cards of the street and gives the turn to the player who is
/// not the dealer. A computation that gave no result is refused with
/// `InvalidAction` and changes nothing.
pub fn reveal_community_cards_callback(
    state: &mut GameState,
    hand: &mut HandState,
    output: Option<(Vec<u8>, Vec<Vec<u8>>)>,
) -> (outcome: Result<(), ErrorCode>)
    requires
        old(state).dealer_index < 2,
        output matches Some(data) ==> data.0.len() + 4 <= 1568 && reveal_is_readable(
            old(state).game_phase,
            data.1@,
        ),
    ensures
        match output {
            Some(data) => {
                &&& outcome is Ok
                &&& *final(state) == (GameState {
                    community_cards: board_shown(*old(state), data.1@),
                    current_turn_index: (1 - old(state).dealer_index) as u8,
                    ..*old(state)
                })
                &&& *final(hand) == (HandState {
                    encrypted_deck: final(hand).encrypted_deck,
                    ..*old(hand)
                })
                &&& final(hand).encrypted_deck@ == stored(
                    old(hand).encrypted_deck@,
                    serialized(data.0@),
                )
            },
            None => {
                &&& outcome == Err::<(), ErrorCode>(ErrorCode::InvalidAction)
                &&& *final(state) == *old(state)
                &&& *final(hand) == *old(hand)
            },
        },
{
    let (deck_data, revealed) = match output {
        Some(data) => data,
        None => {
            return Err(ErrorCode::InvalidAction);
        },
    };
    let mut deck: [u8; 1568] = hand.encrypted_deck;
    store_serialized(&mut deck, &deck_data);
    hand.encrypted_deck = deck;

    if state.game_phase == GamePhase::Flop {
        if revealed.len() >= 3 {
            state.community_cards[0] = revealed[0][0];
            state.community_cards[1] = revealed[1][0];
            state.community_cards[2] = revealed[2][0];
        }
    } else if state.game_phase == GamePhase::Turn {
        if revealed.len() >= 1 {
            state.community_cards[3] = revealed[0][0];
        }
    } else if state.game_phase == GamePhase::River {
        if revealed.len() >= 1 {
            state.community_cards[4] = revealed[0][0];
        }
    }
    state.current_turn_index = 1 - state.dealer_index;
    proof {
        assert(state.community_cards =~= board_shown(*old(state), revealed@));
    }
    Ok(())
}

/// The rake on a pot: nothing when no flop was shown; otherwise the
/// configured hundredths of the pot, rounded down, and no more than the cap.
pub open spec fn rake_on(total_pot: int, flop_shown: bool, config: Config) -> int {
    if !flop_shown {
        0
    } else if total_pot * config.rake_percentage / 100 > config.rake_cap {
        config.rake_cap as int
    } else {
        total_pot * config.rake_percentage / 100
    }
}

/// All that is in play: the pot and both bets.
pub open spec fn total_pot(s: GameState) -> int {
    s.pot + s.bets[0] + s.bets[1]
}

/// The rake on the hand that `s` is in.
pub open spec fn hand_rake(s: GameState, config: Config) -> int {
    rake_on(total_pot(s), s.community_cards[0] != 255, config)
}

/// The stacks once `payout` chips are paid to the winner: all to the seat
/// that won, or half to each on a tie, the odd chip going to the player who
/// is not the dealer.
pub open spec fn stacks_paid(s: GameState, winner: u8, payout: int) -> [u64; 2] {
    if winner == 2 {
        let half = payout / 2;
        let odd = payout % 2;
        if s.dealer_index == 1 {
            [(s.stacks[0] + half + odd) as u64, (s.stacks[1] + half) as u64]
        } else {
            [(s.stacks[0] + half) as u64, (s.stacks[1] + half + odd) as u64]
        }
    } else {
        with_chips(s.stacks, winner as int, (s.stacks[winner as int] + payout) as u64)
    }
}

/// The table once the hand is settled: the pot less the rake is paid out and
/// the table is ready for the next hand.
pub open spec fn settled(s: GameState, config: Config, winner: u8) -> GameState {
    next_hand(
        GameState {
            stacks: stacks_paid(s, winner, total_pot(s) - hand_rake(s, config)),
            ..s
        },
    )
}

/// The hundredths of a pot, rounded down, are no more than the pot when they
/// are no more than a hundred.
pub proof fn lemma_share_within_pot(pot: int, hundredths: int)
    requires
        0 <= pot,
        0 <= hundredths <= 100,
    ensures
        0 <= pot * hundredths / 100 <= pot,
{
    assert(0 <= pot * hundredths <= pot * 100) by (nonlinear_arith)
        requires
            0 <= pot,
            0 <= hundredths <= 100,
    ;
}

/// Takes in the result of the showdown: `winner` is the seat that won, or 2
/// for a tie. The rake is taken off the pot, the rest is paid out, and the
/// table is made ready for the next hand. Returns the rake, which is owed to
/// the treasury. A computation that gave no result is refused with
/// `InvalidAction` and changes nothing.
pub fn determine_winner_callback(state: &mut GameState, config: &Config, output: Option<u8>) -> (
    outcome: Result<u64, ErrorCode>)
    requires
        old(state).dealer_index < 2,
        old(state).chips() <= u64::MAX,
        output matches Some(winner) ==> winner <= 2 && hand_rake(*old(state), *config)
            <= total_pot(*old(state)),
    ensures
        match output {
            Some(winner) => {
                &&& outcome == Ok::<u64, ErrorCode>(hand_rake(*old(state), *config) as u64)
                &&& *final(state) == settled(*old(state), *config, winner)
            },
            None => {
                &&& outcome == Err::<u64, ErrorCode>(ErrorCode::InvalidAction)
                &&& *final(state) == *old(state)
            },
        },
{
    let winner: u8 = match output {
        Some(winner) => winner,
        None => {
            return Err(ErrorCode::InvalidAction);
        },
    };
    let total: u64 = state.pot + state.bets[0] + state.bets[1];
    let mut rake: u64 = 0;
    if state.community_cards[0] != 255 {
        assert(total * config.rake_percentage <= u64::MAX * 255) by (nonlinear_arith)
            requires
                0 <= total <= u64::MAX,
                0 <= config.rake_percentage <= 255,
        ;
        let share: u128 = (total as u128 * config.rake_percentage as u128) / 100;
        if share > config.rake_cap as u128 {
            rake = config.rake_cap;
        } else {
            rake = share as u64;
        }
    }
    let payout: u64 = total - rake;
    if winner == 2 {
        let half: u64 = payout / 2;
        state.stacks[0] = state.stacks[0] + half;
        state.stacks[1] = state.stacks[1] + half;
        if payout % 2 == 1 {
            let odd_chip_seat: usize = (1 - state.dealer_index) as usize;
            state.stacks[odd_chip_seat] = state.stacks[odd_chip_seat] + 1;
        }
    } else {
        state.stacks[winner as usize] = state.stacks[winner as usize] + payout;
    }
    proof {
        assert(state.stacks =~= stacks_paid(*old(state), winner, payout as int));
    }
    transition_to_next_hand(state);
    Ok(rake)
}

/// A rake of no more than a hundred hundredths is no more than the pot, and
/// no rake is more than the cap.
pub proof fn lemma_rake_within_pot(s: GameState, config: Config)
    requires
        config.rake_percentage <= 100,
    ensures
        0 <= hand_rake(s, config) <= total_pot(s),
        hand_rake(s, config) <= config.rake_cap,
{
    lemma_share_within_pot(total_pot(s), config.rake_percentage as int);
}

/// Settling a hand neither makes nor loses a chip: what leaves the table is
/// the rake. The table that is left is one that play can go on from.
pub proof fn lemma_settlement_keeps_chips(s: GameState, config: Config, winner: u8)
    requires
        s.dealer_index < 2,
        s.chips() <= u64::MAX,
        hand_rake(s, config) <= total_pot(s),
        winner <= 2,
    ensures
        settled(s, config, winner).chips() + hand_rake(s, config) == s.chips(),
        settled(s, config, winner).well_formed(),
{
    assert(0 <= total_pot(s) * config.rake_percentage) by (nonlinear_arith)
        requires
            0 <= total_pot(s),
            0 <= config.rake_percentage,
    ;
}

} // verus!
