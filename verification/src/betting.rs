//! The betting rounds: what a player may do when it is their turn, what it
//! does to the stacks, the bets and the pot, and when a round or a hand ends.

use vstd::prelude::*;
use crate::state::{betting_open, is_betting_phase, same_key, ErrorCode, GamePhase, GameState, Key};

verus! {

/// What a player can do on their turn.
#[derive(Clone, Copy, PartialEq, Eq, Debug)]
pub enum Action {
    /// Give the hand up.
    Fold,
    /// Pass, when nothing is to be called.
    Check,
    /// Match the opponent's bet.
    Call,
    /// Open the betting with this many chips.
    Bet(u64),
    /// Raise one's bet of this round to this many chips.
    Raise(u64),
}

/// `pair` with `value` at seat `seat`.
pub open spec fn with_chips(pair: [u64; 2], seat: int, value: u64) -> [u64; 2] {
    if seat == 0 {
        [value, pair[1]]
    } else {
        [pair[0], value]
    }
}

/// `pair` with `value` at seat `seat`.
pub open spec fn with_flag(pair: [bool; 2], seat: int, value: bool) -> [bool; 2] {
    if seat == 0 {
        [value, pair[1]]
    } else {
        [pair[0], value]
    }
}

/// The table made ready for the next hand: nothing in the pot or bet, no
/// community card, nobody all-in, and the button moved to the other seat,
/// whose player acts first.
pub open spec fn next_hand(s: GameState) -> GameState {
    GameState {
        game_phase: GamePhase::HandOver,
        pot: 0,
        bets: [0u64, 0u64],
        community_cards: [255u8, 255u8, 255u8, 255u8, 255u8],
        is_all_in: [false, false],
        dealer_index: (1 - s.dealer_index) as u8,
        current_turn_index: (1 - s.dealer_index) as u8,
        ..s
    }
}

/// The phase that follows a betting round.
pub open spec fn phase_after(phase: GamePhase) -> GamePhase {
    match phase {
        GamePhase::PreFlop => GamePhase::Flop,
        GamePhase::Flop => GamePhase::Turn,
        GamePhase::Turn => GamePhase::River,
        GamePhase::River => GamePhase::Showdown,
        _ => phase,
    }
}

/// The table once a betting round is closed: the bets are in the pot; with a
/// player all-in the hand goes to showdown, and otherwise to the next phase
/// with the player who is not the dealer to act.
pub open spec fn round_closed(s: GameState) -> GameState {
    let collected = GameState {
        pot: (s.pot + s.bets[0] + s.bets[1]) as u64,
        bets: [0u64, 0u64],
        ..s
    };
    if s.is_all_in[0] || s.is_all_in[1] {
        GameState { game_phase: GamePhase::Showdown, ..collected }
    } else {
        GameState {
            game_phase: phase_after(s.game_phase),
            current_turn_index: (1 - s.dealer_index) as u8,
            ..collected
        }
    }
}

/// The table once the player to act has given the hand up: the pot and both
/// bets go to the opponent, and the table is ready for the next hand.
pub open spec fn folded(s: GameState) -> GameState {
    let opponent = s.opponent();
    next_hand(
        GameState {
            stacks: with_chips(
                s.stacks,
                opponent,
                (s.stacks[opponent] + s.pot + s.bets[0] + s.bets[1]) as u64,
            ),
            ..s
        },
    )
}

/// Why `action` is refused when `player` asks for it, if it is.
pub open spec fn refusal(s: GameState, player: Seq<u8>, action: Action) -> Option<ErrorCode> {
    let seat = s.current_turn_index as int;
    let own_bet = s.bets[seat];
    let opponent_bet = s.bets[s.opponent()];
    if s.players[seat]@ != player {
        Some(ErrorCode::NotPlayerTurn)
    } else if !is_betting_phase(s.game_phase) {
        Some(ErrorCode::InvalidAction)
    } else {
        match action {
            Action::Fold => None,
            Action::Check => if own_bet == opponent_bet {
                None
            } else {
                Some(ErrorCode::InvalidAction)
            },
            Action::Call => if opponent_bet > own_bet {
                None
            } else {
                Some(ErrorCode::InvalidAction)
            },
            Action::Bet(amount) => if own_bet != opponent_bet {
                Some(ErrorCode::InvalidAction)
            } else if amount == 0 {
                Some(ErrorCode::InvalidBetAmount)
            } else if amount > s.stacks[seat] {
                Some(ErrorCode::InsufficientFunds)
            } else {
                None
            },
            Action::Raise(amount) => if amount <= opponent_bet {
                Some(ErrorCode::InvalidBetAmount)
            } else if amount > s.stacks[seat] + own_bet {
                Some(ErrorCode::InsufficientFunds)
            } else {
                None
            },
        }
    }
}

/// The table once the player to act has put `chips` more into their bet,
/// which makes them all-in when it empties their stack.
pub open spec fn chips_put_in(s: GameState, chips: int) -> GameState {
    let seat = s.current_turn_index as int;
    GameState {
        stacks: with_chips(s.stacks, seat, (s.stacks[seat] - chips) as u64),
        bets: with_chips(s.bets, seat, (s.bets[seat] + chips) as u64),
        is_all_in: with_flag(s.is_all_in, seat, s.is_all_in[seat] || s.stacks[seat] == chips),
        ..s
    }
}

/// The table once the player to act has called: the missing chips are put
/// in, or the whole stack when it does not cover them, and the round is
/// closed.
pub open spec fn called(s: GameState) -> GameState {
    let seat = s.current_turn_index as int;
    let to_call = s.bets[s.opponent()] - s.bets[seat];
    if to_call >= s.stacks[seat] {
        round_closed(chips_put_in(s, s.stacks[seat] as int))
    } else {
        round_closed(chips_put_in(s, to_call))
    }
}

/// The table once the turn has passed to the opponent.
pub open spec fn turn_passed(s: GameState) -> GameState {
    GameState { current_turn_index: s.opponent() as u8, ..s }
}

/// The table once `action`, which is not refused, is carried out; the time
/// of the action is left as it was.
pub open spec fn acted(s: GameState, action: Action) -> GameState {
    let seat = s.current_turn_index as int;
    match action {
        Action::Fold => folded(s),
        Action::Check => if s.current_turn_index != s.dealer_index {
            round_closed(s)
        } else {
            turn_passed(s)
        },
        Action::Call => called(s),
        Action::Bet(amount) => turn_passed(chips_put_in(s, amount as int)),
        Action::Raise(amount) => turn_passed(chips_put_in(s, amount - s.bets[seat])),
    }
}

/// Makes the table ready for the next hand.
pub fn transition_to_next_hand(state: &mut GameState)
    requires
        old(state).dealer_index < 2,
    ensures
        *final(state) == next_hand(*old(state)),
{
    state.game_phase = GamePhase::HandOver;
    state.pot = 0;
    state.bets = [0; 2];
    state.community_cards = [255; 5];
    state.is_all_in = [false; 2];
    state.dealer_index = 1 - state.dealer_index;
    state.current_turn_index = state.dealer_index;
    proof {
        let expected = next_hand(*old(state));
        assert(state.bets =~= expected.bets);
        assert(state.community_cards =~= expected.community_cards);
        assert(state.is_all_in =~= expected.is_all_in);
    }
}

/// Closes a betting round.
pub fn handle_round_transition(state: &mut GameState)
    requires
        old(state).dealer_index < 2,
        old(state).pot + old(state).bets[0] + old(state).bets[1] <= u64::MAX,
    ensures
        *final(state) == round_closed(*old(state)),
{
    state.pot = state.pot + state.bets[0] + state.bets[1];
    state.bets = [0; 2];
    proof {
        assert(state.bets =~= round_closed(*old(state)).bets);
    }
    if state.is_all_in[0] || state.is_all_in[1] {
        state.game_phase = GamePhase::Showdown;
        return ;
    }
    state.game_phase =
    match state.game_phase {
        GamePhase::PreFlop => GamePhase::Flop,
        GamePhase::Flop => GamePhase::Turn,
        GamePhase::Turn => GamePhase::River,
        GamePhase::River => GamePhase::Showdown,
        _ => state.game_phase,
    };
    state.current_turn_index = 1 - state.dealer_index;
}

/// Puts `chips` of the stack of the player to act into their bet.
fn put_chips_in(state: &mut GameState, chips: u64)
    requires
        old(state).well_formed(),
        chips <= old(state).stacks[old(state).current_turn_index as int],
    ensures
        *final(state) == chips_put_in(*old(state), chips as int),
{
    let seat: usize = state.current_turn_index as usize;
    state.stacks[seat] = state.stacks[seat] - chips;
    state.bets[seat] = state.bets[seat] + chips;
    if state.stacks[seat] == 0 {
        state.is_all_in[seat] = true;
    }
    proof {
        let expected = chips_put_in(*old(state), chips as int);
        assert(state.stacks =~= expected.stacks);
        assert(state.bets =~= expected.bets);
        assert(state.is_all_in =~= expected.is_all_in);
    }
}

/// Carries out what `player` asks for at time `now`, or refuses it and
/// leaves the table as it was.
///
/// Refused are, in this order: a player whose turn it is not
/// (`NotPlayerTurn`); any action while no betting round is open
/// (`InvalidAction`); a check or a bet while the bets differ, and a call
/// while nothing is to be called (`InvalidAction`); a bet of nothing, and a
/// raise to no more than the opponent's bet (`InvalidBetAmount`); a bet or a
/// raise that the stack does not cover (`InsufficientFunds`).
pub fn player_action(state: &mut GameState, player: &Key, action: Action, now: i64) -> (outcome:
    Result<(), ErrorCode>)
    requires
        old(state).well_formed(),
    ensures
        match outcome {
            Ok(_) => refusal(*old(state), player@, action) is None && *final(state) == (GameState {
                last_action_timestamp: now,
                ..acted(*old(state), action)
            }),
            Err(code) => refusal(*old(state), player@, action) == Some(code) && *final(state)
                == *old(state),
        },
{
    let seat: usize = state.current_turn_index as usize;
    let opponent: usize = (1 - state.current_turn_index) as usize;
    if !same_key(&state.players[seat], player) {
        return Err(ErrorCode::NotPlayerTurn);
    }
    if !betting_open(state.game_phase) {
        return Err(ErrorCode::InvalidAction);
    }
    let own_bet: u64 = state.bets[seat];
    let opponent_bet: u64 = state.bets[opponent];
    match action {
        Action::Fold => {
            state.stacks[opponent] = state.stacks[opponent] + state.pot + own_bet + opponent_bet;
            proof {
                assert(state.stacks =~= with_chips(
                    old(state).stacks,
                    opponent as int,
                    state.stacks[opponent as int],
                ));
            }
            transition_to_next_hand(state);
        },
        Action::Check => {
            if own_bet != opponent_bet {
                return Err(ErrorCode::InvalidAction);
            }
            if state.current_turn_index != state.dealer_index {
                handle_round_transition(state);
            } else {
                state.current_turn_index = opponent as u8;
            }
        },
        Action::Call => {
            if opponent_bet <= own_bet {
                return Err(ErrorCode::InvalidAction);
            }
            let to_call: u64 = opponent_bet - own_bet;
            if to_call >= state.stacks[seat] {
                let stack: u64 = state.stacks[seat];
                put_chips_in(state, stack);
            } else {
                put_chips_in(state, to_call);
            }
            handle_round_transition(state);
        },
        Action::Bet(amount) => {
            if own_bet != opponent_bet {
                return Err(ErrorCode::InvalidAction);
            }
            if amount == 0 {
                return Err(ErrorCode::InvalidBetAmount);
            }
            if amount > state.stacks[seat] {
                return Err(ErrorCode::InsufficientFunds);
            }
            put_chips_in(state, amount);
            state.current_turn_index = opponent as u8;
        },
        Action::Raise(amount) => {
            if amount <= opponent_bet {
                return Err(ErrorCode::InvalidBetAmount);
            }
            if amount > state.stacks[seat] + own_bet {
                return Err(ErrorCode::InsufficientFunds);
            }
            put_chips_in(state, amount - own_bet);
            state.current_turn_index = opponent as u8;
        },
    }
    state.last_action_timestamp = now;
    Ok(())
}

/// An action that is carried out neither makes nor loses a chip, and leaves
/// the table in a state that play can go on from.
pub proof fn lemma_action_keeps_chips(s: GameState, player: Seq<u8>, action: Action)
    requires
        s.well_formed(),
        refusal(s, player, action) is None,
    ensures
        acted(s, action).chips() == s.chips(),
        acted(s, action).well_formed(),
{
}

/// Why a fold cannot be forced at time `now`, if it cannot: no betting round
/// is open, or the player to act still has time.
pub open spec fn crank_refusal(s: GameState, now: i64, turn_seconds: i64) -> Option<ErrorCode> {
    if !is_betting_phase(s.game_phase) {
        Some(ErrorCode::InvalidAction)
    } else if now <= s.last_action_timestamp + turn_seconds {
        Some(ErrorCode::TimerNotExpired)
    } else {
        None
    }
}

/// Folds for the player to act once their time is up: anyone may ask for it
/// when more than `turn_seconds` have passed since the last action. The pot
/// and the bets go to the opponent and the table is made ready for the next
/// hand.
pub fn crank_fold(state: &mut GameState, now: i64, turn_seconds: i64) -> (outcome: Result<
    (),
    ErrorCode,
>)
    requires
        old(state).well_formed(),
    ensures
        match outcome {
            Ok(_) => crank_refusal(*old(state), now, turn_seconds) is None && *final(state) == (
            GameState { last_action_timestamp: now, ..folded(*old(state)) }),
            Err(code) => *final(state) == *old(state) && crank_refusal(
                *old(state),
                now,
                turn_seconds,
            ) == Some(code),
        },
{
    if !betting_open(state.game_phase) {
        return Err(ErrorCode::InvalidAction);
    }
    if now as i128 <= state.last_action_timestamp as i128 + turn_seconds as i128 {
        return Err(ErrorCode::TimerNotExpired);
    }
    let opponent: usize = (1 - state.current_turn_index) as usize;
    let total_pot: u64 = state.pot + state.bets[0] + state.bets[1];
    state.stacks[opponent] = state.stacks[opponent] + total_pot;
    proof {
        assert(state.stacks =~= with_chips(
            old(state).stacks,
            opponent as int,
            state.stacks[opponent as int],
        ));
    }
    transition_to_next_hand(state);
    state.last_action_timestamp = now;
    Ok(())
}

} // verus!
