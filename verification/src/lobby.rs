//! Around the hands: setting the platform up, opening a table, sitting down
//! and leaving, and the checks made before a computation is asked for.

use vstd::prelude::*;
use crate::state::{
    empty_key, empty_seat, is_empty_seat, same_key, Config, ErrorCode, GamePhase, GameState, Key, TableConfig,
};

verus! {

/// The settings of the platform as its first administrator gives them.
pub fn initialize_config(admin: &Key, treasury_wallet: &Key, rake_percentage: u8, rake_cap: u64)
    -> (config: Config)
    ensures
        config == (Config {
            admin: *admin,
            treasury_wallet: *treasury_wallet,
            rake_percentage,
            rake_cap,
        }),
{
    Config { admin: *admin, treasury_wallet: *treasury_wallet, rake_percentage, rake_cap }
}

/// Changes the rake. Only the administrator may: anyone else is refused with
/// `Unauthorized`, and nothing changes.
pub fn set_rake_config(config: &mut Config, signer: &Key, rake_percentage: u8, rake_cap: u64) -> (
    outcome: Result<(), ErrorCode>)
    ensures
        match outcome {
            Ok(_) => old(config).admin@ == signer@ && *final(config) == (Config {
                rake_percentage,
                rake_cap,
                ..*old(config)
            }),
            Err(code) => old(config).admin@ != signer@ && code == ErrorCode::Unauthorized
                && *final(config) == *old(config),
        },
{
    if !same_key(&config.admin, signer) {
        return Err(ErrorCode::Unauthorized);
    }
    config.rake_percentage = rake_percentage;
    config.rake_cap = rake_cap;
    Ok(())
}

/// A table as it is when its creator has sat down with the buy-in and waits
/// for an opponent.
pub open spec fn new_table(creator: Key, table_config: Key, buy_in: u64) -> GameState {
    GameState {
        table_config,
        players: [creator, empty_key()],
        stacks: [buy_in, 0u64],
        game_phase: GamePhase::Idle,
        pot: 0,
        bets: [0u64, 0u64],
        community_cards: [255u8, 255u8, 255u8, 255u8, 255u8],
        is_all_in: [false, false],
        current_turn_index: 0,
        dealer_index: 0,
        last_action_timestamp: 0,
        is_active: false,
    }
}

/// Opens a table: its stakes, and its state with the creator at the first
/// seat and as the first dealer. The creator owes the buy-in to the escrow.
pub fn create_table(
    creator: &Key,
    table_config: &Key,
    token_mint: &Key,
    table_id: u64,
    small_blind: u64,
    big_blind: u64,
    buy_in: u64,
) -> (opened: (TableConfig, GameState))
    ensures
        opened.0 == (TableConfig {
            table_id,
            small_blind,
            big_blind,
            buy_in,
            token_mint: *token_mint,
        }),
        opened.1 == new_table(*creator, *table_config, buy_in),
        opened.1.well_formed(),
        opened.1.chips() == buy_in,
{
    let stakes = TableConfig { table_id, small_blind, big_blind, buy_in, token_mint: *token_mint };
    let state = GameState {
        table_config: *table_config,
        players: [*creator, [0u8; 32]],
        stacks: [buy_in, 0],
        game_phase: GamePhase::Idle,
        pot: 0,
        bets: [0; 2],
        community_cards: [255; 5],
        is_all_in: [false; 2],
        current_turn_index: 0,
        dealer_index: 0,
        last_action_timestamp: 0,
        is_active: false,
    };
    proof {
        let expected = new_table(*creator, *table_config, buy_in);
        assert(state.players[1] =~= expected.players[1]);
        assert(state.players =~= expected.players);
        assert(state.bets =~= expected.bets);
        assert(state.community_cards =~= expected.community_cards);
        assert(state.is_all_in =~= expected.is_all_in);
    }
    (stakes, state)
}

/// Why `joiner` cannot sit down, if they cannot: a game is in progress, the
/// second seat is taken, or they sit at the first seat already.
pub open spec fn join_refusal(s: GameState, joiner: Seq<u8>) -> Option<ErrorCode> {
    if s.is_active {
        Some(ErrorCode::GameAlreadyInProgress)
    } else if s.players[1]@ != empty_seat() {
        Some(ErrorCode::TableFull)
    } else if s.players[0]@ == joiner {
        Some(ErrorCode::InvalidAction)
    } else {
        None
    }
}

/// Seats `joiner` at the second seat with the buy-in; the table is then
/// active and ready for its first hand. Returns the buy-in, which the joiner
/// owes to the escrow.
pub fn join_table(state: &mut GameState, table: &TableConfig, joiner: &Key) -> (outcome: Result<
    u64,
    ErrorCode,
>)
    ensures
        match outcome {
            Ok(owed) => {
                &&& join_refusal(*old(state), joiner@) is None
                &&& owed == table.buy_in
                &&& *final(state) == (GameState {
                    players: [old(state).players[0], *joiner],
                    stacks: [old(state).stacks[0], table.buy_in],
                    is_active: true,
                    game_phase: GamePhase::HandOver,
                    ..*old(state)
                })
            },
            Err(code) => join_refusal(*old(state), joiner@) == Some(code) && *final(state) == *old(state),
        },
{
    if state.is_active {
        return Err(ErrorCode::GameAlreadyInProgress);
    }
    if !is_empty_seat(&state.players[1]) {
        return Err(ErrorCode::TableFull);
    }
    if same_key(&state.players[0], joiner) {
        return Err(ErrorCode::InvalidAction);
    }
    state.players[1] = *joiner;
    state.stacks[1] = table.buy_in;
    state.is_active = true;
    state.game_phase = GamePhase::HandOver;
    proof {
        assert(state.players =~= [old(state).players[0], *joiner]);
        assert(state.stacks =~= [old(state).stacks[0], table.buy_in]);
    }
    Ok(table.buy_in)
}

/// The seat at which `player` sits, if any; the first seat when both hold
/// the key.
pub open spec fn seat_of(s: GameState, player: Seq<u8>) -> Option<int> {
    if s.players[0]@ == player {
        Some(0int)
    } else if s.players[1]@ == player {
        Some(1int)
    } else {
        None
    }
}

/// Why `player` cannot leave, if they cannot: a hand is being played, or
/// they do not sit at the table.
pub open spec fn leave_refusal(s: GameState, player: Seq<u8>) -> Option<ErrorCode> {
    if s.game_phase != GamePhase::Idle && s.game_phase != GamePhase::HandOver {
        Some(ErrorCode::HandNotOver)
    } else if seat_of(s, player) is None {
        Some(ErrorCode::PlayerNotInGame)
    } else {
        None
    }
}

/// The table once the player at `seat` has left with their stack: the seat
/// is empty and the table idle.
pub open spec fn seat_left(s: GameState, seat: int) -> GameState {
    GameState {
        players: if seat == 0 {
            [empty_key(), s.players[1]]
        } else {
            [s.players[0], empty_key()]
        },
        stacks: if seat == 0 {
            [0u64, s.stacks[1]]
        } else {
            [s.stacks[0], 0u64]
        },
        is_active: false,
        game_phase: GamePhase::Idle,
        ..s
    }
}

/// Lets `player` leave between hands: their seat is emptied and the table
/// goes idle. Returns their stack, which the escrow owes them.
pub fn leave_table(state: &mut GameState, player: &Key) -> (outcome: Result<u64, ErrorCode>)
    ensures
        match outcome {
            Ok(owed) => {
                &&& leave_refusal(*old(state), player@) is None
                &&& owed == old(state).stacks[seat_of(*old(state), player@)->0]
                &&& *final(state) == seat_left(*old(state), seat_of(*old(state), player@)->0)
            },
            Err(code) => leave_refusal(*old(state), player@) == Some(code) && *final(state)
                == *old(state),
        },
{
    if !(state.game_phase == GamePhase::Idle || state.game_phase == GamePhase::HandOver) {
        return Err(ErrorCode::HandNotOver);
    }
    let seat: usize = if same_key(&state.players[0], player) {
        0
    } else if same_key(&state.players[1], player) {
        1
    } else {
        return Err(ErrorCode::PlayerNotInGame);
    };
    let owed: u64 = state.stacks[seat];
    state.players[seat] = [0u8; 32];
    state.stacks[seat] = 0;
    state.is_active = false;
    state.game_phase = GamePhase::Idle;
    proof {
        let expected = seat_left(*old(state), seat as int);
        assert(state.players[seat as int] =~= expected.players[seat as int]);
        assert(state.players =~= expected.players);
        assert(state.stacks =~= expected.stacks);
    }
    Ok(owed)
}

/// Why `payer` cannot start a new hand, if they cannot: a hand is being
/// played, they are not the dealer, or a seat is empty.
pub open spec fn deal_refusal(s: GameState, payer: Seq<u8>) -> Option<ErrorCode> {
    if s.game_phase != GamePhase::HandOver && s.game_phase != GamePhase::Idle {
        Some(ErrorCode::InvalidAction)
    } else if s.players[s.dealer_index as int]@ != payer {
        Some(ErrorCode::Unauthorized)
    } else if s.players[0]@ == empty_seat() || s.players[1]@ == empty_seat() {
        Some(ErrorCode::InvalidAction)
    } else {
        None
    }
}

/// The table while the cards of a new hand are being dealt: nothing is in
/// the pot or bet, no community card is shown and nobody is all-in.
pub open spec fn dealing(s: GameState, now: i64) -> GameState {
    GameState {
        pot: 0,
        bets: [0u64, 0u64],
        community_cards: [255u8, 255u8, 255u8, 255u8, 255u8],
        is_all_in: [false, false],
        game_phase: GamePhase::Dealing,
        last_action_timestamp: now,
        ..s
    }
}

/// Starts a new hand at time `now`, on the dealer's request: the table is
/// cleared and waits for the cards.
pub fn deal_new_hand_setup(state: &mut GameState, payer: &Key, now: i64) -> (outcome: Result<
    (),
    ErrorCode,
>)
    requires
        old(state).dealer_index < 2,
    ensures
        match outcome {
            Ok(_) => deal_refusal(*old(state), payer@) is None && *final(state) == dealing(
                *old(state),
                now,
            ),
            Err(code) => deal_refusal(*old(state), payer@) == Some(code) && *final(state) == *old(state),
        },
{
    if !(state.game_phase == GamePhase::HandOver || state.game_phase == GamePhase::Idle) {
        return Err(ErrorCode::InvalidAction);
    }
    if !same_key(&state.players[state.dealer_index as usize], payer) {
        return Err(ErrorCode::Unauthorized);
    }
    if is_empty_seat(&state.players[0]) || is_empty_seat(&state.players[1]) {
        return Err(ErrorCode::InvalidAction);
    }
    state.pot = 0;
    state.bets = [0, 0];
    state.community_cards = [255; 5];
    state.is_all_in = [false, false];
    state.game_phase = GamePhase::Dealing;
    state.last_action_timestamp = now;
    proof {
        let expected = dealing(*old(state), now);
        assert(state.bets =~= expected.bets);
        assert(state.community_cards =~= expected.community_cards);
        assert(state.is_all_in =~= expected.is_all_in);
    }
    Ok(())
}

/// The street whose community cards are to be revealed in `phase`: 0 on the
/// flop, 1 on the turn, 2 on the river.
pub open spec fn street_of(phase: GamePhase) -> Option<u8> {
    match phase {
        GamePhase::Flop => Some(0u8),
        GamePhase::Turn => Some(1u8),
        GamePhase::River => Some(2u8),
        _ => None,
    }
}

/// The street to ask the reveal of community cards for. Outside the flop,
/// the turn and the river nothing can be asked: `InvalidAction`.
pub fn request_community_cards(state: &GameState) -> (outcome: Result<u8, ErrorCode>)
    ensures
        match street_of(state.game_phase) {
            Some(street) => outcome == Ok::<u8, ErrorCode>(street),
            None => outcome == Err::<u8, ErrorCode>(ErrorCode::InvalidAction),
        },
{
    match state.game_phase {
        GamePhase::Flop => Ok(0),
        GamePhase::Turn => Ok(1),
        GamePhase::River => Ok(2),
        _ => Err(ErrorCode::InvalidAction),
    }
}

/// Checks that the showdown can be asked for: the hand has reached it
/// (`InvalidAction` otherwise) and `dealer_account` is the dealer, who is
/// refunded when the hand is closed (`Unauthorized` otherwise).
pub fn request_showdown(state: &GameState, dealer_account: &Key) -> (outcome: Result<
    (),
    ErrorCode,
>)
    requires
        state.dealer_index < 2,
    ensures
        outcome == if state.game_phase != GamePhase::Showdown {
            Err::<(), ErrorCode>(ErrorCode::InvalidAction)
        } else if state.players[state.dealer_index as int]@ != dealer_account@ {
            Err::<(), ErrorCode>(ErrorCode::Unauthorized)
        } else {
            Ok::<(), ErrorCode>(())
        },
{
    if state.game_phase != GamePhase::Showdown {
        return Err(ErrorCode::InvalidAction);
    }
    if !same_key(&state.players[state.dealer_index as usize], dealer_account) {
        return Err(ErrorCode::Unauthorized);
    }
    Ok(())
}

} // verus!
