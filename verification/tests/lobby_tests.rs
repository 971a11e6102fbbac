use veridian_holdem::lobby::{
    create_table, deal_new_hand_setup, initialize_config, join_table, leave_table,
    request_community_cards, request_showdown, set_rake_config,
};
use veridian_holdem::state::{
    betting_open, is_empty_seat, is_well_formed, same_key, Config, ErrorCode, GamePhase, GameState, TableConfig,
};

const ALICE: [u8; 32] = [1; 32];
const BOB: [u8; 32] = [2; 32];
const CAROL: [u8; 32] = [3; 32];
const NOBODY: [u8; 32] = [0; 32];

fn open_table() -> (TableConfig, GameState) {
    create_table(&ALICE, &[9; 32], &[8; 32], 7, 5, 10, 1000)
}

fn seated() -> GameState {
    let (stakes, mut state) = open_table();
    assert_eq!(join_table(&mut state, &stakes, &BOB), Ok(1000));
    state
}

#[test]
fn keys_are_compared_byte_by_byte() {
    let mut other = ALICE;
    assert!(same_key(&ALICE, &other));
    other[31] = 0;
    assert!(!same_key(&ALICE, &other));
    assert!(is_empty_seat(&NOBODY));
    let mut almost = NOBODY;
    almost[17] = 1;
    assert!(!is_empty_seat(&almost));
}

#[test]
fn betting_is_open_on_the_four_streets() {
    assert!(betting_open(GamePhase::PreFlop));
    assert!(betting_open(GamePhase::Flop));
    assert!(betting_open(GamePhase::Turn));
    assert!(betting_open(GamePhase::River));
    assert!(!betting_open(GamePhase::Idle));
    assert!(!betting_open(GamePhase::Dealing));
    assert!(!betting_open(GamePhase::Showdown));
    assert!(!betting_open(GamePhase::HandOver));
}

#[test]
fn config_is_initialized_as_given() {
    let config = initialize_config(&ALICE, &BOB, 5, 1000);
    assert_eq!(config, Config { admin: ALICE, treasury_wallet: BOB, rake_percentage: 5, rake_cap: 1000 });
}

#[test]
fn only_the_admin_sets_the_rake() {
    let mut config = initialize_config(&ALICE, &BOB, 5, 1000);
    assert_eq!(set_rake_config(&mut config, &BOB, 50, 1), Err(ErrorCode::Unauthorized));
    assert_eq!(config.rake_percentage, 5);
    assert_eq!(config.rake_cap, 1000);
    assert_eq!(set_rake_config(&mut config, &ALICE, 3, 500), Ok(()));
    assert_eq!(config, Config { admin: ALICE, treasury_wallet: BOB, rake_percentage: 3, rake_cap: 500 });
}

#[test]
fn new_table_waits_for_an_opponent() {
    let (stakes, state) = open_table();
    assert_eq!(
        stakes,
        TableConfig { table_id: 7, small_blind: 5, big_blind: 10, buy_in: 1000, token_mint: [8; 32] }
    );
    assert_eq!(
        state,
        GameState {
            table_config: [9; 32],
            players: [ALICE, NOBODY],
            stacks: [1000, 0],
            game_phase: GamePhase::Idle,
            pot: 0,
            bets: [0, 0],
            community_cards: [255; 5],
            is_all_in: [false, false],
            current_turn_index: 0,
            dealer_index: 0,
            last_action_timestamp: 0,
            is_active: false,
        }
    );
}

#[test]
fn joining_seats_the_second_player() {
    let state = seated();
    assert_eq!(state.players, [ALICE, BOB]);
    assert_eq!(state.stacks, [1000, 1000]);
    assert!(state.is_active);
    assert_eq!(state.game_phase, GamePhase::HandOver);
}

#[test]
fn joining_an_active_table_is_refused() {
    let (stakes, _) = open_table();
    let mut state = seated();
    let before = state;
    assert_eq!(join_table(&mut state, &stakes, &CAROL), Err(ErrorCode::GameAlreadyInProgress));
    assert_eq!(state, before);
}

#[test]
fn joining_a_full_table_is_refused() {
    let (stakes, _) = open_table();
    let mut state = seated();
    state.is_active = false;
    let before = state;
    assert_eq!(join_table(&mut state, &stakes, &CAROL), Err(ErrorCode::TableFull));
    assert_eq!(state, before);
}

#[test]
fn joining_one_s_own_table_is_refused() {
    let (stakes, mut state) = open_table();
    assert_eq!(join_table(&mut state, &stakes, &ALICE), Err(ErrorCode::InvalidAction));
    assert_eq!(state, open_table().1);
}

#[test]
fn leaving_during_a_hand_is_refused() {
    for phase in [
        GamePhase::Dealing,
        GamePhase::PreFlop,
        GamePhase::Flop,
        GamePhase::Turn,
        GamePhase::River,
        GamePhase::Showdown,
    ] {
        let mut state = seated();
        state.game_phase = phase;
        let before = state;
        assert_eq!(leave_table(&mut state, &ALICE), Err(ErrorCode::HandNotOver));
        assert_eq!(state, before);
    }
}

#[test]
fn leaving_a_table_one_does_not_sit_at_is_refused() {
    let mut state = seated();
    assert_eq!(leave_table(&mut state, &CAROL), Err(ErrorCode::PlayerNotInGame));
    assert_eq!(state, seated());
}

#[test]
fn leaving_takes_the_stack_and_empties_the_seat() {
    let mut state = seated();
    state.stacks = [700, 1300];
    assert_eq!(leave_table(&mut state, &BOB), Ok(1300));
    assert_eq!(state.players, [ALICE, NOBODY]);
    assert_eq!(state.stacks, [700, 0]);
    assert!(!state.is_active);
    assert_eq!(state.game_phase, GamePhase::Idle);
    assert_eq!(leave_table(&mut state, &ALICE), Ok(700));
    assert_eq!(state.players, [NOBODY, NOBODY]);
    assert_eq!(state.stacks, [0, 0]);
}

#[test]
fn new_hand_is_refused_during_a_hand() {
    let mut state = seated();
    state.game_phase = GamePhase::Flop;
    let before = state;
    assert_eq!(deal_new_hand_setup(&mut state, &ALICE, 5), Err(ErrorCode::InvalidAction));
    assert_eq!(state, before);
}

#[test]
fn new_hand_is_refused_to_the_player_off_the_button() {
    let mut state = seated();
    assert_eq!(deal_new_hand_setup(&mut state, &BOB, 5), Err(ErrorCode::Unauthorized));
    assert_eq!(state, seated());
}

#[test]
fn new_hand_is_refused_with_an_empty_seat() {
    let (_, mut state) = open_table();
    assert_eq!(deal_new_hand_setup(&mut state, &ALICE, 5), Err(ErrorCode::InvalidAction));
    assert_eq!(state, open_table().1);
}

#[test]
fn new_hand_clears_the_table() {
    let mut state = seated();
    state.community_cards = [1, 2, 3, 4, 5];
    state.is_all_in = [true, false];
    assert_eq!(deal_new_hand_setup(&mut state, &ALICE, 5), Ok(()));
    assert_eq!(state.game_phase, GamePhase::Dealing);
    assert_eq!(state.pot, 0);
    assert_eq!(state.bets, [0, 0]);
    assert_eq!(state.community_cards, [255; 5]);
    assert_eq!(state.is_all_in, [false, false]);
    assert_eq!(state.last_action_timestamp, 5);
    assert_eq!(state.stacks, [1000, 1000]);
    assert_eq!(state.dealer_index, 0);
}

#[test]
fn streets_are_numbered_for_the_reveal() {
    let mut state = seated();
    state.game_phase = GamePhase::Flop;
    assert_eq!(request_community_cards(&state), Ok(0));
    state.game_phase = GamePhase::Turn;
    assert_eq!(request_community_cards(&state), Ok(1));
    state.game_phase = GamePhase::River;
    assert_eq!(request_community_cards(&state), Ok(2));
    for phase in [
        GamePhase::Idle,
        GamePhase::Dealing,
        GamePhase::PreFlop,
        GamePhase::Showdown,
        GamePhase::HandOver,
    ] {
        state.game_phase = phase;
        assert_eq!(request_community_cards(&state), Err(ErrorCode::InvalidAction));
    }
}

#[test]
fn showdown_is_asked_for_by_the_dealer_at_showdown() {
    let mut state = seated();
    assert_eq!(request_showdown(&state, &ALICE), Err(ErrorCode::InvalidAction));
    state.game_phase = GamePhase::Showdown;
    assert_eq!(request_showdown(&state, &BOB), Err(ErrorCode::Unauthorized));
    assert_eq!(request_showdown(&state, &ALICE), Ok(()));
    state.dealer_index = 1;
    assert_eq!(request_showdown(&state, &BOB), Ok(()));
}

#[test]
fn well_formed_tables_are_told_apart() {
    let state = seated();
    assert!(is_well_formed(&state));
    let mut bad = state;
    bad.current_turn_index = 2;
    assert!(!is_well_formed(&bad));
    let mut bad = state;
    bad.dealer_index = 2;
    assert!(!is_well_formed(&bad));
    let mut bad = state;
    bad.stacks = [u64::MAX, 1];
    assert!(!is_well_formed(&bad));
    let mut full = state;
    full.stacks = [u64::MAX - 5, 0];
    full.pot = 5;
    assert!(is_well_formed(&full));
    // the player to act may not be ahead of the opponent while betting is open
    let mut betting = state;
    betting.game_phase = GamePhase::Flop;
    betting.bets = [10, 5];
    assert!(!is_well_formed(&betting));
    betting.current_turn_index = 1;
    assert!(is_well_formed(&betting));
    betting.current_turn_index = 0;
    betting.game_phase = GamePhase::Showdown;
    assert!(is_well_formed(&betting));
}
