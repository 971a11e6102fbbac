//! The public state of a heads-up table: who sits where, what each player
//! holds and has bet, and where the hand stands.

use vstd::prelude::*;

verus! {

/// Seats at a table.
pub const MAX_PLAYERS: usize = 2;

/// The 32 bytes that name a player, a wallet or an account.
pub type Key = [u8; 32];

/// Where a hand stands.
#[derive(Clone, Copy, PartialEq, Eq, Structural, Debug)]
pub enum GamePhase {
    /// No hand is being played; the table waits for players.
    Idle,
    /// The cards are being shuffled and dealt.
    Dealing,
    /// The betting round before any community card.
    PreFlop,
    /// The betting round after the first three community cards.
    Flop,
    /// The betting round after the fourth community card.
    Turn,
    /// The betting round after the fifth community card.
    River,
    /// The hands are being compared.
    Showdown,
    /// The hand is over and the pot is paid out.
    HandOver,
}

/// Why an instruction was refused.
#[derive(Clone, Copy, PartialEq, Eq, Structural, Debug)]
pub enum ErrorCode {
    NotPlayerTurn,
    InvalidBetAmount,
    Unauthorized,
    TableFull,
    HandNotOver,
    GameAlreadyInProgress,
    PlayerNotInGame,
    InvalidAction,
    InsufficientFunds,
    ClusterNotSet,
    TimerNotExpired,
}

/// The settings of the platform.
#[derive(Clone, Copy, PartialEq, Eq, Debug)]
pub struct Config {
    /// Who may change the settings.
    pub admin: Key,
    /// The wallet that receives the rake.
    pub treasury_wallet: Key,
    /// The share of a pot taken as rake, in hundredths.
    pub rake_percentage: u8,
    /// The most that is taken from one pot.
    pub rake_cap: u64,
}

/// The stakes of one table, fixed when it is created.
#[derive(Clone, Copy, PartialEq, Eq, Debug)]
pub struct TableConfig {
    pub table_id: u64,
    pub small_blind: u64,
    pub big_blind: u64,
    pub buy_in: u64,
    /// The mint of the token that the table plays for.
    pub token_mint: Key,
}

/// The public state of a table.
#[derive(Clone, Copy, PartialEq, Eq, Debug)]
pub struct GameState {
    /// The account that holds the table's stakes.
    pub table_config: Key,
    /// The two players; a key of zeros is an empty seat.
    pub players: [Key; MAX_PLAYERS],
    /// The chips of each player that are not in play.
    pub stacks: [u64; MAX_PLAYERS],
    pub game_phase: GamePhase,
    /// The chips collected from the betting rounds that are over.
    pub pot: u64,
    /// What each player has put in during the current betting round.
    pub bets: [u64; MAX_PLAYERS],
    /// The five community cards; 255 for one that is not dealt.
    pub community_cards: [u8; 5],
    pub is_all_in: [bool; MAX_PLAYERS],
    /// The seat of the player who is to act.
    pub current_turn_index: u8,
    /// The seat of the dealer, who posts the small blind.
    pub dealer_index: u8,
    /// When the last action was taken, in seconds.
    pub last_action_timestamp: i64,
    /// Two players are seated and hands are being played.
    pub is_active: bool,
}

/// The confidential data of the hand being played, as the computation
/// network returned it.
#[derive(Clone, Copy, PartialEq, Eq, Debug)]
pub struct HandState {
    pub encrypted_hole_cards: [[u8; 128]; MAX_PLAYERS],
    pub encrypted_deck: [u8; 1568],
    pub shuffle_tx_sig: [u8; 64],
}

/// A betting round is open in this phase.
pub open spec fn is_betting_phase(phase: GamePhase) -> bool {
    phase == GamePhase::PreFlop || phase == GamePhase::Flop || phase == GamePhase::Turn || phase
        == GamePhase::River
}

/// The key that marks an empty seat: 32 zeros.
pub open spec fn empty_key() -> Key {
    vstd::array::spec_array_fill_for_copy_type::<u8, 32>(0u8)
}

/// The bytes of the key that marks an empty seat.
pub open spec fn empty_seat() -> Seq<u8> {
    empty_key()@
}

impl GameState {
    /// All chips at the table: the stacks, the bets and the pot.
    pub open spec fn chips(&self) -> int {
        self.stacks@[0] + self.stacks@[1] + self.bets@[0] + self.bets@[1] + self.pot
    }

    /// The seat of the player who is not to act.
    pub open spec fn opponent(&self) -> int {
        1 - self.current_turn_index
    }

    /// The state is one that play can go on from: the dealer and the player
    /// to act sit at one of the two seats, the chips at the table can be
    /// counted in 64 bits, and while a betting round is open the player to
    /// act has not put in more than the opponent.
    pub open spec fn well_formed(&self) -> bool {
        &&& self.current_turn_index < 2
        &&& self.dealer_index < 2
        &&& self.chips() <= u64::MAX
        &&& is_betting_phase(self.game_phase) ==> self.bets@[self.current_turn_index as int]
            <= self.bets@[self.opponent()]
    }
}

/// Tells whether a betting round is open in `phase`.
pub fn betting_open(phase: GamePhase) -> (open: bool)
    ensures
        open == is_betting_phase(phase),
{
    phase == GamePhase::PreFlop || phase == GamePhase::Flop || phase == GamePhase::Turn || phase
        == GamePhase::River
}

/// Tells whether play can go on from `state`.
pub fn is_well_formed(state: &GameState) -> (playable: bool)
    ensures
        playable == state.well_formed(),
{
    if state.current_turn_index >= 2 || state.dealer_index >= 2 {
        return false;
    }
    let chips: u128 = state.stacks[0] as u128 + state.stacks[1] as u128 + state.bets[0] as u128
        + state.bets[1] as u128 + state.pot as u128;
    if chips > u64::MAX as u128 {
        return false;
    }
    let seat: usize = state.current_turn_index as usize;
    !betting_open(state.game_phase) || state.bets[seat] <= state.bets[1 - seat]
}

/// Tells whether two keys are the same.
pub fn same_key(first: &Key, second: &Key) -> (same: bool)
    ensures
        same == (first@ == second@),
{
    let mut same: bool = true;
    let mut i: usize = 0;
    while i < 32
        invariant
            i <= 32,
            same == (forall|j: int| 0 <= j < i ==> first@[j] == second@[j]),
        decreases 32 - i,
    {
        same = same && first[i] == second[i];
        i += 1;
    }
    assert(same == (first@ =~= second@));
    same
}

/// Tells whether `key` is the key of an empty seat.
pub fn is_empty_seat(key: &Key) -> (empty: bool)
    ensures
        empty == (key@ == empty_seat()),
{
    let zeros: Key = [0u8; 32];
    same_key(key, &zeros)
}

} // verus!
