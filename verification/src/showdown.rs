//! The showdown: the best five-card hand among seven cards, and which of two
//! players holds the better one.

use vstd::prelude::*;
use crate::cards::{all_valid, is_scorable};
use crate::hand_eval::evaluate_hand;
use crate::ranking::lemma_score_is_order_free;
use crate::select::{both, flag, negate, select_u64};
use crate::strength::{hand_score, lemma_count_of_five};

verus! {

/// The result when the first player wins.
pub const FIRST_PLAYER_WINS: u8 = 0;

/// The result when the second player wins.
pub const SECOND_PLAYER_WINS: u8 = 1;

/// The result when the two players tie.
pub const TIE: u8 = 2;

/// The five cards at positions `a`, `b`, `c`, `d`, `e` of `cards`.
pub open spec fn five_of(cards: Seq<u8>, a: int, b: int, c: int, d: int, e: int) -> Seq<u8> {
    seq![cards[a], cards[b], cards[c], cards[d], cards[e]]
}

/// Five positions among seven, in increasing order: one way of choosing five
/// cards of seven.
pub open spec fn is_choice(a: int, b: int, c: int, d: int, e: int) -> bool {
    0 <= a < b < c < d < e < 7
}

/// `score` is the best that five cards of `cards` can score: some choice of
/// five scores it and none scores more.
pub open spec fn is_best_score(cards: Seq<u8>, score: nat) -> bool {
    &&& exists|a: int, b: int, c: int, d: int, e: int|
        is_choice(a, b, c, d, e) && #[trigger] hand_score(five_of(cards, a, b, c, d, e)) == score
    &&& forall|a: int, b: int, c: int, d: int, e: int|
        is_choice(a, b, c, d, e) ==> #[trigger] hand_score(five_of(cards, a, b, c, d, e))
            <= score
}

/// The score of the best five-card hand among seven cards.
pub open spec fn best_score(cards: Seq<u8>) -> nat {
    choose|score: nat| is_best_score(cards, score)
}

/// Seven cards have one best score only.
pub proof fn lemma_best_score_unique(cards: Seq<u8>, score: nat)
    requires
        is_best_score(cards, score),
    ensures
        best_score(cards) == score,
{
    let other = best_score(cards);
    assert(is_best_score(cards, other));
}

/// The 21 ways of choosing five positions among seven, in the order in which
/// they are tried.
pub open spec fn combinations() -> Seq<Seq<int>> {
    seq![
        seq![0int, 1, 2, 3, 4],
        seq![0int, 1, 2, 3, 5],
        seq![0int, 1, 2, 3, 6],
        seq![0int, 1, 2, 4, 5],
        seq![0int, 1, 2, 4, 6],
        seq![0int, 1, 2, 5, 6],
        seq![0int, 1, 3, 4, 5],
        seq![0int, 1, 3, 4, 6],
        seq![0int, 1, 3, 5, 6],
        seq![0int, 1, 4, 5, 6],
        seq![0int, 2, 3, 4, 5],
        seq![0int, 2, 3, 4, 6],
        seq![0int, 2, 3, 5, 6],
        seq![0int, 2, 4, 5, 6],
        seq![0int, 3, 4, 5, 6],
        seq![1int, 2, 3, 4, 5],
        seq![1int, 2, 3, 4, 6],
        seq![1int, 2, 3, 5, 6],
        seq![1int, 2, 4, 5, 6],
        seq![1int, 3, 4, 5, 6],
        seq![2int, 3, 4, 5, 6],
    ]
}

/// The table of combinations as the selector walks it.
pub fn combination_table() -> (table: [[usize; 5]; 21])
    ensures
        forall|n: int, k: int|
            0 <= n < 21 && 0 <= k < 5 ==> (#[trigger] table@[n]@[k]) == combinations()[n][k],
{
    [
        [0, 1, 2, 3, 4],
        [0, 1, 2, 3, 5],
        [0, 1, 2, 3, 6],
        [0, 1, 2, 4, 5],
        [0, 1, 2, 4, 6],
        [0, 1, 2, 5, 6],
        [0, 1, 3, 4, 5],
        [0, 1, 3, 4, 6],
        [0, 1, 3, 5, 6],
        [0, 1, 4, 5, 6],
        [0, 2, 3, 4, 5],
        [0, 2, 3, 4, 6],
        [0, 2, 3, 5, 6],
        [0, 2, 4, 5, 6],
        [0, 3, 4, 5, 6],
        [1, 2, 3, 4, 5],
        [1, 2, 3, 4, 6],
        [1, 2, 3, 5, 6],
        [1, 2, 4, 5, 6],
        [1, 3, 4, 5, 6],
        [2, 3, 4, 5, 6],
    ]
}

/// Row `n` of the table picks five positions in increasing order.
pub open spec fn row_is_choice(n: int) -> bool {
    let row = combinations()[n];
    row.len() == 5 && is_choice(row[0], row[1], row[2], row[3], row[4])
}

/// Row `n` of the table picks the positions `a`, `b`, `c`, `d`, `e`.
pub open spec fn row_picks(n: int, a: int, b: int, c: int, d: int, e: int) -> bool {
    let row = combinations()[n];
    row[0] == a && row[1] == b && row[2] == c && row[3] == d && row[4] == e
}

/// The table holds 21 rows, and each is a way of choosing five of seven.
pub proof fn lemma_rows_are_choices()
    ensures
        combinations().len() == 21,
        forall|n: int| 0 <= n < 21 ==> #[trigger] row_is_choice(n),
{
    assert(row_is_choice(0) && row_is_choice(1) && row_is_choice(2) && row_is_choice(3)
        && row_is_choice(4) && row_is_choice(5) && row_is_choice(6));
    assert(row_is_choice(7) && row_is_choice(8) && row_is_choice(9) && row_is_choice(10)
        && row_is_choice(11) && row_is_choice(12) && row_is_choice(13));
    assert(row_is_choice(14) && row_is_choice(15) && row_is_choice(16) && row_is_choice(17)
        && row_is_choice(18) && row_is_choice(19) && row_is_choice(20));
}

/// Every way of choosing five of seven is a row of the table.
pub proof fn lemma_every_choice_is_a_row(a: int, b: int, c: int, d: int, e: int) -> (n: int)
    requires
        is_choice(a, b, c, d, e),
    ensures
        0 <= n < 21,
        row_picks(n, a, b, c, d, e),
{
    // the two positions left out tell the row
    let n = if a == 0 {
        if b == 1 {
            if c == 2 {
                if d == 3 {
                    e - 4
                } else if d == 4 {
                    e - 2
                } else {
                    5
                }
            } else if c == 3 {
                if d == 4 {
                    e + 1
                } else {
                    8
                }
            } else {
                9
            }
        } else if b == 2 {
            if c == 3 {
                if d == 4 {
                    e + 5
                } else {
                    12
                }
            } else {
                13
            }
        } else {
            14
        }
    } else if a == 1 {
        if b == 2 {
            if c == 3 {
                if d == 4 {
                    e + 10
                } else {
                    17
                }
            } else {
                18
            }
        } else {
            19
        }
    } else {
        20
    };
    assert(0 <= n < 21);
    assert(row_picks(n, a, b, c, d, e));
    n
}

/// The best score among the first `rows` rows of the table, and 0 for none.
spec fn is_best_of_rows(cards: Seq<u8>, rows: int, score: nat) -> bool {
    &&& forall|n: int|
        0 <= n < rows ==> hand_score(#[trigger] row_hand(cards, n)) <= score
    &&& rows == 0 ==> score == 0
    &&& rows > 0 ==> exists|n: int| 0 <= n < rows && hand_score(#[trigger] row_hand(cards, n)) == score
}

/// The five cards that row `n` of the table picks from `cards`.
pub open spec fn row_hand(cards: Seq<u8>, n: int) -> Seq<u8> {
    let row = combinations()[n];
    five_of(cards, row[0], row[1], row[2], row[3], row[4])
}

/// The best score over all rows of the table is the best score of the seven
/// cards.
proof fn lemma_best_of_all_rows(cards: Seq<u8>, score: nat)
    requires
        is_best_of_rows(cards, 21, score),
    ensures
        is_best_score(cards, score),
{
    lemma_rows_are_choices();
    let top = choose|n: int| 0 <= n < 21 && hand_score(#[trigger] row_hand(cards, n)) == score;
    assert(row_is_choice(top));
    let row = combinations()[top];
    assert(is_choice(row[0], row[1], row[2], row[3], row[4]) && hand_score(
        five_of(cards, row[0], row[1], row[2], row[3], row[4]),
    ) == score);
    assert forall|a: int, b: int, c: int, d: int, e: int| is_choice(a, b, c, d, e) implies (
    #[trigger] hand_score(five_of(cards, a, b, c, d, e))) <= score by {
        let n = lemma_every_choice_is_a_row(a, b, c, d, e);
        assert(row_hand(cards, n) == five_of(cards, a, b, c, d, e));
    }
}

/// The best score that five of the seven cards can reach: the highest score
/// over all 21 ways of choosing five of them.
///
/// All 21 hands are scored, in the order of the table, and the running
/// maximum is updated by arithmetic selection each time; nothing is skipped
/// and nothing ends early.
pub fn best_of_seven(cards: [u8; 7]) -> (score: u64)
    requires
        all_valid(cards@),
    ensures
        is_best_score(cards@, score as nat),
        score == best_score(cards@),
{
    let table: [[usize; 5]; 21] = combination_table();
    let mut best: u64 = 0;
    let mut n: usize = 0;
    proof {
        lemma_rows_are_choices();
    }
    while n < 21
        invariant
            n <= 21,
            all_valid(cards@),
            forall|m: int, k: int|
                0 <= m < 21 && 0 <= k < 5 ==> (#[trigger] table@[m]@[k]) == combinations()[m][k],
            forall|m: int| 0 <= m < 21 ==> #[trigger] row_is_choice(m),
            is_best_of_rows(cards@, n as int, best as nat),
        decreases 21 - n,
    {
        let row: [usize; 5] = table[n];
        proof {
            assert(row_is_choice(n as int));
            assert(forall|k: int| 0 <= k < 5 ==> row@[k] == (#[trigger] table@[n as int]@[k]));
        }
        let mut hand: [u8; 5] = [0u8; 5];
        hand[0] = cards[row[0]];
        hand[1] = cards[row[1]];
        hand[2] = cards[row[2]];
        hand[3] = cards[row[3]];
        hand[4] = cards[row[4]];
        proof {
            assert(hand@ =~= row_hand(cards@, n as int));
        }
        let score: u64 = evaluate_hand(hand);
        let higher: u8 = flag(score > best);
        let ghost before = best;
        best = select_u64(higher, score, best);
        n += 1;
        proof {
            assert forall|m: int| 0 <= m < n implies hand_score(#[trigger] row_hand(cards@, m))
                <= best by {
                if m < n - 1 {
                    assert(hand_score(row_hand(cards@, m)) <= before);
                }
            }
            if higher == 1 || n == 1 {
                assert(hand_score(row_hand(cards@, n - 1)) == best);
            } else {
                let top = choose|m: int|
                    0 <= m < n - 1 && hand_score(#[trigger] row_hand(cards@, m)) == before;
                assert(hand_score(row_hand(cards@, top)) == best);
            }
        }
    }
    proof {
        lemma_best_of_all_rows(cards@, best as nat);
        lemma_best_score_unique(cards@, best as nat);
    }
    best
}

/// Five different positions among seven, in any order.
pub open spec fn is_pick(picks: Seq<int>) -> bool {
    &&& picks.len() == 5
    &&& forall|k: int| 0 <= k < 5 ==> 0 <= #[trigger] picks[k] < 7
    &&& forall|j: int, k: int| 0 <= j < k < 5 ==> picks[j] != picks[k]
}

/// The cards of `cards` at the positions `picks`, in the order of `picks`.
pub open spec fn picked(cards: Seq<u8>, picks: Seq<int>) -> Seq<u8> {
    Seq::new(5, |k: int| cards[picks[k]])
}

/// How often the card at position `at` is met among the picked cards when
/// it is the card `card`, and 0 when it is another card.
spec fn met_at(cards: Seq<u8>, picks: Seq<int>, at: int, card: u8) -> int {
    if cards[at] == card {
        picks.to_multiset().count(at) as int
    } else {
        0
    }
}

/// 1 when the pick `pick` is the position `at` and the card there is
/// `card`, and 0 otherwise.
#[verifier::opaque]
spec fn hit(cards: Seq<u8>, pick: int, at: int, card: u8) -> int {
    if pick == at && cards[at] == card {
        1
    } else {
        0
    }
}

/// The hits of one pick over the seven positions.
spec fn hits_of_pick(cards: Seq<u8>, pick: int, card: u8) -> int {
    hit(cards, pick, 0, card) + hit(cards, pick, 1, card) + hit(cards, pick, 2, card) + hit(
        cards,
        pick,
        3,
        card,
    ) + hit(cards, pick, 4, card) + hit(cards, pick, 5, card) + hit(cards, pick, 6, card)
}

/// The hits of the five picks at one position.
spec fn hits_at(cards: Seq<u8>, picks: Seq<int>, at: int, card: u8) -> int {
    hit(cards, picks[0], at, card) + hit(cards, picks[1], at, card) + hit(
        cards,
        picks[2],
        at,
        card,
    ) + hit(cards, picks[3], at, card) + hit(cards, picks[4], at, card)
}

/// A pick hits once when the card it picks is `card`, and never otherwise.
proof fn lemma_hits_of_pick(cards: Seq<u8>, pick: int, card: u8)
    requires
        0 <= pick < 7,
    ensures
        hits_of_pick(cards, pick, card) == if cards[pick] == card {
            1int
        } else {
            0int
        },
{
    reveal(hit);
}

/// The picks hit a position as often as they pick it when the card there is
/// `card`, and never otherwise.
proof fn lemma_hits_at(cards: Seq<u8>, picks: Seq<int>, at: int, card: u8)
    requires
        picks.len() == 5,
    ensures
        hits_at(cards, picks, at, card) == met_at(cards, picks, at, card),
{
    reveal(hit);
    lemma_count_of_five(picks, at);
}

/// A card is met among the picked cards as often as the positions that hold
/// it are picked.
proof fn lemma_picked_by_position(cards: Seq<u8>, picks: Seq<int>, card: u8)
    requires
        cards.len() == 7,
        picks.len() == 5,
        forall|k: int| 0 <= k < 5 ==> 0 <= #[trigger] picks[k] < 7,
    ensures
        picked(cards, picks).to_multiset().count(card) == met_at(cards, picks, 0, card) + met_at(
            cards,
            picks,
            1,
            card,
        ) + met_at(cards, picks, 2, card) + met_at(cards, picks, 3, card) + met_at(
            cards,
            picks,
            4,
            card,
        ) + met_at(cards, picks, 5, card) + met_at(cards, picks, 6, card),
{
    lemma_count_of_five(picked(cards, picks), card);
    assert(0 <= picks[0] < 7 && 0 <= picks[1] < 7 && 0 <= picks[2] < 7 && 0 <= picks[3] < 7 && 0
        <= picks[4] < 7);
    lemma_hits_of_pick(cards, picks[0], card);
    lemma_hits_of_pick(cards, picks[1], card);
    lemma_hits_of_pick(cards, picks[2], card);
    lemma_hits_of_pick(cards, picks[3], card);
    lemma_hits_of_pick(cards, picks[4], card);
    lemma_hits_at(cards, picks, 0, card);
    lemma_hits_at(cards, picks, 1, card);
    lemma_hits_at(cards, picks, 2, card);
    lemma_hits_at(cards, picks, 3, card);
    lemma_hits_at(cards, picks, 4, card);
    lemma_hits_at(cards, picks, 5, card);
    lemma_hits_at(cards, picks, 6, card);
    let by_pick = hits_of_pick(cards, picks[0], card) + hits_of_pick(cards, picks[1], card)
        + hits_of_pick(cards, picks[2], card) + hits_of_pick(cards, picks[3], card)
        + hits_of_pick(cards, picks[4], card);
    let by_position = hits_at(cards, picks, 0, card) + hits_at(cards, picks, 1, card) + hits_at(
        cards,
        picks,
        2,
        card,
    ) + hits_at(cards, picks, 3, card) + hits_at(cards, picks, 4, card) + hits_at(
        cards,
        picks,
        5,
        card,
    ) + hits_at(cards, picks, 6, card);
    assert(by_pick == by_position);
    assert(picked(cards, picks).to_multiset().count(card) == by_pick);
}

/// No five cards of the seven score more than the best score, in whatever
/// order they are picked.
pub proof fn lemma_best_beats_any_five(cards: Seq<u8>, score: nat, picks: Seq<int>)
    requires
        cards.len() == 7,
        all_valid(cards),
        is_best_score(cards, score),
        is_pick(picks),
    ensures
        hand_score(picked(cards, picks)) <= score,
{
    let leq = |x: int, y: int| x <= y;
    assert(vstd::relations::total_ordering(leq)) by {
        assert(vstd::relations::reflexive(leq));
        assert(vstd::relations::antisymmetric(leq));
        assert(vstd::relations::transitive(leq));
        assert(vstd::relations::strongly_connected(leq));
    }
    let rising = picks.sort_by(leq);
    picks.lemma_sort_by_ensures(leq);
    picks.to_multiset_ensures();
    rising.to_multiset_ensures();
    assert(rising.len() == 5);
    assert forall|k: int| 0 <= k < 5 implies 0 <= #[trigger] rising[k] < 7 by {
        assert(rising.contains(rising[k]));
        assert(rising.to_multiset().count(rising[k]) > 0);
        assert(picks.to_multiset().count(rising[k]) > 0);
        assert(picks.contains(rising[k]));
        let j = choose|j: int| 0 <= j < 5 && picks[j] == rising[k];
        assert(0 <= picks[j] < 7);
    }
    assert(picks.no_duplicates());
    picks.lemma_multiset_has_no_duplicates();
    rising.lemma_multiset_has_no_duplicates_conv();
    assert forall|j: int, k: int| 0 <= j < k < 5 implies rising[j] < rising[k] by {
        assert(leq(rising[j], rising[k]));
        assert(rising[j] != rising[k]);
    }
    let in_order = five_of(cards, rising[0], rising[1], rising[2], rising[3], rising[4]);
    assert(is_choice(rising[0], rising[1], rising[2], rising[3], rising[4]));
    assert(hand_score(in_order) <= score);
    assert(in_order =~= picked(cards, rising));
    assert forall|card: u8| #[trigger]
        picked(cards, picks).to_multiset().count(card) == picked(
            cards,
            rising,
        ).to_multiset().count(card) by {
        lemma_picked_by_position(cards, picks, card);
        lemma_picked_by_position(cards, rising, card);
    }
    assert(picked(cards, picks).to_multiset() =~= in_order.to_multiset());
    assert(is_scorable(picked(cards, picks)) && is_scorable(in_order)) by {
        assert forall|k: int| 0 <= k < 5 implies picked(cards, picks)[k] < 52 by {
            assert(0 <= picks[k] < 7);
        }
        assert forall|k: int| 0 <= k < 5 implies in_order[k] < 52 by {
            assert(0 <= rising[k] < 7);
        }
    }
    lemma_score_is_order_free(picked(cards, picks), in_order);
}

/// The result of a showdown between two best scores: 0 when the first is
/// higher, 1 when the second is higher, 2 when they are equal.
pub open spec fn showdown_result(first: nat, second: nat) -> u8 {
    if first > second {
        0
    } else if second > first {
        1
    } else {
        2
    }
}

/// The seven cards that a player plays with: the two hole cards, then the
/// five cards of the board.
pub open spec fn seven_cards(hole: Seq<u8>, board: Seq<u8>) -> Seq<u8> {
    hole + board
}

/// Puts a player's hole cards and the board together.
pub fn gather_seven(hole: [u8; 2], board: [u8; 5]) -> (seven: [u8; 7])
    ensures
        seven@ == seven_cards(hole@, board@),
{
    let seven: [u8; 7] = [hole[0], hole[1], board[0], board[1], board[2], board[3], board[4]];
    assert(seven@ =~= seven_cards(hole@, board@));
    seven
}

/// Decides a showdown between two players who share the board: 0 when the
/// first player's best five-card hand scores higher, 1 when the second
/// player's does, 2 when both score the same.
///
/// The result is the only value that depends on the cards to leave this
/// function; it is the sum of each result's number times the flag of its
/// case, of which exactly one holds.
pub fn determine_winner(p1_hole: [u8; 2], p2_hole: [u8; 2], board: [u8; 5]) -> (winner: u8)
    requires
        all_valid(p1_hole@),
        all_valid(p2_hole@),
        all_valid(board@),
    ensures
        winner == showdown_result(
            best_score(seven_cards(p1_hole@, board@)),
            best_score(seven_cards(p2_hole@, board@)),
        ),
{
    let p1_seven: [u8; 7] = gather_seven(p1_hole, board);
    let p2_seven: [u8; 7] = gather_seven(p2_hole, board);
    let p1_score: u64 = best_of_seven(p1_seven);
    let p2_score: u64 = best_of_seven(p2_seven);
    let p1_wins: u8 = flag(p1_score > p2_score);
    let p2_wins: u8 = flag(p2_score > p1_score);
    let tie: u8 = both(negate(p1_wins), negate(p2_wins));
    p1_wins * FIRST_PLAYER_WINS + p2_wins * SECOND_PLAYER_WINS + tie * TIE
}

} // verus!
