use veridian_holdem::hand_eval::{
    classify, count_groups, count_ranks, detect_flush, detect_straight, split_hand,
};
use veridian_holdem::kickers::{order_kickers, pack_buckets, place};
use veridian_holdem::select::{both, either, flag, negate, select_u64, select_u8};
use veridian_holdem::showdown::{combination_table, gather_seven};
use veridian_holdem::sorting::{compare_exchange, sort_descending};

#[test]
fn flags_follow_the_truth_tables() {
    assert_eq!(flag(true), 1);
    assert_eq!(flag(false), 0);
    assert_eq!(negate(0), 1);
    assert_eq!(negate(1), 0);
    for (left, right) in [(0u8, 0u8), (0, 1), (1, 0), (1, 1)] {
        assert_eq!(both(left, right), left & right);
        assert_eq!(either(left, right), left | right);
    }
}

#[test]
fn selection_takes_the_first_value_when_the_flag_holds() {
    assert_eq!(select_u8(1, 7, 9), 7);
    assert_eq!(select_u8(0, 7, 9), 9);
    assert_eq!(select_u8(1, 255, 255), 255);
    assert_eq!(select_u8(0, 0, 255), 255);
    assert_eq!(select_u64(1, u64::MAX, 3), u64::MAX);
    assert_eq!(select_u64(0, u64::MAX, 3), 3);
    assert_eq!(select_u64(0, 3, u64::MAX), u64::MAX);
}

#[test]
fn compare_exchange_puts_the_larger_first() {
    let mut pair = [3u8, 8, 5];
    compare_exchange(&mut pair, 0, 1);
    assert_eq!(pair, [8, 3, 5]);
    compare_exchange(&mut pair, 0, 1);
    assert_eq!(pair, [8, 3, 5]);
    compare_exchange(&mut pair, 1, 2);
    assert_eq!(pair, [8, 5, 3]);
    let mut equal = [4u8, 4];
    compare_exchange(&mut equal, 0, 1);
    assert_eq!(equal, [4, 4]);
}

#[test]
fn sort_descending_sorts_every_arrangement_of_five() {
    let values = [9u8, 2, 7, 2, 12];
    let mut order = [0usize, 1, 2, 3, 4];
    // every permutation of the five positions, by Heap's algorithm
    let mut counters = [0usize; 5];
    let mut seen = 0;
    let mut check = |order: &[usize; 5]| {
        let mut a = [0u8; 5];
        for (slot, from) in order.iter().enumerate() {
            a[slot] = values[*from];
        }
        sort_descending(&mut a);
        assert_eq!(a, [12, 9, 7, 2, 2]);
    };
    check(&order);
    seen += 1;
    let mut i = 0;
    while i < 5 {
        if counters[i] < i {
            if i % 2 == 0 {
                order.swap(0, i);
            } else {
                order.swap(counters[i], i);
            }
            check(&order);
            seen += 1;
            counters[i] += 1;
            i = 0;
        } else {
            counters[i] = 0;
            i += 1;
        }
    }
    assert_eq!(seen, 120);
}

#[test]
fn sort_descending_handles_short_and_long_arrays() {
    let mut none: [u8; 0] = [];
    sort_descending(&mut none);
    let mut one = [5u8];
    sort_descending(&mut one);
    assert_eq!(one, [5]);
    let mut thirteen = [0u8, 16, 1, 33, 2, 3, 4, 5, 6, 7, 8, 9, 255];
    sort_descending(&mut thirteen);
    assert_eq!(thirteen, [255, 33, 16, 9, 8, 7, 6, 5, 4, 3, 2, 1, 0]);
}

#[test]
fn hand_is_split_into_ranks_and_suits() {
    let (ranks, suits) = split_hand([0, 5, 51, 22, 13]);
    assert_eq!(ranks, [0, 1, 12, 5, 3]);
    assert_eq!(suits, [0, 1, 3, 2, 1]);
}

#[test]
fn ranks_are_counted_into_thirteen_buckets() {
    assert_eq!(count_ranks(&[12, 12, 11, 0, 12]), [1, 0, 0, 0, 0, 0, 0, 0, 0, 0, 0, 1, 3]);
    assert_eq!(count_ranks(&[4, 4, 4, 4, 4]), [0, 0, 0, 0, 5, 0, 0, 0, 0, 0, 0, 0, 0]);
}

#[test]
fn groups_are_counted_by_size() {
    let two_pair = [0u8, 2, 0, 0, 2, 0, 0, 0, 0, 1, 0, 0, 0];
    assert_eq!(count_groups(&two_pair, 2), 2);
    assert_eq!(count_groups(&two_pair, 1), 1);
    assert_eq!(count_groups(&two_pair, 3), 0);
    assert_eq!(count_groups(&two_pair, 0), 10);
}

#[test]
fn flush_needs_all_five_suits_equal() {
    assert!(detect_flush(&[2, 2, 2, 2, 2]));
    for odd in 0..5 {
        let mut suits = [1u8; 5];
        suits[odd] = 3;
        assert!(!detect_flush(&suits));
    }
}

#[test]
fn straight_is_read_off_sorted_ranks() {
    assert_eq!(detect_straight(&[12, 11, 10, 9, 8]), (true, false));
    assert_eq!(detect_straight(&[4, 3, 2, 1, 0]), (true, false));
    assert_eq!(detect_straight(&[12, 3, 2, 1, 0]), (false, true));
    assert_eq!(detect_straight(&[12, 4, 2, 1, 0]), (false, false));
    // a spread of four with a pair is no straight
    assert_eq!(detect_straight(&[8, 7, 7, 5, 4]), (false, false));
    assert_eq!(detect_straight(&[8, 8, 6, 5, 4]), (false, false));
    assert_eq!(detect_straight(&[8, 7, 6, 4, 4]), (false, false));
    assert_eq!(detect_straight(&[9, 7, 6, 5, 4]), (false, false));
}

#[test]
fn strongest_pattern_decides_the_category() {
    assert_eq!(classify(true, true, 0, 0, 0), 8);
    assert_eq!(classify(false, false, 1, 0, 0), 7);
    assert_eq!(classify(false, false, 0, 1, 1), 6);
    assert_eq!(classify(true, false, 0, 0, 0), 5);
    assert_eq!(classify(false, true, 0, 0, 0), 4);
    assert_eq!(classify(false, false, 0, 1, 0), 3);
    assert_eq!(classify(false, false, 0, 0, 2), 2);
    assert_eq!(classify(false, false, 0, 0, 1), 1);
    assert_eq!(classify(false, false, 0, 0, 0), 0);
    // a stronger pattern hides the weaker ones
    assert_eq!(classify(true, false, 1, 0, 0), 7);
    assert_eq!(classify(true, false, 0, 1, 1), 6);
    assert_eq!(classify(true, false, 0, 1, 0), 5);
    assert_eq!(classify(true, false, 0, 0, 2), 5);
    assert_eq!(classify(false, true, 0, 0, 1), 4);
}

#[test]
fn buckets_are_packed_count_over_rank() {
    let counts = [0u8, 2, 0, 0, 0, 0, 0, 0, 0, 0, 0, 0, 3];
    assert_eq!(pack_buckets(&counts), [0, 33, 2, 3, 4, 5, 6, 7, 8, 9, 10, 11, 60]);
}

#[test]
fn place_writes_one_slot_or_none() {
    let mut kickers = [1u8, 2, 3, 4, 5];
    place(&mut kickers, 2, 9, 1);
    assert_eq!(kickers, [1, 2, 9, 4, 5]);
    place(&mut kickers, 4, 7, 0);
    assert_eq!(kickers, [1, 2, 9, 4, 5]);
    place(&mut kickers, 5, 7, 1);
    assert_eq!(kickers, [1, 2, 9, 4, 5]);
    place(&mut kickers, 0, 0, 1);
    assert_eq!(kickers, [0, 2, 9, 4, 5]);
}

#[test]
fn kickers_are_ordered_by_count_and_then_rank() {
    let mut counts = [0u8; 13];
    counts[11] = 3;
    counts[10] = 2;
    assert_eq!(order_kickers(&counts), [11, 11, 11, 10, 10]);
    let mut counts = [0u8; 13];
    counts[0] = 3;
    counts[12] = 2;
    assert_eq!(order_kickers(&counts), [0, 0, 0, 12, 12]);
    let mut counts = [0u8; 13];
    counts[12] = 1;
    counts[5] = 2;
    counts[7] = 2;
    assert_eq!(order_kickers(&counts), [7, 7, 5, 5, 12]);
    let mut counts = [0u8; 13];
    counts[3] = 5;
    assert_eq!(order_kickers(&counts), [3, 3, 3, 3, 3]);
    let mut counts = [0u8; 13];
    for rank in [0, 3, 6, 9, 12] {
        counts[rank] = 1;
    }
    assert_eq!(order_kickers(&counts), [12, 9, 6, 3, 0]);
}

#[test]
fn table_lists_every_choice_of_five_once() {
    let table = combination_table();
    let mut seen = std::collections::BTreeSet::new();
    for row in table.iter() {
        for pair in row.windows(2) {
            assert!(pair[0] < pair[1]);
        }
        assert!(row[4] < 7);
        assert!(seen.insert(*row));
    }
    assert_eq!(seen.len(), 21);
    assert_eq!(table[0], [0, 1, 2, 3, 4]);
    assert_eq!(table[20], [2, 3, 4, 5, 6]);
}

#[test]
fn seven_cards_are_hole_cards_then_board() {
    assert_eq!(gather_seven([50, 51], [1, 2, 3, 4, 5]), [50, 51, 1, 2, 3, 4, 5]);
}
