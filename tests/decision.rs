use card_ai::component::AIMemory;
use card_ai::decision::{
    get_best_card_swap, get_unknown_card_hand, get_worst_known_card_hand, should_draw,
    should_end_round, should_swap,
};
use card_ai::scoring::{
    calculate_expected_value, estimate_opponent_score, estimate_own_score, Fraction,
};

fn memory_with(known: Vec<(u64, u8)>, opponent: Vec<(u64, u8)>) -> AIMemory {
    let mut m = AIMemory::new();
    m.known_cards = known;
    m.opponent_known_cards = opponent;
    m
}

#[test]
fn expected_value_of_fresh_memory_is_table_mean() {
    let m = AIMemory::new();
    let e = calculate_expected_value(&m);
    assert_eq!(e, Fraction { num: 312, den: 48 });
}

#[test]
fn expected_value_when_all_cards_accounted_is_six_and_a_half() {
    let mut m = AIMemory::new();
    for i in 0..48u64 {
        m.known_cards.push((i, (i % 12 + 1) as u8));
    }
    let e = calculate_expected_value(&m);
    assert_eq!(e, Fraction { num: 13, den: 2 });
}

#[test]
fn expected_value_counts_all_three_pools() {
    let mut m = memory_with(vec![(1, 1)], vec![(50, 12)]);
    m.seen_discards = vec![3, 4];
    let e = calculate_expected_value(&m);
    // (312 - 20) / (48 - 4)
    assert_eq!(e, Fraction { num: 292, den: 44 });
    let v = e.num as f64 / e.den as f64;
    assert!(v >= 0.0 && v <= 12.0);
}

#[test]
fn expected_value_can_be_exactly_the_mean_before_the_end() {
    let m = memory_with(vec![(1, 1), (2, 12)], vec![]);
    let e = calculate_expected_value(&m);
    assert_eq!(e, Fraction { num: 299, den: 46 });
    assert_eq!(e.num * 2, e.den * 13);
}

#[test]
fn own_score_mixes_known_values_and_expectation() {
    let m = memory_with(vec![(1, 3), (2, 10)], vec![]);
    // expected = (312 - 13) / 46, hand = 3 + 10 + 2 unknown
    let s = estimate_own_score(&m, &vec![1, 2, 3, 4]);
    assert_eq!(s.den, 46);
    assert_eq!(s.num, 13 * 46 + 2 * 299);
}

#[test]
fn opponent_score_uses_opponent_table() {
    let m = memory_with(vec![(1, 3)], vec![(10, 8)]);
    let s = estimate_opponent_score(&m, &vec![10, 11]);
    // expected = (312 - 11) / 46
    assert_eq!(s.den, 46);
    assert_eq!(s.num, 8 * 46 + 301);
}

#[test]
fn draw_from_graveyard_when_top_beats_expectation() {
    let m = AIMemory::new();
    assert!(should_draw(&m, Some(2), None));
    assert!(!should_draw(&m, Some(9), None));
}

#[test]
fn draw_from_deck_when_graveyard_empty() {
    let m = AIMemory::new();
    assert!(!should_draw(&m, None, None));
    assert!(!should_draw(&m, None, Some(12)));
}

#[test]
fn draw_from_graveyard_needs_to_beat_worst_known() {
    let m = AIMemory::new();
    assert!(should_draw(&m, Some(3), Some(8)));
    assert!(!should_draw(&m, Some(3), Some(3)));
    assert!(!should_draw(&m, Some(7), Some(12)));
}

#[test]
fn worst_known_card_keeps_first_of_equal_values() {
    let m = memory_with(vec![(1, 5), (2, 9), (3, 9)], vec![]);
    assert_eq!(get_worst_known_card_hand(&m, &vec![1, 2, 3, 4]), Some((2, 9)));
    assert_eq!(get_worst_known_card_hand(&m, &vec![3, 1, 2]), Some((3, 9)));
}

#[test]
fn worst_known_card_is_none_without_known_cards_in_hand() {
    let m = memory_with(vec![(1, 5)], vec![]);
    assert_eq!(get_worst_known_card_hand(&m, &vec![7, 8]), None);
    assert_eq!(get_worst_known_card_hand(&m, &vec![]), None);
}

#[test]
fn swap_low_card_without_knowledge() {
    let m = AIMemory::new();
    assert!(should_swap(3, &m, &vec![1, 2, 3, 4]));
}

#[test]
fn no_swap_of_high_card_over_known_five() {
    let m = memory_with(vec![(1, 5), (2, 2), (3, 3), (4, 4)], vec![]);
    assert!(!should_swap(8, &m, &vec![1, 2, 3, 4]));
}

#[test]
fn swap_medium_card_while_little_is_known() {
    let m = memory_with(vec![(1, 2)], vec![]);
    assert!(should_swap(6, &m, &vec![1, 2, 3, 4]));
    let m4 = memory_with(vec![(1, 2), (2, 2), (3, 2), (4, 2)], vec![]);
    assert!(!should_swap(6, &m4, &vec![1, 2, 3, 4]));
}

#[test]
fn swap_card_lower_than_worst_known() {
    let m = memory_with(vec![(1, 11), (2, 1), (3, 1), (4, 1)], vec![]);
    assert!(should_swap(9, &m, &vec![1, 2, 3, 4]));
}

#[test]
fn best_swap_targets_worst_known_card() {
    let m = memory_with(vec![(1, 4), (2, 9)], vec![]);
    assert_eq!(get_best_card_swap(3, &m, &vec![1, 2, 3, 4]), Some(2));
}

#[test]
fn best_swap_targets_first_unknown_card() {
    let m = memory_with(vec![(1, 4), (2, 4)], vec![]);
    assert_eq!(get_best_card_swap(5, &m, &vec![1, 2, 3, 4]), Some(3));
    assert_eq!(get_best_card_swap(6, &m, &vec![1, 2, 3, 4]), None);
}

#[test]
fn first_unknown_card_in_hand_order() {
    let m = memory_with(vec![(1, 4), (3, 4)], vec![]);
    assert_eq!(get_unknown_card_hand(&m, &vec![1, 3, 4, 2]), Some(4));
    assert_eq!(get_unknown_card_hand(&m, &vec![1, 3]), None);
}

#[test]
fn no_round_end_in_first_turns() {
    let m = memory_with(vec![(1, 1), (2, 1), (3, 1), (4, 1)], vec![]);
    assert!(!should_end_round(&m, &vec![1, 2, 3, 4], &vec![10, 11], 3));
    assert!(!should_end_round(&m, &vec![1, 2, 3, 4], &vec![10, 11], 4));
}

#[test]
fn round_end_by_own_score_and_turns() {
    let m = memory_with(vec![(1, 6), (2, 6), (3, 6)], vec![]);
    let hand = vec![1, 2, 3];
    assert!(should_end_round(&m, &hand, &vec![10, 11, 12], 6));
    assert!(!should_end_round(&m, &hand, &vec![10, 11, 12], 5));
}

#[test]
fn round_end_with_low_score_after_five_turns() {
    let m = memory_with(vec![(1, 5), (2, 5), (3, 5)], vec![]);
    assert!(should_end_round(&m, &vec![1, 2, 3], &vec![10], 5));
}

#[test]
fn high_known_card_blocks_round_end() {
    let m = memory_with(vec![(1, 10), (2, 1)], vec![]);
    assert!(!should_end_round(&m, &vec![1, 2], &vec![10, 11], 6));
    let m2 = memory_with(vec![(1, 10), (2, 1)], vec![(10, 12), (11, 12)]);
    assert!(!should_end_round(&m2, &vec![1, 2], &vec![10, 11], 9));
}

#[test]
fn round_end_by_margin_over_known_opponent() {
    let m = memory_with(vec![(1, 2), (2, 3)], vec![(10, 9)]);
    // own 5, opponent 9 plus one unknown card: margin well below -3
    assert!(should_end_round(&m, &vec![1, 2], &vec![10, 11], 5));
    let close = memory_with(vec![(1, 7), (2, 8)], vec![(10, 9), (11, 8)]);
    // own 15, opponent 17: margin -2
    assert!(!should_end_round(&close, &vec![1, 2], &vec![10, 11], 5));
}
