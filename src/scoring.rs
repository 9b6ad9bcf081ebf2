use vstd::prelude::*;
use crate::component::{
    AIMemory, Belief, find_entry, keys_unique, lookup, sum_entries, sum_values,
};

verus! {

/// Number of cards in the full card set.
pub const DECK_SIZE: u64 = 48;

/// Sum of the values of the full card set.
pub const DECK_TOTAL: u64 = 312;

/// A value held exactly as the fraction `num / den`.
#[derive(Clone, Copy, Debug, PartialEq, Eq, Structural)]
pub struct Fraction {
    pub num: i128,
    pub den: i128,
}

/// Numerator of the expected value of an unseen card.
pub open spec fn expected_num(m: Belief) -> int {
    if m.accounted_count() >= DECK_SIZE {
        13
    } else {
        DECK_TOTAL - m.accounted_sum()
    }
}

/// Denominator of the expected value of an unseen card.
pub open spec fn expected_den(m: Belief) -> int {
    if m.accounted_count() >= DECK_SIZE {
        2
    } else {
        DECK_SIZE - m.accounted_count()
    }
}

/// Estimated hand total, scaled by `den`: a card recorded in `table` counts its value,
/// any other card counts the expected value `num / den`.
pub open spec fn hand_score(table: Seq<(u64, u8)>, hand: Seq<u64>, num: int, den: int) -> int
    decreases hand.len(),
{
    if hand.len() == 0 {
        0
    } else {
        hand_score(table, hand.drop_last(), num, den) + match lookup(table, hand.last()) {
            Some(v) => v * den,
            None => num,
        }
    }
}

fn table_sum(entries: &Vec<(u64, u8)>) -> (r: u64)
    requires
        entries@.len() < DECK_SIZE,
    ensures
        r == sum_entries(entries@),
        r <= 255 * entries@.len(),
{
    let mut total: u64 = 0;
    let mut i: usize = 0;
    while i < entries.len()
        invariant
            i <= entries@.len() < DECK_SIZE,
            total == sum_entries(entries@.take(i as int)),
            total <= 255 * i,
        decreases entries@.len() - i,
    {
        assert(entries@.take(i + 1).drop_last() == entries@.take(i as int));
        total = total + entries[i].1 as u64;
        i = i + 1;
    }
    assert(entries@.take(i as int) == entries@);
    total
}

fn values_sum(values: &Vec<u8>) -> (r: u64)
    requires
        values@.len() < DECK_SIZE,
    ensures
        r == sum_values(values@),
        r <= 255 * values@.len(),
{
    let mut total: u64 = 0;
    let mut i: usize = 0;
    while i < values.len()
        invariant
            i <= values@.len() < DECK_SIZE,
            total == sum_values(values@.take(i as int)),
            total <= 255 * i,
        decreases values@.len() - i,
    {
        assert(values@.take(i + 1).drop_last() == values@.take(i as int));
        total = total + values[i] as u64;
        i = i + 1;
    }
    assert(values@.take(i as int) == values@);
    total
}

/// Expected value of a card the AI cannot see: the value left in the card set over the
/// number of cards left, or 13/2 once every card is accounted for.
pub fn calculate_expected_value(m: &AIMemory) -> (r: Fraction)
    ensures
        r.num == expected_num(m@),
        r.den == expected_den(m@),
        r.den > 0,
        -12000 <= r.num <= DECK_TOTAL,
        r.den <= DECK_SIZE,
{
    let a = m.known_cards.len();
    let b = m.seen_discards.len();
    let c = m.opponent_known_cards.len();
    if a >= 48 || b >= 48 || c >= 48 || a + b + c >= 48 {
        return Fraction { num: 13, den: 2 };
    }
    let total = table_sum(&m.known_cards) + values_sum(&m.seen_discards) + table_sum(
        &m.opponent_known_cards,
    );
    let count = (a + b + c) as i128;
    Fraction { num: DECK_TOTAL as i128 - total as i128, den: DECK_SIZE as i128 - count }
}

/// Estimated total of `hand` as `scaled / den`, counting each card recorded in `table` at its
/// value and every other card at the expected value.
pub fn estimate_hand_score(m: &AIMemory, table: &Vec<(u64, u8)>, hand: &Vec<u64>) -> (r: Fraction)
    requires
        keys_unique(table@),
    ensures
        r.den == expected_den(m@),
        r.num == hand_score(table@, hand@, expected_num(m@), expected_den(m@)),
        -12240 * hand@.len() <= r.num <= 12240 * hand@.len(),
{
    let e = calculate_expected_value(m);
    let mut total: i128 = 0;
    let mut i: usize = 0;
    while i < hand.len()
        invariant
            i <= hand@.len(),
            keys_unique(table@),
            e.num == expected_num(m@),
            e.den == expected_den(m@),
            0 < e.den <= DECK_SIZE,
            -12000 <= e.num <= DECK_TOTAL,
            total == hand_score(table@, hand@.take(i as int), e.num as int, e.den as int),
            -12240 * i <= total <= 12240 * i,
        decreases hand@.len() - i,
    {
        assert(hand@.take(i + 1).drop_last() == hand@.take(i as int));
        assert(i < 0x1_0000_0000_0000_0000);
        let term: i128 = match find_entry(table, hand[i]) {
            Some(v) => {
                assert(0 <= v * e.den <= 255 * 48) by (nonlinear_arith)
                    requires
                        0 <= v <= 255,
                        0 < e.den <= 48,
                ;
                v as i128 * e.den
            },
            None => e.num,
        };
        total = total + term;
        i = i + 1;
    }
    assert(hand@.take(i as int) == hand@);
    Fraction { num: total, den: e.den }
}

/// Estimated total of the AI's own hand, from the own cards it has seen.
pub fn estimate_own_score(m: &AIMemory, hand: &Vec<u64>) -> (r: Fraction)
    requires
        m.wf(),
    ensures
        r.den == expected_den(m@),
        r.num == hand_score(m.known_cards@, hand@, expected_num(m@), expected_den(m@)),
        -12240 * hand@.len() <= r.num <= 12240 * hand@.len(),
{
    estimate_hand_score(m, &m.known_cards, hand)
}

/// Estimated total of the opponent's hand, from the opponent cards the AI has seen.
pub fn estimate_opponent_score(m: &AIMemory, hand: &Vec<u64>) -> (r: Fraction)
    requires
        m.wf(),
    ensures
        r.den == expected_den(m@),
        r.num == hand_score(
            m.opponent_known_cards@,
            hand@,
            expected_num(m@),
            expected_den(m@),
        ),
        -12240 * hand@.len() <= r.num <= 12240 * hand@.len(),
{
    estimate_hand_score(m, &m.opponent_known_cards, hand)
}

/// How many times `v` occurs in `values`.
pub open spec fn count_of(values: Seq<u8>, v: int) -> int
    decreases values.len(),
{
    if values.len() == 0 {
        0
    } else {
        count_of(values.drop_last(), v) + if values.last() == v {
            1int
        } else {
            0
        }
    }
}

/// The values of a table's entries, in order.
pub open spec fn entry_values(entries: Seq<(u64, u8)>) -> Seq<u8> {
    entries.map_values(|p: (u64, u8)| p.1)
}

/// Every value the belief state accounts for, own cards, discards and opponent cards together.
pub open spec fn accounted_values(m: Belief) -> Seq<u8> {
    entry_values(m.known_cards) + m.seen_discards + entry_values(m.opponent_known_cards)
}

/// The values could all have been drawn from the full card set: each value lies in 1..=12
/// and occurs at most four times.
pub open spec fn fits_card_set(values: Seq<u8>) -> bool {
    &&& forall|i: int| 0 <= i < values.len() ==> 1 <= #[trigger] values[i] <= 12
    &&& forall|v: int| 1 <= v <= 12 ==> #[trigger] count_of(values, v) <= 4
}

spec fn count_upto(values: Seq<u8>, k: int) -> int
    decreases k,
{
    if k <= 0 {
        0
    } else {
        count_upto(values, k - 1) + count_of(values, k)
    }
}

spec fn weight_upto(values: Seq<u8>, k: int) -> int
    decreases k,
{
    if k <= 0 {
        0
    } else {
        weight_upto(values, k - 1) + k * count_of(values, k)
    }
}

proof fn lemma_upto_push(values: Seq<u8>, k: int)
    requires
        values.len() > 0,
        k >= 0,
    ensures
        count_upto(values, k) == count_upto(values.drop_last(), k) + if 1 <= values.last() <= k {
            1int
        } else {
            0
        },
        weight_upto(values, k) == weight_upto(values.drop_last(), k) + if 1 <= values.last()
            <= k {
            values.last() as int
        } else {
            0
        },
    decreases k,
{
    if k > 0 {
        lemma_upto_push(values, k - 1);
        let c = count_of(values.drop_last(), k);
        assert(k * (c + 1) == k * c + k) by (nonlinear_arith);
    }
}

proof fn lemma_upto_total(values: Seq<u8>)
    requires
        forall|i: int| 0 <= i < values.len() ==> 1 <= #[trigger] values[i] <= 12,
    ensures
        count_upto(values, 12) == values.len(),
        weight_upto(values, 12) == sum_values(values),
    decreases values.len(),
{
    if values.len() > 0 {
        let init = values.drop_last();
        assert forall|i: int| 0 <= i < init.len() implies 1 <= #[trigger] init[i] <= 12 by {
            assert(init[i] == values[i]);
        }
        assert(values.last() == values[values.len() - 1]);
        lemma_upto_total(init);
        lemma_upto_push(values, 12);
    } else {
        lemma_upto_empty(values, 12);
    }
}

proof fn lemma_upto_empty(values: Seq<u8>, k: int)
    requires
        values.len() == 0,
    ensures
        count_upto(values, k) == 0,
        weight_upto(values, k) == 0,
    decreases k,
{
    if k > 0 {
        lemma_upto_empty(values, k - 1);
    }
}

proof fn lemma_remaining_bounds(values: Seq<u8>, k: int)
    requires
        0 <= k <= 12,
        forall|v: int| 1 <= v <= 12 ==> #[trigger] count_of(values, v) <= 4,
    ensures
        0 <= 2 * k * (k + 1) - weight_upto(values, k) <= 12 * (4 * k - count_upto(values, k)),
        count_upto(values, k) <= 4 * k,
    decreases k,
{
    if k > 0 {
        lemma_remaining_bounds(values, k - 1);
        let c = count_of(values, k);
        assert(c <= 4);
        assert(count_of(values, k) >= 0) by {
            lemma_count_nonneg(values, k);
        }
        assert(0 <= k * (4 - c) <= 12 * (4 - c)) by (nonlinear_arith)
            requires
                0 < k <= 12,
                0 <= c <= 4,
        ;
        assert(2 * k * (k + 1) - 2 * (k - 1) * k == 4 * k) by (nonlinear_arith);
        assert(k * (4 - c) == 4 * k - k * c) by (nonlinear_arith);
    }
}

proof fn lemma_count_nonneg(values: Seq<u8>, v: int)
    ensures
        count_of(values, v) >= 0,
    decreases values.len(),
{
    if values.len() > 0 {
        lemma_count_nonneg(values.drop_last(), v);
    }
}

proof fn lemma_sum_append(a: Seq<u8>, b: Seq<u8>)
    ensures
        sum_values(a + b) == sum_values(a) + sum_values(b),
    decreases b.len(),
{
    if b.len() > 0 {
        assert((a + b).drop_last() == a + b.drop_last());
        lemma_sum_append(a, b.drop_last());
    } else {
        assert(a + b == a);
    }
}

proof fn lemma_entry_values_sum(entries: Seq<(u64, u8)>)
    ensures
        sum_values(entry_values(entries)) == sum_entries(entries),
        entry_values(entries).len() == entries.len(),
    decreases entries.len(),
{
    if entries.len() > 0 {
        assert(entry_values(entries).drop_last() == entry_values(entries.drop_last()));
        lemma_entry_values_sum(entries.drop_last());
    }
}

/// For a belief state whose values could all come from the full card set, the expected value
/// of an unseen card lies between 0 and 12, and it is exactly 13/2 once all 48 cards are
/// accounted for.
pub proof fn lemma_expected_value_range(m: Belief)
    requires
        fits_card_set(accounted_values(m)),
    ensures
        0 <= expected_num(m) <= 12 * expected_den(m),
        expected_den(m) > 0,
        m.accounted_count() <= DECK_SIZE,
        m.accounted_count() == DECK_SIZE ==> expected_num(m) == 13 && expected_den(m) == 2,
{
    let vals = accounted_values(m);
    lemma_entry_values_sum(m.known_cards);
    lemma_entry_values_sum(m.opponent_known_cards);
    lemma_sum_append(entry_values(m.known_cards), m.seen_discards);
    lemma_sum_append(entry_values(m.known_cards) + m.seen_discards, entry_values(m.opponent_known_cards));
    lemma_upto_total(vals);
    lemma_remaining_bounds(vals, 12);
}

} // verus!
