use vstd::prelude::*;
use crate::component::{AIMemory, Belief, find_entry, lookup};
use crate::scoring::{
    calculate_expected_value, estimate_opponent_score, estimate_own_score, expected_den,
    expected_num, hand_score,
};

verus! {

/// Whether the AI takes the graveyard's top card: it must be known, beat the worst known
/// card of the hand (when one is known), and beat the expected value of a blind draw.
pub open spec fn draw_from_graveyard(m: Belief, top: Option<u8>, worst: Option<u8>) -> bool {
    match top {
        None => false,
        Some(t) => (match worst {
            Some(w) => t < w,
            None => true,
        }) && t * expected_den(m) < expected_num(m),
    }
}

/// Decides where to draw from: `true` for the graveyard, `false` for the deck.
/// `graveyard_top` is the value of the graveyard's top card, if there is one and it is known;
/// `worst_card` is the value of the worst known card in the AI's hand.
pub fn should_draw(ai_memory: &AIMemory, graveyard_top: Option<u8>, worst_card: Option<u8>) -> (r:
    bool)
    ensures
        r == draw_from_graveyard(ai_memory@, graveyard_top, worst_card),
{
    let top = match graveyard_top {
        Some(t) => t,
        None => return false,
    };
    let e = calculate_expected_value(ai_memory);
    assert(0 <= top * e.den <= 255 * 48) by (nonlinear_arith)
        requires
            0 <= top <= 255,
            0 < e.den <= 48,
    ;
    let below_expected = (top as i128) * e.den < e.num;
    match worst_card {
        Some(w) => top < w && below_expected,
        None => below_expected,
    }
}

/// The known card of `hand` with the highest value; among equal values the first in hand order.
pub open spec fn worst_known(known: Seq<(u64, u8)>, hand: Seq<u64>) -> Option<(u64, u8)>
    decreases hand.len(),
{
    if hand.len() == 0 {
        None
    } else {
        let prev = worst_known(known, hand.drop_last());
        match lookup(known, hand.last()) {
            None => prev,
            Some(v) => match prev {
                None => Some((hand.last(), v)),
                Some(p) => if v > p.1 {
                    Some((hand.last(), v))
                } else {
                    prev
                },
            },
        }
    }
}

/// Some card of `hand` has a recorded value.
pub open spec fn any_known(known: Seq<(u64, u8)>, hand: Seq<u64>) -> bool {
    exists|i: int| 0 <= i < hand.len() && lookup(known, #[trigger] hand[i]) is Some
}

/// The first card of `hand` without a recorded value.
pub open spec fn first_unknown(known: Seq<(u64, u8)>, hand: Seq<u64>) -> Option<u64>
    decreases hand.len(),
{
    if hand.len() == 0 {
        None
    } else {
        match first_unknown(known, hand.drop_last()) {
            Some(c) => Some(c),
            None => if lookup(known, hand.last()) is None {
                Some(hand.last())
            } else {
                None
            },
        }
    }
}

/// Finds the worst (highest) known card in the AI's hand.
pub fn get_worst_known_card_hand(ai_memory: &AIMemory, hand: &Vec<u64>) -> (r: Option<(u64, u8)>)
    requires
        ai_memory.wf(),
    ensures
        r == worst_known(ai_memory.known_cards@, hand@),
{
    let mut worst: Option<(u64, u8)> = None;
    let mut i: usize = 0;
    while i < hand.len()
        invariant
            i <= hand@.len(),
            ai_memory.wf(),
            worst == worst_known(ai_memory.known_cards@, hand@.take(i as int)),
        decreases hand@.len() - i,
    {
        assert(hand@.take(i + 1).drop_last() == hand@.take(i as int));
        let card = hand[i];
        if let Some(value) = find_entry(&ai_memory.known_cards, card) {
            worst = match worst {
                None => Some((card, value)),
                Some(p) => if value > p.1 {
                    Some((card, value))
                } else {
                    Some(p)
                },
            };
        }
        i = i + 1;
    }
    assert(hand@.take(i as int) == hand@);
    worst
}

/// Whether a drawn card of value `drawn` should go into the hand.
pub open spec fn swap_wanted(drawn: u8, m: Belief, hand: Seq<u64>) -> bool {
    (match worst_known(m.known_cards, hand) {
        Some(w) => drawn < w.1,
        None => false,
    }) || drawn <= 4 || (drawn <= 6 && m.known_cards.len() < 4)
}

/// Decides whether to keep the drawn card (swap it into the hand) or discard it.
pub fn should_swap(drawn_card: u8, ai_memory: &AIMemory, hand: &Vec<u64>) -> (r: bool)
    requires
        ai_memory.wf(),
    ensures
        r == swap_wanted(drawn_card, ai_memory@, hand@),
{
    if let Some((_, worst_value)) = get_worst_known_card_hand(ai_memory, hand) {
        if drawn_card < worst_value {
            return true;
        }
    }
    if drawn_card <= 4 {
        return true;
    }
    if drawn_card <= 6 && ai_memory.known_cards.len() < 4 {
        return true;
    }
    false
}

/// The hand card that a drawn card of value `drawn` should replace, if any.
pub open spec fn swap_target(drawn: u8, m: Belief, hand: Seq<u64>) -> Option<u64> {
    match worst_known(m.known_cards, hand) {
        Some(w) if drawn < w.1 => Some(w.0),
        _ => if drawn <= 5 {
            first_unknown(m.known_cards, hand)
        } else {
            None
        },
    }
}

/// Chooses the hand card to replace with the drawn card; `None` means discard it.
pub fn get_best_card_swap(drawn_card_value: u8, ai_memory: &AIMemory, hand: &Vec<u64>) -> (r:
    Option<u64>)
    requires
        ai_memory.wf(),
    ensures
        r == swap_target(drawn_card_value, ai_memory@, hand@),
{
    if let Some((card, worst_value)) = get_worst_known_card_hand(ai_memory, hand) {
        if drawn_card_value < worst_value {
            return Some(card);
        }
    }
    if drawn_card_value <= 5 {
        return get_unknown_card_hand(ai_memory, hand);
    }
    None
}

/// Finds the first card of the hand whose value the AI has not seen.
pub fn get_unknown_card_hand(ai_memory: &AIMemory, hand: &Vec<u64>) -> (r: Option<u64>)
    requires
        ai_memory.wf(),
    ensures
        r == first_unknown(ai_memory.known_cards@, hand@),
{
    let mut i: usize = 0;
    while i < hand.len()
        invariant
            i <= hand@.len(),
            ai_memory.wf(),
            first_unknown(ai_memory.known_cards@, hand@.take(i as int)) is None,
        decreases hand@.len() - i,
    {
        assert(hand@.take(i + 1).drop_last() == hand@.take(i as int));
        if find_entry(&ai_memory.known_cards, hand[i]).is_none() {
            proof {
                lemma_first_unknown_prefix(ai_memory.known_cards@, hand@, i as int + 1);
            }
            return Some(hand[i]);
        }
        i = i + 1;
    }
    assert(hand@.take(i as int) == hand@);
    None
}

/// Once some prefix of the hand holds an unknown card, longer prefixes report the same card.
proof fn lemma_first_unknown_prefix(known: Seq<(u64, u8)>, hand: Seq<u64>, k: int)
    requires
        0 <= k <= hand.len(),
        first_unknown(known, hand.take(k)) is Some,
    ensures
        first_unknown(known, hand) == first_unknown(known, hand.take(k)),
    decreases hand.len() - k,
{
    if k < hand.len() {
        assert(hand.take(k + 1).drop_last() == hand.take(k));
        lemma_first_unknown_prefix(known, hand, k + 1);
    } else {
        assert(hand.take(k) == hand);
    }
}

/// Some card of `hand` has a recorded value of 10 or more.
pub open spec fn has_high_known(known: Seq<(u64, u8)>, hand: Seq<u64>) -> bool {
    exists|i: int|
        0 <= i < hand.len() && match lookup(known, #[trigger] hand[i]) {
            Some(v) => v >= 10,
            None => false,
        }
}

/// Whether the AI ends the round after `turns` turns. Scores are compared scaled by the
/// common denominator of the expected value.
pub open spec fn end_round_wanted(m: Belief, my_hand: Seq<u64>, opponent_hand: Seq<u64>, turns: u32) -> bool {
    let num = expected_num(m);
    let den = expected_den(m);
    let own = hand_score(m.known_cards, my_hand, num, den);
    let opp = hand_score(m.opponent_known_cards, opponent_hand, num, den);
    turns > 4 && !has_high_known(m.known_cards, my_hand) && if m.opponent_known_cards.len() == 0 {
        (own <= 20 * den && turns >= 6) || (own <= 15 * den && turns >= 5)
    } else {
        own - opp <= -3 * den
    }
}

/// Decides whether the AI ends the round.
pub fn should_end_round(
    ai_memory: &AIMemory,
    my_hand: &Vec<u64>,
    opponent_hand: &Vec<u64>,
    turn_count: u32,
) -> (r: bool)
    requires
        ai_memory.wf(),
    ensures
        r == end_round_wanted(ai_memory@, my_hand@, opponent_hand@, turn_count),
        turn_count <= 4 ==> !r,
        has_high_known(ai_memory.known_cards@, my_hand@) ==> !r,
{
    if turn_count <= 4 {
        return false;
    }
    let mut i: usize = 0;
    while i < my_hand.len()
        invariant
            i <= my_hand@.len(),
            ai_memory.wf(),
            forall|j: int|
                0 <= j < i ==> match lookup(ai_memory.known_cards@, #[trigger] my_hand@[j]) {
                    Some(v) => v < 10,
                    None => true,
                },
        decreases my_hand@.len() - i,
    {
        if let Some(v) = find_entry(&ai_memory.known_cards, my_hand[i]) {
            if v >= 10 {
                return false;
            }
        }
        i = i + 1;
    }
    let own = estimate_own_score(ai_memory, my_hand);
    let opp = estimate_opponent_score(ai_memory, opponent_hand);
    let den = own.den;
    assert(0 < den <= 48);
    if ai_memory.opponent_known_cards.len() == 0 {
        (own.num <= 20 * den && turn_count >= 6) || (own.num <= 15 * den && turn_count >= 5)
    } else {
        let a = my_hand.len();
        let b = opponent_hand.len();
        assert(-12240 * a <= own.num <= 12240 * a);
        assert(-12240 * b <= opp.num <= 12240 * b);
        own.num + 3 * den <= opp.num
    }
}

/// The worst known card is absent exactly when no card of the hand is known; otherwise it is
/// a card of the hand whose recorded value is at least that of every known card of the hand.
pub proof fn lemma_worst_known_card(known: Seq<(u64, u8)>, hand: Seq<u64>)
    ensures
        worst_known(known, hand) is None <==> !any_known(known, hand),
        worst_known(known, hand) matches Some(w) ==> {
            &&& hand.contains(w.0)
            &&& lookup(known, w.0) == Some(w.1)
            &&& forall|i: int|
                0 <= i < hand.len() ==> match lookup(known, #[trigger] hand[i]) {
                    Some(v) => v <= w.1,
                    None => true,
                }
        },
    decreases hand.len(),
{
    if hand.len() > 0 {
        let init = hand.drop_last();
        lemma_worst_known_card(known, init);
        assert forall|i: int| 0 <= i < init.len() implies #[trigger] init[i] == hand[i] by {}
        if any_known(known, init) {
            let i = choose|i: int| 0 <= i < init.len() && lookup(known, #[trigger] init[i]) is Some;
            assert(hand[i] == init[i]);
        }
        if any_known(known, hand) && lookup(known, hand.last()) is None {
            let i = choose|i: int| 0 <= i < hand.len() && lookup(known, #[trigger] hand[i]) is Some;
            assert(i < init.len());
            assert(init[i] == hand[i]);
        }
        if let Some(w) = worst_known(known, hand) {
            if let Some(p) = worst_known(known, init) {
                let k = choose|k: int| 0 <= k < init.len() && init[k] == p.0;
                assert(hand[k] == p.0);
            }
            assert(hand[hand.len() - 1] == hand.last());
            assert forall|i: int| 0 <= i < hand.len() implies match lookup(known, #[trigger] hand[i]) {
                Some(v) => v <= w.1,
                None => true,
            } by {
                if i < init.len() {
                    assert(init[i] == hand[i]);
                }
            }
        }
    }
}

} // verus!
