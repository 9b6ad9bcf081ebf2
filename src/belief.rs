use vstd::prelude::*;
use crate::component::{AIMemory, CardInfo, insert_entry, record_entry, keys_unique};

verus! {

/// The (id, value) pair of each card, in order.
pub open spec fn card_pairs(cards: Seq<CardInfo>) -> Seq<(u64, u8)> {
    cards.map_values(|c: CardInfo| (c.id, c.value))
}

/// The (id, value) pair of each face-up card, in order.
pub open spec fn face_up_pairs(cards: Seq<CardInfo>) -> Seq<(u64, u8)>
    decreases cards.len(),
{
    if cards.len() == 0 {
        Seq::empty()
    } else {
        let prev = face_up_pairs(cards.drop_last());
        if cards.last().face_up {
            prev.push((cards.last().id, cards.last().value))
        } else {
            prev
        }
    }
}

/// The table after recording each pair in turn.
pub open spec fn record_all(entries: Seq<(u64, u8)>, pairs: Seq<(u64, u8)>) -> Seq<(u64, u8)>
    decreases pairs.len(),
{
    if pairs.len() == 0 {
        entries
    } else {
        let prev = record_all(entries, pairs.drop_last());
        insert_entry(prev, pairs.last().0, pairs.last().1)
    }
}

/// The discard values after noting each value of `values` not seen before.
pub open spec fn note_discards(seen: Seq<u8>, values: Seq<u8>) -> Seq<u8>
    decreases values.len(),
{
    if values.len() == 0 {
        seen
    } else {
        let prev = note_discards(seen, values.drop_last());
        if prev.contains(values.last()) {
            prev
        } else {
            prev.push(values.last())
        }
    }
}

/// The first two cards of a hand (fewer if the hand is shorter).
pub open spec fn opening(hand: Seq<CardInfo>) -> Seq<CardInfo> {
    if hand.len() < 2 {
        hand
    } else {
        hand.take(2)
    }
}

/// Copies the first two cards of `hand`.
pub fn opening_cards(hand: &Vec<CardInfo>) -> (r: Vec<CardInfo>)
    ensures
        r@ == opening(hand@),
{
    let mut r: Vec<CardInfo> = Vec::new();
    let mut i: usize = 0;
    while i < hand.len() && i < 2
        invariant
            i <= hand@.len(),
            i <= 2,
            r@ == hand@.take(i as int),
        decreases hand@.len() - i,
    {
        r.push(hand[i]);
        i = i + 1;
        assert(r@ == hand@.take(i as int));
    }
    if hand.len() < 2 {
        assert(hand@.take(i as int) == hand@);
    }
    r
}

pub(crate) fn pairs_of(cards: &Vec<CardInfo>, face_up_only: bool) -> (r: Vec<(u64, u8)>)
    ensures
        face_up_only ==> r@ == face_up_pairs(cards@),
        !face_up_only ==> r@ == card_pairs(cards@),
{
    let mut r: Vec<(u64, u8)> = Vec::new();
    let mut i: usize = 0;
    while i < cards.len()
        invariant
            i <= cards@.len(),
            face_up_only ==> r@ == face_up_pairs(cards@.take(i as int)),
            !face_up_only ==> r@ == card_pairs(cards@.take(i as int)),
        decreases cards@.len() - i,
    {
        assert(cards@.take(i + 1).drop_last() == cards@.take(i as int));
        let c = cards[i];
        if !face_up_only || c.face_up {
            r.push((c.id, c.value));
        }
        i = i + 1;
        assert(card_pairs(cards@.take(i as int)) == card_pairs(cards@.take(i - 1)).push(
            (c.id, c.value),
        ));
    }
    assert(cards@.take(i as int) == cards@);
    r
}

pub(crate) fn record_pairs(entries: &mut Vec<(u64, u8)>, pairs: &Vec<(u64, u8)>)
    requires
        keys_unique(old(entries)@),
    ensures
        keys_unique(final(entries)@),
        final(entries)@ == record_all(old(entries)@, pairs@),
{
    let mut i: usize = 0;
    while i < pairs.len()
        invariant
            i <= pairs@.len(),
            keys_unique(entries@),
            entries@ == record_all(old(entries)@, pairs@.take(i as int)),
        decreases pairs@.len() - i,
    {
        assert(pairs@.take(i + 1).drop_last() == pairs@.take(i as int));
        record_entry(entries, pairs[i].0, pairs[i].1);
        i = i + 1;
    }
    assert(pairs@.take(i as int) == pairs@);
}

fn note_discard_values(seen: &mut Vec<u8>, values: &Vec<u8>)
    ensures
        final(seen)@ == note_discards(old(seen)@, values@),
{
    let mut i: usize = 0;
    while i < values.len()
        invariant
            i <= values@.len(),
            seen@ == note_discards(old(seen)@, values@.take(i as int)),
        decreases values@.len() - i,
    {
        assert(values@.take(i + 1).drop_last() == values@.take(i as int));
        let v = values[i];
        let mut found = false;
        let mut j: usize = 0;
        while j < seen.len()
            invariant
                j <= seen@.len(),
                found <==> exists|k: int| 0 <= k < j && seen@[k] == v,
            decreases seen@.len() - j,
        {
            if seen[j] == v {
                found = true;
            }
            j = j + 1;
        }
        if !found {
            seen.push(v);
        }
        i = i + 1;
    }
    assert(values@.take(i as int) == values@);
}

/// Sets up the belief state at the deal: the first two cards of the AI's hand become known and
/// are kept as its initial cards.
pub fn initialize_ai_memory(hand: &Vec<CardInfo>) -> (r: AIMemory)
    ensures
        r.wf(),
        r.initial_cards@ == card_pairs(opening(hand@)),
        r.known_cards@ == record_all(Seq::empty(), card_pairs(opening(hand@))),
        r.seen_discards@.len() == 0,
        r.opponent_known_cards@.len() == 0,
        r.turns_played == 0,
{
    let mut memory = AIMemory::new();
    let first = opening_cards(hand);
    let pairs = pairs_of(&first, false);
    record_pairs(&mut memory.known_cards, &pairs);
    memory.initial_cards = pairs;
    memory
}

/// Observes the table: face-up cards of the AI's hand become known, values in the graveyard
/// are noted once each, and face-up cards in the opponent's hand become known opponent cards.
pub fn update_ai_memory(
    memory: &mut AIMemory,
    own_hand: &Vec<CardInfo>,
    graveyard_values: &Vec<u8>,
    opponent_cards: &Vec<CardInfo>,
)
    requires
        old(memory).wf(),
    ensures
        final(memory).wf(),
        final(memory).known_cards@ == record_all(
            old(memory).known_cards@,
            face_up_pairs(own_hand@),
        ),
        final(memory).seen_discards@ == note_discards(
            old(memory).seen_discards@,
            graveyard_values@,
        ),
        final(memory).opponent_known_cards@ == record_all(
            old(memory).opponent_known_cards@,
            face_up_pairs(opponent_cards@),
        ),
        final(memory).initial_cards@ == old(memory).initial_cards@,
        final(memory).turns_played == old(memory).turns_played,
{
    let own = pairs_of(own_hand, true);
    record_pairs(&mut memory.known_cards, &own);
    note_discard_values(&mut memory.seen_discards, graveyard_values);
    let theirs = pairs_of(opponent_cards, true);
    record_pairs(&mut memory.opponent_known_cards, &theirs);
}

} // verus!
