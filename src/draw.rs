use vstd::prelude::*;
use crate::system::Turn;

verus! {

/// Where a card lies.
#[derive(Clone, Copy, Debug, PartialEq, Eq, Structural)]
pub enum CardPosition {
    /// in the hand of the player with this id
    Hand(u64),
    Graveyard,
    Deck,
    /// just drawn by the player with this id
    DrawnCard(u64),
}

/// A card of the table.
#[derive(Clone, Copy, Debug, PartialEq, Eq, Structural)]
pub struct Card {
    pub id: u64,
    pub value: u8,
    pub face_up: bool,
    pub position: CardPosition,
    pub owner_id: Option<u64>,
    pub from_deck: bool,
    pub is_being_dealt: bool,
}

/// Some card of `cards` has id `id`.
pub open spec fn has_card(cards: Seq<Card>, id: u64) -> bool {
    exists|i: int| 0 <= i < cards.len() && (#[trigger] cards[i]).id == id
}

/// Index of the first card with id `id`.
pub open spec fn card_index(cards: Seq<Card>, id: u64) -> int {
    choose|i: int|
        0 <= i < cards.len() && (#[trigger] cards[i]).id == id && forall|j: int|
            0 <= j < i ==> (#[trigger] cards[j]).id != id
}

/// The card as it stands once the player `player` has drawn it.
pub open spec fn drawn_by(c: Card, player: u64, from_deck: bool) -> Card {
    Card {
        position: CardPosition::DrawnCard(player),
        owner_id: Some(player),
        face_up: true,
        from_deck,
        is_being_dealt: if from_deck {
            true
        } else {
            c.is_being_dealt
        },
        ..c
    }
}

/// The cards after the player `player` draws card `id`; unchanged when no card has that id.
pub open spec fn draw_card(cards: Seq<Card>, id: u64, player: u64, from_deck: bool) -> Seq<Card> {
    if has_card(cards, id) {
        let i = card_index(cards, id);
        cards.update(i, drawn_by(cards[i], player, from_deck))
    } else {
        cards
    }
}

fn find_card(cards: &Vec<Card>, id: u64) -> (r: Option<usize>)
    ensures
        match r {
            Some(i) => i < cards@.len() && has_card(cards@, id) && i == card_index(cards@, id),
            None => !has_card(cards@, id),
        },
{
    let mut i: usize = 0;
    while i < cards.len()
        invariant
            i <= cards@.len(),
            forall|j: int| 0 <= j < i ==> (#[trigger] cards@[j]).id != id,
        decreases cards@.len() - i,
    {
        if cards[i].id == id {
            assert(has_card(cards@, id));
            assert(0 <= i < cards@.len() && cards@[i as int].id == id && forall|j: int|
                0 <= j < i ==> (#[trigger] cards@[j]).id != id);
            let ghost k = card_index(cards@, id);
            assert(0 <= k < cards@.len() && cards@[k].id == id && forall|j: int|
                0 <= j < k ==> (#[trigger] cards@[j]).id != id);
            proof {
                if k < i as int {
                    assert(cards@[k].id != id);
                }
                if (i as int) < k {
                    assert(cards@[i as int].id != id);
                }
            }
            return Some(i);
        }
        i = i + 1;
    }
    None
}

fn mark_drawn(cards: &mut Vec<Card>, id: u64, player: u64, from_deck: bool) -> (found: bool)
    ensures
        found == has_card(old(cards)@, id),
        final(cards)@ == draw_card(old(cards)@, id, player, from_deck),
{
    match find_card(cards, id) {
        Some(i) => {
            let c = cards[i];
            let updated = Card {
                position: CardPosition::DrawnCard(player),
                owner_id: Some(player),
                face_up: true,
                from_deck,
                is_being_dealt: if from_deck {
                    true
                } else {
                    c.is_being_dealt
                },
                ..c
            };
            cards.set(i, updated);
            true
        },
        None => false,
    }
}

/// The AI draws the graveyard's top card: it leaves the graveyard and becomes the AI's drawn
/// card, face up and not from the deck. Nothing happens when the graveyard is empty.
pub fn handle_graveyard_logic(
    graveyard: &mut Vec<u64>,
    turn: &mut Turn,
    cards: &mut Vec<Card>,
    ai_entity: u64,
)
    ensures
        old(graveyard)@.len() == 0 ==> final(graveyard)@ == old(graveyard)@ && final(cards)@
            == old(cards)@ && *final(turn) == *old(turn),
        old(graveyard)@.len() > 0 ==> {
            let top = old(graveyard)@.last();
            &&& final(graveyard)@ == old(graveyard)@.drop_last()
            &&& final(cards)@ == draw_card(old(cards)@, top, ai_entity, false)
            &&& final(turn).current_player == old(turn).current_player
            &&& final(turn).has_drawn_card == (old(turn).has_drawn_card || has_card(
                old(cards)@,
                top,
            ))
        },
{
    let top = match graveyard.pop() {
        Some(t) => t,
        None => return,
    };
    if mark_drawn(cards, top, ai_entity, false) {
        turn.has_drawn_card = true;
    }
}

/// The AI draws the deck's front card: it leaves the deck and becomes the AI's drawn card,
/// face up, from the deck and being dealt. Returns whether a card was drawn, which is when the
/// draw sound plays. Nothing happens when the deck is empty.
pub fn handle_deck_logic(
    deck: &mut Vec<u64>,
    turn: &mut Turn,
    cards: &mut Vec<Card>,
    ai_entity: u64,
) -> (drawn: bool)
    ensures
        old(deck)@.len() == 0 ==> final(deck)@ == old(deck)@ && final(cards)@ == old(cards)@
            && *final(turn) == *old(turn) && !drawn,
        old(deck)@.len() > 0 ==> {
            let front = old(deck)@[0];
            &&& final(deck)@ == old(deck)@.subrange(1, old(deck)@.len() as int)
            &&& final(cards)@ == draw_card(old(cards)@, front, ai_entity, true)
            &&& drawn == has_card(old(cards)@, front)
            &&& final(turn).current_player == old(turn).current_player
            &&& final(turn).has_drawn_card == (old(turn).has_drawn_card || drawn)
        },
{
    if deck.len() == 0 {
        return false;
    }
    let front = deck.remove(0);
    let found = mark_drawn(cards, front, ai_entity, true);
    if found {
        turn.has_drawn_card = true;
    }
    found
}

} // verus!
