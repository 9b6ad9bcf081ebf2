use card_ai::belief::{initialize_ai_memory, update_ai_memory};
use card_ai::component::{AIDifficulty, AIMemory, AIPlayer, CardInfo};
use card_ai::draw::{handle_deck_logic, handle_graveyard_logic, Card, CardPosition};
use card_ai::system::{
    ai_turn_controller, check_round_end, AIAction, AIState, SpecialCardEffect, SpecialEffect,
    Turn, TurnView,
};

const AI: u64 = 100;
const HUMAN: u64 = 200;

fn card(id: u64, value: u8, face_up: bool) -> CardInfo {
    CardInfo { id, value, face_up, from_deck: false }
}

fn view(elapsed_ms: u64, drawn: Option<CardInfo>) -> TurnView {
    TurnView {
        elapsed_ms,
        own_hand: Some(vec![card(1, 3, true), card(2, 9, true), card(3, 5, false), card(4, 6, false)]),
        opponent: Some(HUMAN),
        opponent_hand: Some(vec![11, 12, 13, 14]),
        graveyard_top: Some(10),
        drawn,
    }
}

fn ai_turn() -> Turn {
    Turn { current_player: AI, has_drawn_card: false }
}

#[test]
fn default_state_is_idle() {
    assert_eq!(AIState::default(), AIState::Idle);
    let p = AIPlayer { difficulty: AIDifficulty::Hard };
    assert_eq!(p.difficulty, AIDifficulty::Hard);
}

#[test]
fn full_turn_draws_once_and_plays_once() {
    let mut state = AIState::Idle;
    let mut memory = AIMemory::new();
    let turn = ai_turn();
    let mut actions = Vec::new();
    let mut seen_executing_swap = false;
    for _ in 0..20 {
        let drawn = if actions.iter().any(|a| matches!(a, AIAction::DrawFromDeck | AIAction::DrawFromGraveyard)) {
            Some(CardInfo { id: 30, value: 2, face_up: true, from_deck: true })
        } else {
            None
        };
        if matches!(state, AIState::ExecutingSwap { .. }) {
            seen_executing_swap = true;
        }
        let a = ai_turn_controller(&mut state, &mut memory, AI, &turn, &view(400, drawn));
        actions.push(a);
        if seen_executing_swap && state == AIState::Idle {
            break;
        }
    }
    assert!(seen_executing_swap);
    assert_eq!(state, AIState::Idle);
    let draws = actions.iter().filter(|a| matches!(a, AIAction::DrawFromDeck | AIAction::DrawFromGraveyard)).count();
    let plays = actions.iter().filter(|a| matches!(a, AIAction::Swap { .. } | AIAction::Discard { .. })).count();
    assert_eq!(draws, 1);
    assert_eq!(plays, 1);
    assert_eq!(memory.turns_played, 1);
    // graveyard top 10 is above expectation: deck draw; drawn 2 replaces the known 9
    assert!(actions.contains(&AIAction::DrawFromDeck));
    assert_eq!(*actions.last().unwrap(), AIAction::Swap { target: 2, drawn: 30 });
    assert_eq!(memory.initial_cards, vec![(1, 3), (2, 9)]);
}

#[test]
fn timer_counts_down_in_milliseconds() {
    let mut state = AIState::Thinking { timer_ms: 1000 };
    let mut memory = AIMemory::new();
    let turn = ai_turn();
    let a = ai_turn_controller(&mut state, &mut memory, AI, &turn, &view(300, None));
    assert_eq!(a, AIAction::Wait);
    assert_eq!(state, AIState::Thinking { timer_ms: 700 });
    ai_turn_controller(&mut state, &mut memory, AI, &turn, &view(0, None));
    assert_eq!(state, AIState::Thinking { timer_ms: 700 });
    ai_turn_controller(&mut state, &mut memory, AI, &turn, &view(700, None));
    assert_eq!(state, AIState::DecidingDraw);
}

#[test]
fn turn_change_mid_thinking_swap_resets_to_idle() {
    let mut state = AIState::ThinkingSwap { timer_ms: 500, drawn_card: 30 };
    let mut memory = AIMemory::new();
    memory.known_cards = vec![(1, 3)];
    let turn = Turn { current_player: HUMAN, has_drawn_card: true };
    let drawn = Some(CardInfo { id: 30, value: 2, face_up: true, from_deck: true });
    let a = ai_turn_controller(&mut state, &mut memory, AI, &turn, &view(1000, drawn));
    assert_eq!(state, AIState::Idle);
    assert_eq!(a, AIAction::Wait);
    assert_eq!(memory.turns_played, 0);
    assert_eq!(memory.known_cards, vec![(1, 3)]);
}

#[test]
fn executing_draw_waits_for_drawn_card() {
    let mut state = AIState::ExecutingDraw;
    let mut memory = AIMemory::new();
    let turn = ai_turn();
    ai_turn_controller(&mut state, &mut memory, AI, &turn, &view(100, None));
    assert_eq!(state, AIState::ExecutingDraw);
    let drawn = Some(card(30, 4, true));
    ai_turn_controller(&mut state, &mut memory, AI, &turn, &view(100, drawn));
    assert_eq!(state, AIState::ThinkingSwap { timer_ms: 1000, drawn_card: 30 });
}

#[test]
fn deck_special_card_activates_effect() {
    let mut state = AIState::ThinkingSwap { timer_ms: 100, drawn_card: 30 };
    let mut memory = AIMemory::new();
    let turn = ai_turn();
    let drawn = Some(CardInfo { id: 30, value: 11, face_up: true, from_deck: true });
    ai_turn_controller(&mut state, &mut memory, AI, &turn, &view(200, drawn));
    assert_eq!(state, AIState::ActivatingSpecial { drawn_card: 30 });
    let a = ai_turn_controller(&mut state, &mut memory, AI, &turn, &view(200, drawn));
    assert_eq!(
        a,
        AIAction::Special(SpecialCardEffect {
            card_entity: 30,
            effect_type: SpecialEffect::Shuffle,
            target_player: Some(HUMAN),
            target_card: None,
            own_card: None,
        })
    );
    assert_eq!(state, AIState::DecidingSwap { drawn_card: 30 });
}

#[test]
fn graveyard_special_card_has_no_effect() {
    let mut state = AIState::ThinkingSwap { timer_ms: 100, drawn_card: 30 };
    let mut memory = AIMemory::new();
    let turn = ai_turn();
    let drawn = Some(CardInfo { id: 30, value: 9, face_up: true, from_deck: false });
    ai_turn_controller(&mut state, &mut memory, AI, &turn, &view(200, drawn));
    assert_eq!(state, AIState::DecidingSwap { drawn_card: 30 });
}

#[test]
fn reveal_effect_request() {
    let mut state = AIState::ActivatingSpecial { drawn_card: 30 };
    let mut memory = AIMemory::new();
    let drawn = Some(CardInfo { id: 30, value: 9, face_up: true, from_deck: true });
    let a = ai_turn_controller(&mut state, &mut memory, AI, &ai_turn(), &view(0, drawn));
    assert_eq!(
        a,
        AIAction::Special(SpecialCardEffect {
            card_entity: 30,
            effect_type: SpecialEffect::Reveal,
            target_player: None,
            target_card: None,
            own_card: None,
        })
    );
}

#[test]
fn swap_effect_takes_highest_known_opponent_card() {
    let mut state = AIState::ActivatingSpecial { drawn_card: 30 };
    let mut memory = AIMemory::new();
    memory.known_cards = vec![(1, 3), (2, 9)];
    memory.opponent_known_cards = vec![(11, 4), (13, 8), (14, 8)];
    let drawn = Some(CardInfo { id: 30, value: 7, face_up: true, from_deck: true });
    let a = ai_turn_controller(&mut state, &mut memory, AI, &ai_turn(), &view(0, drawn));
    assert_eq!(
        a,
        AIAction::Special(SpecialCardEffect {
            card_entity: 30,
            effect_type: SpecialEffect::Swap,
            target_player: None,
            target_card: Some(13),
            own_card: Some(2),
        })
    );
    assert_eq!(state, AIState::DecidingSwap { drawn_card: 30 });
}

#[test]
fn swap_effect_skipped_without_known_own_card() {
    let mut state = AIState::ActivatingSpecial { drawn_card: 30 };
    let mut memory = AIMemory::new();
    let drawn = Some(CardInfo { id: 30, value: 7, face_up: true, from_deck: true });
    let a = ai_turn_controller(&mut state, &mut memory, AI, &ai_turn(), &view(0, drawn));
    assert_eq!(a, AIAction::Wait);
    assert_eq!(state, AIState::DecidingSwap { drawn_card: 30 });
}

#[test]
fn deciding_swap_discards_high_card() {
    let mut state = AIState::DecidingSwap { drawn_card: 30 };
    let mut memory = AIMemory::new();
    memory.known_cards = vec![(1, 3), (2, 4), (3, 5), (4, 6)];
    let drawn = Some(card(30, 12, true));
    ai_turn_controller(&mut state, &mut memory, AI, &ai_turn(), &view(0, drawn));
    assert_eq!(state, AIState::ExecutingSwap { drawn_card_entity: 30, target_card_entity: None });
    let a = ai_turn_controller(&mut state, &mut memory, AI, &ai_turn(), &view(0, drawn));
    assert_eq!(a, AIAction::Discard { drawn: 30 });
    assert_eq!(state, AIState::Idle);
    assert_eq!(memory.turns_played, 1);
}

#[test]
fn round_end_check_after_turn() {
    let mut memory = AIMemory::new();
    memory.known_cards = vec![(1, 3), (2, 2), (3, 5), (4, 6)];
    memory.turns_played = 6;
    assert!(check_round_end(&memory, &view(0, None)));
    memory.turns_played = 4;
    assert!(!check_round_end(&memory, &view(0, None)));
    memory.turns_played = 6;
    let mut v = view(0, None);
    v.opponent_hand = None;
    assert!(!check_round_end(&memory, &v));
}

#[test]
fn initial_memory_knows_first_two_cards() {
    let hand = vec![card(1, 3, false), card(2, 9, false), card(3, 5, false)];
    let m = initialize_ai_memory(&hand);
    assert_eq!(m.known_cards, vec![(1, 3), (2, 9)]);
    assert_eq!(m.initial_cards, vec![(1, 3), (2, 9)]);
    assert!(m.seen_discards.is_empty());
    assert_eq!(m.turns_played, 0);
}

#[test]
fn observing_records_face_up_cards_and_new_discards() {
    let mut m = AIMemory::new();
    m.known_cards = vec![(1, 3)];
    let own = vec![card(1, 3, true), card(2, 8, true), card(3, 5, false)];
    let graveyard = vec![4, 7, 4, 9];
    let opponent = vec![card(11, 6, true), card(12, 2, false)];
    update_ai_memory(&mut m, &own, &graveyard, &opponent);
    assert_eq!(m.known_cards, vec![(1, 3), (2, 8)]);
    assert_eq!(m.seen_discards, vec![4, 7, 9]);
    assert_eq!(m.opponent_known_cards, vec![(11, 6)]);
    update_ai_memory(&mut m, &own, &vec![7, 1], &opponent);
    assert_eq!(m.seen_discards, vec![4, 7, 9, 1]);
    assert_eq!(m.opponent_known_cards, vec![(11, 6)]);
}

fn table_card(id: u64, value: u8, position: CardPosition) -> Card {
    Card { id, value, face_up: false, position, owner_id: None, from_deck: false, is_being_dealt: false }
}

#[test]
fn graveyard_draw_takes_top_card() {
    let mut graveyard = vec![5, 6];
    let mut turn = ai_turn();
    let mut cards = vec![table_card(5, 2, CardPosition::Graveyard), table_card(6, 4, CardPosition::Graveyard)];
    handle_graveyard_logic(&mut graveyard, &mut turn, &mut cards, AI);
    assert_eq!(graveyard, vec![5]);
    assert!(turn.has_drawn_card);
    assert_eq!(cards[1].position, CardPosition::DrawnCard(AI));
    assert_eq!(cards[1].owner_id, Some(AI));
    assert!(cards[1].face_up);
    assert!(!cards[1].from_deck);
    assert_eq!(cards[0], table_card(5, 2, CardPosition::Graveyard));
}

#[test]
fn graveyard_draw_on_empty_graveyard_does_nothing() {
    let mut graveyard: Vec<u64> = vec![];
    let mut turn = ai_turn();
    let mut cards = vec![table_card(5, 2, CardPosition::Deck)];
    handle_graveyard_logic(&mut graveyard, &mut turn, &mut cards, AI);
    assert!(!turn.has_drawn_card);
    assert_eq!(cards, vec![table_card(5, 2, CardPosition::Deck)]);
}

#[test]
fn deck_draw_takes_front_card() {
    let mut deck = vec![7, 8];
    let mut turn = ai_turn();
    let mut cards = vec![table_card(8, 1, CardPosition::Deck), table_card(7, 11, CardPosition::Deck)];
    assert!(handle_deck_logic(&mut deck, &mut turn, &mut cards, AI));
    assert_eq!(deck, vec![8]);
    assert!(turn.has_drawn_card);
    assert_eq!(cards[1].position, CardPosition::DrawnCard(AI));
    assert!(cards[1].from_deck);
    assert!(cards[1].is_being_dealt);
    assert!(cards[1].face_up);
    assert_eq!(cards[0], table_card(8, 1, CardPosition::Deck));
}

#[test]
fn deck_draw_on_empty_deck_does_nothing() {
    let mut deck: Vec<u64> = vec![];
    let mut turn = ai_turn();
    let mut cards = vec![table_card(8, 1, CardPosition::Deck)];
    assert!(!handle_deck_logic(&mut deck, &mut turn, &mut cards, AI));
    assert!(!turn.has_drawn_card);
}

#[test]
fn idle_needs_hand_only_to_record_opening_cards() {
    let mut v = view(0, None);
    v.own_hand = None;
    let mut state = AIState::Idle;
    let mut memory = AIMemory::new();
    ai_turn_controller(&mut state, &mut memory, AI, &ai_turn(), &v);
    assert_eq!(state, AIState::Idle);
    memory.initial_cards = vec![(1, 3)];
    ai_turn_controller(&mut state, &mut memory, AI, &ai_turn(), &v);
    assert_eq!(state, AIState::Thinking { timer_ms: 1000 });
}

#[test]
fn idle_records_only_face_up_opening_cards() {
    let mut v = view(0, None);
    v.own_hand = Some(vec![card(1, 3, true), card(2, 9, false), card(3, 5, true)]);
    let mut state = AIState::Idle;
    let mut memory = AIMemory::new();
    ai_turn_controller(&mut state, &mut memory, AI, &ai_turn(), &v);
    assert_eq!(memory.initial_cards, vec![(1, 3)]);
    assert_eq!(memory.known_cards, vec![(1, 3)]);
}
