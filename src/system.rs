use vstd::prelude::*;
use crate::belief::{face_up_pairs, opening, opening_cards, pairs_of, record_all, record_pairs};
use crate::component::{AIMemory, Belief, CardInfo};
use crate::decision::{
    draw_from_graveyard, get_best_card_swap, get_worst_known_card_hand, should_draw, should_end_round,
    should_swap, swap_target, swap_wanted, worst_known, end_round_wanted,
};

verus! {

/// Simulated thinking time before each decision, in milliseconds.
pub const THINK_MS: u64 = 1000;

/// Whose turn it is.
#[derive(Clone, Copy, Debug, PartialEq, Eq, Structural)]
pub struct Turn {
    pub current_player: u64,
    pub has_drawn_card: bool,
}

/// Phase of the AI's turn.
#[derive(Clone, Copy, Debug, PartialEq, Eq)]
pub enum AIState {
    /// waiting for its turn
    Idle,
    /// thinking before the draw
    Thinking { timer_ms: u64 },
    /// choosing where to draw from
    DecidingDraw,
    /// waiting for the drawn card to appear
    ExecutingDraw,
    /// thinking about the drawn card
    ThinkingSwap { timer_ms: u64, drawn_card: u64 },
    /// applying the drawn card's special effect
    ActivatingSpecial { drawn_card: u64 },
    /// choosing whether and where to put the drawn card
    DecidingSwap { drawn_card: u64 },
    /// placing or discarding the drawn card
    ExecutingSwap { drawn_card_entity: u64, target_card_entity: Option<u64> },
}

impl Default for AIState {
    fn default() -> (r: AIState)
        ensures
            r == AIState::Idle,
    {
        AIState::Idle
    }
}

/// Kind of special effect.
#[derive(Clone, Copy, Debug, PartialEq, Eq, Structural)]
pub enum SpecialEffect {
    Shuffle,
    Reveal,
    Swap,
}

/// A request for the effect resolver.
#[derive(Clone, Copy, Debug, PartialEq, Eq)]
pub struct SpecialCardEffect {
    pub card_entity: u64,
    pub effect_type: SpecialEffect,
    pub target_player: Option<u64>,
    pub target_card: Option<u64>,
    pub own_card: Option<u64>,
}

/// What the AI asks the game to do this tick.
#[derive(Clone, Copy, Debug, PartialEq, Eq)]
pub enum AIAction {
    Wait,
    DrawFromGraveyard,
    DrawFromDeck,
    Special(SpecialCardEffect),
    Swap { target: u64, drawn: u64 },
    Discard { drawn: u64 },
}

/// What the AI sees of the game on one tick.
pub struct TurnView {
    /// time since the last tick, in milliseconds
    pub elapsed_ms: u64,
    /// the AI's hand, when it can be found
    pub own_hand: Option<Vec<CardInfo>>,
    /// the other player, when it can be found
    pub opponent: Option<u64>,
    /// the other player's hand, when it can be found
    pub opponent_hand: Option<Vec<u64>>,
    /// value of the graveyard's top card, when there is one
    pub graveyard_top: Option<u8>,
    /// the card currently drawn by the AI, if any
    pub drawn: Option<CardInfo>,
}

/// The ids of some cards, in order.
pub open spec fn hand_ids(cards: Seq<CardInfo>) -> Seq<u64> {
    cards.map_values(|c: CardInfo| c.id)
}

/// The drawn card, when it is the card `id`.
pub open spec fn drawn_info(v: TurnView, id: u64) -> Option<CardInfo> {
    match v.drawn {
        Some(c) => if c.id == id {
            Some(c)
        } else {
            None
        },
        None => None,
    }
}

/// A card drawn from the deck whose value carries an effect.
pub open spec fn is_special(c: CardInfo) -> bool {
    c.from_deck && (c.value == 11 || c.value == 9 || c.value == 7)
}

/// The entry with the highest value; the first among equals.
pub open spec fn highest_entry(entries: Seq<(u64, u8)>) -> Option<(u64, u8)>
    decreases entries.len(),
{
    if entries.len() == 0 {
        None
    } else {
        match highest_entry(entries.drop_last()) {
            None => Some(entries.last()),
            Some(p) => if entries.last().1 > p.1 {
                Some(entries.last())
            } else {
                Some(p)
            },
        }
    }
}

/// The opponent card a swap effect takes: the highest known one, else the first of the hand.
pub open spec fn swap_effect_target(m: Belief, opponent_hand: Seq<u64>) -> Option<u64> {
    match highest_entry(m.opponent_known_cards) {
        Some(p) => Some(p.0),
        None => if opponent_hand.len() > 0 {
            Some(opponent_hand[0])
        } else {
            None
        },
    }
}

/// Value of the worst known card of a hand.
pub open spec fn worst_value(m: Belief, hand: Seq<CardInfo>) -> Option<u8> {
    match worst_known(m.known_cards, hand_ids(hand)) {
        Some(w) => Some(w.1),
        None => None,
    }
}

/// The tick spent on a special card of value `value`.
pub open spec fn special_step(m: Belief, v: TurnView, drawn: u64, value: u8) -> (AIState, AIAction) {
    let next = AIState::DecidingSwap { drawn_card: drawn };
    if value == 11 {
        (next, match v.opponent {
            Some(o) => AIAction::Special(
                SpecialCardEffect {
                    card_entity: drawn,
                    effect_type: SpecialEffect::Shuffle,
                    target_player: Some(o),
                    target_card: None,
                    own_card: None,
                },
            ),
            None => AIAction::Wait,
        })
    } else if value == 9 {
        (
            next,
            AIAction::Special(
                SpecialCardEffect {
                    card_entity: drawn,
                    effect_type: SpecialEffect::Reveal,
                    target_player: None,
                    target_card: None,
                    own_card: None,
                },
            ),
        )
    } else if value == 7 && v.opponent is Some {
        match (v.opponent_hand, v.own_hand) {
            (Some(oh), Some(h)) => (next, match (
                swap_effect_target(m, oh@),
                worst_known(m.known_cards, hand_ids(h@)),
            ) {
                (Some(t), Some(w)) => AIAction::Special(
                    SpecialCardEffect {
                        card_entity: drawn,
                        effect_type: SpecialEffect::Swap,
                        target_player: None,
                        target_card: Some(t),
                        own_card: Some(w.0),
                    },
                ),
                _ => AIAction::Wait,
            }),
            _ => (AIState::ActivatingSpecial { drawn_card: drawn }, AIAction::Wait),
        }
    } else {
        (next, AIAction::Wait)
    }
}

/// One tick of the turn controller on the AI's turn: the next phase and the action asked for.
pub open spec fn step(s: AIState, m: Belief, v: TurnView) -> (AIState, AIAction) {
    match s {
        AIState::Idle => (
            if v.own_hand is Some || m.initial_cards.len() > 0 {
                AIState::Thinking { timer_ms: THINK_MS }
            } else {
                AIState::Idle
            },
            AIAction::Wait,
        ),
        AIState::Thinking { timer_ms } => (
            if timer_ms <= v.elapsed_ms {
                AIState::DecidingDraw
            } else {
                AIState::Thinking { timer_ms: (timer_ms - v.elapsed_ms) as u64 }
            },
            AIAction::Wait,
        ),
        AIState::DecidingDraw => match v.own_hand {
            None => (s, AIAction::Wait),
            Some(h) => (
                AIState::ExecutingDraw,
                if draw_from_graveyard(m, v.graveyard_top, worst_value(m, h@)) {
                    AIAction::DrawFromGraveyard
                } else {
                    AIAction::DrawFromDeck
                },
            ),
        },
        AIState::ExecutingDraw => match v.drawn {
            Some(c) => (AIState::ThinkingSwap { timer_ms: THINK_MS, drawn_card: c.id }, AIAction::Wait),
            None => (s, AIAction::Wait),
        },
        AIState::ThinkingSwap { timer_ms, drawn_card } => if timer_ms > v.elapsed_ms {
            (
                AIState::ThinkingSwap { timer_ms: (timer_ms - v.elapsed_ms) as u64, drawn_card },
                AIAction::Wait,
            )
        } else {
            match drawn_info(v, drawn_card) {
                None => (AIState::ThinkingSwap { timer_ms: 0, drawn_card }, AIAction::Wait),
                Some(c) => (
                    if is_special(c) {
                        AIState::ActivatingSpecial { drawn_card }
                    } else {
                        AIState::DecidingSwap { drawn_card }
                    },
                    AIAction::Wait,
                ),
            }
        },
        AIState::ActivatingSpecial { drawn_card } => match drawn_info(v, drawn_card) {
            None => (s, AIAction::Wait),
            Some(c) => special_step(m, v, drawn_card, c.value),
        },
        AIState::DecidingSwap { drawn_card } => match (drawn_info(v, drawn_card), v.own_hand) {
            (Some(c), Some(h)) => (
                AIState::ExecutingSwap {
                    drawn_card_entity: drawn_card,
                    target_card_entity: if swap_wanted(c.value, m, hand_ids(h@)) {
                        swap_target(c.value, m, hand_ids(h@))
                    } else {
                        None
                    },
                },
                AIAction::Wait,
            ),
            _ => (s, AIAction::Wait),
        },
        AIState::ExecutingSwap { drawn_card_entity, target_card_entity } => (
            AIState::Idle,
            match target_card_entity {
                Some(t) => AIAction::Swap { target: t, drawn: drawn_card_entity },
                None => AIAction::Discard { drawn: drawn_card_entity },
            },
        ),
    }
}

/// On the AI's turn, the tick records the opening cards of its hand.
pub open spec fn learns_opening(s: AIState, m: Belief, v: TurnView) -> bool {
    s == AIState::Idle && v.own_hand is Some && m.initial_cards.len() == 0
}

/// The belief state after one tick of the controller on the AI's turn.
pub open spec fn step_belief(s: AIState, m: Belief, v: TurnView) -> Belief {
    if learns_opening(s, m, v) {
        let pairs = face_up_pairs(opening(v.own_hand->Some_0@));
        Belief { known_cards: record_all(m.known_cards, pairs), initial_cards: pairs, ..m }
    } else if s is ExecutingSwap {
        Belief { turns_played: m.turns_played + 1, ..m }
    } else {
        m
    }
}

fn card_ids(cards: &Vec<CardInfo>) -> (r: Vec<u64>)
    ensures
        r@ == hand_ids(cards@),
{
    let mut r: Vec<u64> = Vec::new();
    let mut i: usize = 0;
    while i < cards.len()
        invariant
            i <= cards@.len(),
            r@ == hand_ids(cards@.take(i as int)),
        decreases cards@.len() - i,
    {
        r.push(cards[i].id);
        i = i + 1;
        assert(hand_ids(cards@.take(i as int)) == hand_ids(cards@.take(i - 1)).push(cards@[i - 1].id));
    }
    assert(cards@.take(i as int) == cards@);
    r
}

fn highest_known_entry(entries: &Vec<(u64, u8)>) -> (r: Option<(u64, u8)>)
    ensures
        r == highest_entry(entries@),
{
    let mut best: Option<(u64, u8)> = None;
    let mut i: usize = 0;
    while i < entries.len()
        invariant
            i <= entries@.len(),
            best == highest_entry(entries@.take(i as int)),
        decreases entries@.len() - i,
    {
        assert(entries@.take(i + 1).drop_last() == entries@.take(i as int));
        let e = entries[i];
        best = match best {
            None => Some(e),
            Some(p) => if e.1 > p.1 {
                Some(e)
            } else {
                Some(p)
            },
        };
        i = i + 1;
    }
    assert(entries@.take(i as int) == entries@);
    best
}

fn drawn_card_info(view: &TurnView, id: u64) -> (r: Option<CardInfo>)
    ensures
        r == drawn_info(*view, id),
{
    match view.drawn {
        Some(c) => if c.id == id {
            Some(c)
        } else {
            None
        },
        None => None,
    }
}

fn worst_card_of(memory: &AIMemory, hand: &Vec<CardInfo>) -> (r: Option<(u64, u8)>)
    requires
        memory.wf(),
    ensures
        r == worst_known(memory@.known_cards, hand_ids(hand@)),
{
    let ids = card_ids(hand);
    get_worst_known_card_hand(memory, &ids)
}

fn activate_special(memory: &AIMemory, view: &TurnView, drawn: u64, value: u8) -> (r: (AIState, AIAction))
    requires
        memory.wf(),
    ensures
        r == special_step(memory@, *view, drawn, value),
{
    let next = AIState::DecidingSwap { drawn_card: drawn };
    if value == 11 {
        match view.opponent {
            Some(o) => (
                next,
                AIAction::Special(
                    SpecialCardEffect {
                        card_entity: drawn,
                        effect_type: SpecialEffect::Shuffle,
                        target_player: Some(o),
                        target_card: None,
                        own_card: None,
                    },
                ),
            ),
            None => (next, AIAction::Wait),
        }
    } else if value == 9 {
        (
            next,
            AIAction::Special(
                SpecialCardEffect {
                    card_entity: drawn,
                    effect_type: SpecialEffect::Reveal,
                    target_player: None,
                    target_card: None,
                    own_card: None,
                },
            ),
        )
    } else if value == 7 && view.opponent.is_some() {
        let opponent_hand = match &view.opponent_hand {
            Some(oh) => oh,
            None => return (AIState::ActivatingSpecial { drawn_card: drawn }, AIAction::Wait),
        };
        let own_hand = match &view.own_hand {
            Some(h) => h,
            None => return (AIState::ActivatingSpecial { drawn_card: drawn }, AIAction::Wait),
        };
        let target = match highest_known_entry(&memory.opponent_known_cards) {
            Some(p) => Some(p.0),
            None => if opponent_hand.len() > 0 {
                Some(opponent_hand[0])
            } else {
                None
            },
        };
        let own = worst_card_of(memory, own_hand);
        match (target, own) {
            (Some(t), Some(w)) => (
                next,
                AIAction::Special(
                    SpecialCardEffect {
                        card_entity: drawn,
                        effect_type: SpecialEffect::Swap,
                        target_player: None,
                        target_card: Some(t),
                        own_card: Some(w.0),
                    },
                ),
            ),
            _ => (next, AIAction::Wait),
        }
    } else {
        (next, AIAction::Wait)
    }
}

/// Runs one tick of the AI's turn. Off its turn the controller returns to `Idle` and does
/// nothing; on its turn it advances one phase and returns the action the game should perform.
pub fn ai_turn_controller(
    state: &mut AIState,
    memory: &mut AIMemory,
    ai_entity: u64,
    turn: &Turn,
    view: &TurnView,
) -> (r: AIAction)
    requires
        old(memory).wf(),
        old(memory).turns_played < u32::MAX,
    ensures
        final(memory).wf(),
        turn.current_player != ai_entity ==> *final(state) == AIState::Idle && r == AIAction::Wait
            && final(memory)@ == old(memory)@,
        turn.current_player == ai_entity ==> (*final(state), r) == step(
            *old(state),
            old(memory)@,
            *view,
        ) && final(memory)@ == step_belief(*old(state), old(memory)@, *view),
{
    if turn.current_player != ai_entity {
        *state = AIState::Idle;
        return AIAction::Wait;
    }
    let current = *state;
    match current {
        AIState::Idle => {
            if memory.initial_cards.len() == 0 {
                let h = match &view.own_hand {
                    Some(h) => h,
                    None => return AIAction::Wait,
                };
                let first = opening_cards(h);
                let pairs = pairs_of(&first, true);
                record_pairs(&mut memory.known_cards, &pairs);
                memory.initial_cards = pairs;
            }
            *state = AIState::Thinking { timer_ms: THINK_MS };
            AIAction::Wait
        },
        AIState::Thinking { timer_ms } => {
            if timer_ms <= view.elapsed_ms {
                *state = AIState::DecidingDraw;
            } else {
                *state = AIState::Thinking { timer_ms: timer_ms - view.elapsed_ms };
            }
            AIAction::Wait
        },
        AIState::DecidingDraw => {
            let h = match &view.own_hand {
                Some(h) => h,
                None => return AIAction::Wait,
            };
            let worst = match worst_card_of(memory, h) {
                Some(w) => Some(w.1),
                None => None,
            };
            *state = AIState::ExecutingDraw;
            if should_draw(memory, view.graveyard_top, worst) {
                AIAction::DrawFromGraveyard
            } else {
                AIAction::DrawFromDeck
            }
        },
        AIState::ExecutingDraw => {
            if let Some(c) = view.drawn {
                *state = AIState::ThinkingSwap { timer_ms: THINK_MS, drawn_card: c.id };
            }
            AIAction::Wait
        },
        AIState::ThinkingSwap { timer_ms, drawn_card } => {
            if timer_ms > view.elapsed_ms {
                *state = AIState::ThinkingSwap { timer_ms: timer_ms - view.elapsed_ms, drawn_card };
                return AIAction::Wait;
            }
            match drawn_card_info(view, drawn_card) {
                None => {
                    *state = AIState::ThinkingSwap { timer_ms: 0, drawn_card };
                },
                Some(c) => {
                    if c.from_deck && (c.value == 11 || c.value == 9 || c.value == 7) {
                        *state = AIState::ActivatingSpecial { drawn_card };
                    } else {
                        *state = AIState::DecidingSwap { drawn_card };
                    }
                },
            }
            AIAction::Wait
        },
        AIState::ActivatingSpecial { drawn_card } => {
            match drawn_card_info(view, drawn_card) {
                None => AIAction::Wait,
                Some(c) => {
                    let (next, action) = activate_special(memory, view, drawn_card, c.value);
                    *state = next;
                    action
                },
            }
        },
        AIState::DecidingSwap { drawn_card } => {
            let c = match drawn_card_info(view, drawn_card) {
                Some(c) => c,
                None => return AIAction::Wait,
            };
            let h = match &view.own_hand {
                Some(h) => h,
                None => return AIAction::Wait,
            };
            let ids = card_ids(h);
            let target = if should_swap(c.value, memory, &ids) {
                get_best_card_swap(c.value, memory, &ids)
            } else {
                None
            };
            *state = AIState::ExecutingSwap { drawn_card_entity: drawn_card, target_card_entity: target };
            AIAction::Wait
        },
        AIState::ExecutingSwap { drawn_card_entity, target_card_entity } => {
            memory.turns_played = memory.turns_played + 1;
            *state = AIState::Idle;
            match target_card_entity {
                Some(t) => AIAction::Swap { target: t, drawn: drawn_card_entity },
                None => AIAction::Discard { drawn: drawn_card_entity },
            }
        },
    }
}

/// Decides, once the swap or discard of a finished turn has been carried out, whether the AI
/// asks for the round to end. Without both hands in view it does not.
pub fn check_round_end(memory: &AIMemory, view: &TurnView) -> (r: bool)
    requires
        memory.wf(),
    ensures
        r == match (view.own_hand, view.opponent_hand) {
            (Some(h), Some(o)) => end_round_wanted(memory@, hand_ids(h@), o@, memory.turns_played),
            _ => false,
        },
{
    match (&view.own_hand, &view.opponent_hand) {
        (Some(h), Some(o)) => {
            let ids = card_ids(h);
            should_end_round(memory, &ids, o, memory.turns_played)
        },
        _ => false,
    }
}

/// The phase, belief state and actions after `n` ticks on the AI's turn, each with view `v`.
pub open spec fn run(s: AIState, m: Belief, v: TurnView, n: nat) -> (AIState, Belief, Seq<AIAction>)
    decreases n,
{
    if n == 0 {
        (s, m, Seq::empty())
    } else {
        let first = step(s, m, v);
        let rest = run(first.0, step_belief(s, m, v), v, (n - 1) as nat);
        (rest.0, rest.1, seq![first.1] + rest.2)
    }
}

/// A draw from the graveyard or the deck.
pub open spec fn is_draw(a: AIAction) -> bool {
    a is DrawFromGraveyard || a is DrawFromDeck
}

/// A swap into the hand or a discard.
pub open spec fn is_play(a: AIAction) -> bool {
    a is Swap || a is Discard
}

/// Number of draws among some actions.
pub open spec fn count_draws(acts: Seq<AIAction>) -> nat
    decreases acts.len(),
{
    if acts.len() == 0 {
        0
    } else {
        count_draws(acts.drop_last()) + if is_draw(acts.last()) {
            1nat
        } else {
            0
        }
    }
}

/// Number of swaps and discards among some actions.
pub open spec fn count_plays(acts: Seq<AIAction>) -> nat
    decreases acts.len(),
{
    if acts.len() == 0 {
        0
    } else {
        count_plays(acts.drop_last()) + if is_play(acts.last()) {
            1nat
        } else {
            0
        }
    }
}

/// Ticks a timer of `t` milliseconds takes to run out when each tick lasts `e` milliseconds.
pub open spec fn timer_ticks(t: u64, e: u64) -> nat
    decreases t,
{
    if e == 0 || t <= e {
        1
    } else {
        1 + timer_ticks((t - e) as u64, e)
    }
}

/// Time passes, and the AI's hand, the opponent, its hand and a drawn card are all in view.
pub open spec fn ready(v: TurnView) -> bool {
    &&& v.elapsed_ms > 0
    &&& v.own_hand is Some
    &&& v.opponent is Some
    &&& v.opponent_hand is Some
    &&& v.drawn is Some
}

proof fn lemma_counts_append(x: Seq<AIAction>, y: Seq<AIAction>)
    ensures
        count_draws(x + y) == count_draws(x) + count_draws(y),
        count_plays(x + y) == count_plays(x) + count_plays(y),
    decreases y.len(),
{
    if y.len() == 0 {
        assert(x + y == x);
    } else {
        assert((x + y).drop_last() == x + y.drop_last());
        lemma_counts_append(x, y.drop_last());
    }
}

proof fn lemma_run_split(s: AIState, m: Belief, v: TurnView, a: nat, b: nat)
    ensures
        ({
            let first = run(s, m, v, a);
            let second = run(first.0, first.1, v, b);
            run(s, m, v, a + b) == (second.0, second.1, first.2 + second.2)
        }),
    decreases a,
{
    if a == 0 {
        assert(Seq::<AIAction>::empty() + run(s, m, v, b).2 == run(s, m, v, b).2);
    } else {
        let first = step(s, m, v);
        lemma_run_split(first.0, step_belief(s, m, v), v, (a - 1) as nat, b);
        assert((a + b - 1) as nat == (a - 1) as nat + b);
        let x = run(first.0, step_belief(s, m, v), v, (a - 1) as nat).2;
        let y = run(run(s, m, v, a).0, run(s, m, v, a).1, v, b).2;
        assert(seq![first.1] + x + y == seq![first.1] + (x + y));
    }
}

proof fn lemma_single(s: AIState, m: Belief, v: TurnView)
    ensures
        run(s, m, v, 1) == (step(s, m, v).0, step_belief(s, m, v), seq![step(s, m, v).1]),
        count_draws(seq![step(s, m, v).1]) == if is_draw(step(s, m, v).1) { 1nat } else { 0 },
        count_plays(seq![step(s, m, v).1]) == if is_play(step(s, m, v).1) { 1nat } else { 0 },
{
    let a = step(s, m, v).1;
    let rest = run(step(s, m, v).0, step_belief(s, m, v), v, 0);
    assert(rest.2 == Seq::<AIAction>::empty());
    assert(seq![a] + Seq::<AIAction>::empty() == seq![a]);
    assert(seq![a].drop_last() == Seq::<AIAction>::empty());
    assert(seq![a].last() == a);
    assert(count_draws(Seq::<AIAction>::empty()) == 0);
    assert(count_plays(Seq::<AIAction>::empty()) == 0);
}

proof fn lemma_thinking(t: u64, m: Belief, v: TurnView)
    requires
        v.elapsed_ms > 0,
    ensures
        ({
            let r = run(AIState::Thinking { timer_ms: t }, m, v, timer_ticks(t, v.elapsed_ms));
            r.0 == AIState::DecidingDraw && r.1 == m && count_draws(r.2) == 0 && count_plays(r.2) == 0
        }),
    decreases t,
{
    let s = AIState::Thinking { timer_ms: t };
    lemma_single(s, m, v);
    if t > v.elapsed_ms {
        let t2 = (t - v.elapsed_ms) as u64;
        lemma_thinking(t2, m, v);
        lemma_run_split(s, m, v, 1, timer_ticks(t2, v.elapsed_ms));
        lemma_counts_append(run(s, m, v, 1).2, run(AIState::Thinking { timer_ms: t2 }, m, v, timer_ticks(t2, v.elapsed_ms)).2);
    }
}

proof fn lemma_thinking_swap(t: u64, d: u64, m: Belief, v: TurnView)
    requires
        v.elapsed_ms > 0,
        drawn_info(v, d) is Some,
    ensures
        ({
            let r = run(
                AIState::ThinkingSwap { timer_ms: t, drawn_card: d },
                m,
                v,
                timer_ticks(t, v.elapsed_ms),
            );
            &&& r.0 == if is_special(drawn_info(v, d)->Some_0) {
                AIState::ActivatingSpecial { drawn_card: d }
            } else {
                AIState::DecidingSwap { drawn_card: d }
            }
            &&& r.1 == m
            &&& count_draws(r.2) == 0
            &&& count_plays(r.2) == 0
        }),
    decreases t,
{
    let s = AIState::ThinkingSwap { timer_ms: t, drawn_card: d };
    lemma_single(s, m, v);
    if t > v.elapsed_ms {
        let t2 = (t - v.elapsed_ms) as u64;
        lemma_thinking_swap(t2, d, m, v);
        lemma_run_split(s, m, v, 1, timer_ticks(t2, v.elapsed_ms));
        lemma_counts_append(
            run(s, m, v, 1).2,
            run(AIState::ThinkingSwap { timer_ms: t2, drawn_card: d }, m, v, timer_ticks(t2, v.elapsed_ms)).2,
        );
    }
}

/// A whole turn: from `Idle`, with time passing and everything in view, the controller comes
/// back to `Idle` after `n` ticks, passing through `ExecutingSwap` on the tick before; on the
/// way it asks for exactly one draw and exactly one swap or discard, and counts one more turn.
pub proof fn lemma_full_turn(m: Belief, v: TurnView) -> (n: nat)
    requires
        ready(v),
    ensures
        n > 0,
        run(AIState::Idle, m, v, (n - 1) as nat).0 is ExecutingSwap,
        run(AIState::Idle, m, v, n).0 == AIState::Idle,
        count_draws(run(AIState::Idle, m, v, n).2) == 1,
        count_plays(run(AIState::Idle, m, v, n).2) == 1,
        run(AIState::Idle, m, v, n).1.turns_played == m.turns_played + 1,
{
    let e = v.elapsed_ms;
    let c = v.drawn->Some_0;
    let d = c.id;
    assert(drawn_info(v, d) == Some(c));
    let k = timer_ticks(THINK_MS, e);
    let m1 = step_belief(AIState::Idle, m, v);
    assert(m1.turns_played == m.turns_played);
    // Idle
    let s0 = AIState::Idle;
    lemma_single(s0, m, v);
    let r0 = run(s0, m, v, 1);
    assert(r0.0 == AIState::Thinking { timer_ms: THINK_MS });
    // Thinking
    lemma_thinking(THINK_MS, m1, v);
    let r1 = run(r0.0, r0.1, v, k);
    lemma_run_split(s0, m, v, 1, k);
    lemma_counts_append(r0.2, r1.2);
    let n1 = 1 + k;
    let a1 = run(s0, m, v, n1);
    assert(a1.0 == AIState::DecidingDraw && a1.1 == m1);
    assert(count_draws(a1.2) == 0 && count_plays(a1.2) == 0);
    // DecidingDraw
    lemma_single(AIState::DecidingDraw, m1, v);
    let r2 = run(AIState::DecidingDraw, m1, v, 1);
    assert(r2.0 == AIState::ExecutingDraw && r2.1 == m1);
    lemma_run_split(s0, m, v, n1, 1);
    lemma_counts_append(a1.2, r2.2);
    let n2 = n1 + 1;
    let a2 = run(s0, m, v, n2);
    assert(count_draws(a2.2) == 1 && count_plays(a2.2) == 0);
    // ExecutingDraw
    lemma_single(AIState::ExecutingDraw, m1, v);
    let r3 = run(AIState::ExecutingDraw, m1, v, 1);
    let ts = AIState::ThinkingSwap { timer_ms: THINK_MS, drawn_card: d };
    assert(r3.0 == ts && r3.1 == m1);
    lemma_run_split(s0, m, v, n2, 1);
    lemma_counts_append(a2.2, r3.2);
    let n3 = n2 + 1;
    let a3 = run(s0, m, v, n3);
    assert(a3.0 == ts && a3.1 == m1 && count_draws(a3.2) == 1 && count_plays(a3.2) == 0);
    // ThinkingSwap
    lemma_thinking_swap(THINK_MS, d, m1, v);
    let r4 = run(ts, m1, v, k);
    lemma_run_split(s0, m, v, n3, k);
    lemma_counts_append(a3.2, r4.2);
    let n4 = n3 + k;
    let a4 = run(s0, m, v, n4);
    assert(count_draws(a4.2) == 1 && count_plays(a4.2) == 0 && a4.1 == m1);
    let ds = AIState::DecidingSwap { drawn_card: d };
    // ActivatingSpecial, when the card carries an effect
    let n5 = if is_special(c) {
        let sp = AIState::ActivatingSpecial { drawn_card: d };
        lemma_single(sp, m1, v);
        let r5 = run(sp, m1, v, 1);
        assert(r5.0 == ds && r5.1 == m1);
        assert(!is_draw(step(sp, m1, v).1) && !is_play(step(sp, m1, v).1));
        lemma_run_split(s0, m, v, n4, 1);
        lemma_counts_append(a4.2, r5.2);
        n4 + 1
    } else {
        n4
    };
    let a5 = run(s0, m, v, n5);
    assert(a5.0 == ds && a5.1 == m1 && count_draws(a5.2) == 1 && count_plays(a5.2) == 0);
    // DecidingSwap
    lemma_single(ds, m1, v);
    let r6 = run(ds, m1, v, 1);
    assert(r6.0 is ExecutingSwap && r6.1 == m1);
    lemma_run_split(s0, m, v, n5, 1);
    lemma_counts_append(a5.2, r6.2);
    let n6 = n5 + 1;
    let a6 = run(s0, m, v, n6);
    assert(a6.0 is ExecutingSwap && a6.1 == m1 && count_draws(a6.2) == 1 && count_plays(a6.2) == 0);
    // ExecutingSwap
    lemma_single(a6.0, m1, v);
    let r7 = run(a6.0, m1, v, 1);
    assert(r7.0 == AIState::Idle && r7.1.turns_played == m.turns_played + 1);
    lemma_run_split(s0, m, v, n6, 1);
    lemma_counts_append(a6.2, r7.2);
    n6 + 1
}

} // verus!
