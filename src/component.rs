use vstd::prelude::*;

verus! {

/// Which player seat is driven by the computer.
pub struct AIPlayer {
    pub difficulty: AIDifficulty,
}

/// The single supported difficulty tier.
#[derive(Clone, Copy, Debug, PartialEq, Eq, Structural)]
pub enum AIDifficulty {
    Hard,
}

/// The table of (card id, value) entries has an entry for `id`.
pub open spec fn has_key(entries: Seq<(u64, u8)>, id: u64) -> bool {
    exists|i: int| 0 <= i < entries.len() && (#[trigger] entries[i]).0 == id
}

/// Ids in a table are distinct.
pub open spec fn keys_unique(entries: Seq<(u64, u8)>) -> bool {
    forall|i: int, j: int|
        0 <= i < entries.len() && 0 <= j < entries.len() && i != j ==> (#[trigger] entries[i]).0
            != (#[trigger] entries[j]).0
}

/// Index of the entry for `id` (meaningful when `has_key`).
pub open spec fn key_index(entries: Seq<(u64, u8)>, id: u64) -> int {
    choose|i: int| 0 <= i < entries.len() && (#[trigger] entries[i]).0 == id
}

/// The value recorded for `id`, if any.
pub open spec fn lookup(entries: Seq<(u64, u8)>, id: u64) -> Option<u8> {
    if has_key(entries, id) {
        Some(entries[key_index(entries, id)].1)
    } else {
        None
    }
}


/// Sum of the values in a table.
pub open spec fn sum_entries(entries: Seq<(u64, u8)>) -> int
    decreases entries.len(),
{
    if entries.len() == 0 {
        0
    } else {
        sum_entries(entries.drop_last()) + entries.last().1
    }
}

/// Sum of a sequence of card values.
pub open spec fn sum_values(values: Seq<u8>) -> int
    decreases values.len(),
{
    if values.len() == 0 {
        0
    } else {
        sum_values(values.drop_last()) + values.last()
    }
}

/// The table after recording `value` for `id`: an existing entry is overwritten in place,
/// a new one is appended.
pub open spec fn insert_entry(entries: Seq<(u64, u8)>, id: u64, value: u8) -> Seq<(u64, u8)> {
    if has_key(entries, id) {
        entries.update(key_index(entries, id), (id, value))
    } else {
        entries.push((id, value))
    }
}

/// What the AI can observe of one card: its id, its value, whether it lies face up, and
/// whether it was last drawn from the deck.
#[derive(Clone, Copy, Debug, PartialEq, Eq, Structural)]
pub struct CardInfo {
    pub id: u64,
    pub value: u8,
    pub face_up: bool,
    pub from_deck: bool,
}

/// The AI's belief state: what it has seen of the cards.
pub struct AIMemory {
    /// own cards whose value has been observed
    pub known_cards: Vec<(u64, u8)>,
    /// the two cards seen at the deal
    pub initial_cards: Vec<(u64, u8)>,
    /// distinct values seen in the graveyard
    pub seen_discards: Vec<u8>,
    /// opponent cards whose value has been observed
    pub opponent_known_cards: Vec<(u64, u8)>,
    /// completed turns
    pub turns_played: u32,
}

/// The belief state as values.
pub struct Belief {
    pub known_cards: Seq<(u64, u8)>,
    pub initial_cards: Seq<(u64, u8)>,
    pub seen_discards: Seq<u8>,
    pub opponent_known_cards: Seq<(u64, u8)>,
    pub turns_played: int,
}

impl Belief {
    /// Number of cards accounted for by the belief state.
    pub open spec fn accounted_count(&self) -> int {
        (self.known_cards.len() + self.seen_discards.len() + self.opponent_known_cards.len()) as int
    }

    /// Sum of the values accounted for by the belief state.
    pub open spec fn accounted_sum(&self) -> int {
        sum_entries(self.known_cards) + sum_values(self.seen_discards) + sum_entries(
            self.opponent_known_cards,
        )
    }
}

impl View for AIMemory {
    type V = Belief;

    open spec fn view(&self) -> Belief {
        Belief {
            known_cards: self.known_cards@,
            initial_cards: self.initial_cards@,
            seen_discards: self.seen_discards@,
            opponent_known_cards: self.opponent_known_cards@,
            turns_played: self.turns_played as int,
        }
    }
}

impl AIMemory {
    /// Both id tables map each id to one value.
    pub open spec fn wf(&self) -> bool {
        keys_unique(self.known_cards@) && keys_unique(self.opponent_known_cards@)
    }

    /// An empty belief state.
    pub fn new() -> (r: AIMemory)
        ensures
            r.wf(),
            r.known_cards@ == Seq::<(u64, u8)>::empty(),
            r.initial_cards@ == Seq::<(u64, u8)>::empty(),
            r.seen_discards@ == Seq::<u8>::empty(),
            r.opponent_known_cards@ == Seq::<(u64, u8)>::empty(),
            r.turns_played == 0,
    {
        AIMemory {
            known_cards: Vec::new(),
            initial_cards: Vec::new(),
            seen_discards: Vec::new(),
            opponent_known_cards: Vec::new(),
            turns_played: 0,
        }
    }
}

impl Default for AIMemory {
    fn default() -> (r: AIMemory)
        ensures
            r.wf(),
            r.known_cards@.len() == 0,
            r.initial_cards@.len() == 0,
            r.seen_discards@.len() == 0,
            r.opponent_known_cards@.len() == 0,
            r.turns_played == 0,
    {
        AIMemory::new()
    }
}

/// Looks up the value recorded for `id`.
pub fn find_entry(entries: &Vec<(u64, u8)>, id: u64) -> (r: Option<u8>)
    requires
        keys_unique(entries@),
    ensures
        r == lookup(entries@, id),
{
    let mut i: usize = 0;
    while i < entries.len()
        invariant
            i <= entries@.len(),
            keys_unique(entries@),
            forall|j: int| 0 <= j < i ==> (#[trigger] entries@[j]).0 != id,
        decreases entries@.len() - i,
    {
        if entries[i].0 == id {
            assert(has_key(entries@, id));
            let ghost k = key_index(entries@, id);
            assert(entries@[k].0 == id);
            assert(k == i as int);
            return Some(entries[i].1);
        }
        i = i + 1;
    }
    assert(!has_key(entries@, id));
    None
}

/// Records `value` for `id`, overwriting an existing entry.
pub fn record_entry(entries: &mut Vec<(u64, u8)>, id: u64, value: u8)
    requires
        keys_unique(old(entries)@),
    ensures
        keys_unique(final(entries)@),
        final(entries)@ == insert_entry(old(entries)@, id, value),
{
    let mut i: usize = 0;
    while i < entries.len()
        invariant
            i <= entries@.len(),
            entries@ == old(entries)@,
            keys_unique(entries@),
            forall|j: int| 0 <= j < i ==> (#[trigger] entries@[j]).0 != id,
        decreases entries@.len() - i,
    {
        if entries[i].0 == id {
            assert(has_key(entries@, id));
            let ghost k = key_index(entries@, id);
            assert(entries@[k].0 == id);
            assert(k == i as int);
            entries.set(i, (id, value));
            assert(keys_unique(entries@)) by {
                assert forall|a: int, b: int|
                    0 <= a < entries@.len() && 0 <= b < entries@.len() && a != b implies (
                    #[trigger] entries@[a]).0 != (#[trigger] entries@[b]).0 by {
                    assert(old(entries)@[a].0 != old(entries)@[b].0);
                }
            }
            return;
        }
        i = i + 1;
    }
    assert(!has_key(entries@, id));
    entries.push((id, value));
    assert(keys_unique(entries@)) by {
        assert forall|a: int, b: int|
            0 <= a < entries@.len() && 0 <= b < entries@.len() && a != b implies (
            #[trigger] entries@[a]).0 != (#[trigger] entries@[b]).0 by {
            if a < old(entries)@.len() && b < old(entries)@.len() {
                assert(old(entries)@[a].0 != old(entries)@[b].0);
            } else if a < old(entries)@.len() {
                assert(old(entries)@[a].0 != id);
            } else {
                assert(old(entries)@[b].0 != id);
            }
        }
    }
}

} // verus!
