use vstd::prelude::*;

use crate::app::card_attribute::{clone_effect, Effect, EffectV};
use crate::app::card_library::{Card, CardV};
use crate::app::game_state::Player;
use crate::app::gre::gre_structs::{ActivatedAbility, ActivatedAbilityV};

verus! {

/// What waits on the stack: a spell, a triggered ability or an activated ability.
#[derive(Debug, PartialEq)]
pub enum StackEntry {
    Spell { card: Card, controller: Player, target_creature: Option<Card> },
    TriggeredAbility { source: Option<Card>, effect: Effect, controller: Player },
    ActivatedAbility { source: Card, ability: ActivatedAbility, controller: Player },
}

/// The value of a stack entry.
#[allow(inconsistent_fields)]
pub enum StackEntryV {
    Spell { card: CardV, controller: Player, target_creature: Option<CardV> },
    TriggeredAbility { source: Option<CardV>, effect: EffectV, controller: Player },
    ActivatedAbility { source: CardV, ability: ActivatedAbilityV, controller: Player },
}

/// The player who controls a stack entry.
pub open spec fn entry_controller(e: StackEntryV) -> Player {
    match e {
        StackEntryV::Spell { controller, .. } => controller,
        StackEntryV::TriggeredAbility { controller, .. } => controller,
        StackEntryV::ActivatedAbility { controller, .. } => controller,
    }
}

/// The value of an optional card.
pub open spec fn opt_card_view(c: Option<Card>) -> Option<CardV> {
    match c {
        Some(x) => Some(x@),
        None => None,
    }
}

impl View for StackEntry {
    type V = StackEntryV;

    open spec fn view(&self) -> StackEntryV {
        match self {
            StackEntry::Spell { card, controller, target_creature } =>
                StackEntryV::Spell { card: card@, controller: *controller, target_creature: opt_card_view(*target_creature) },
            StackEntry::TriggeredAbility { source, effect, controller } =>
                StackEntryV::TriggeredAbility { source: opt_card_view(*source), effect: effect@, controller: *controller },
            StackEntry::ActivatedAbility { source, ability, controller } =>
                StackEntryV::ActivatedAbility { source: source@, ability: ability@, controller: *controller },
        }
    }
}

/// Copies an optional card.
pub fn clone_opt_card(c: &Option<Card>) -> (r: Option<Card>)
    ensures
        opt_card_view(r) == opt_card_view(*c),
{
    match c {
        Some(x) => Some(x.clone()),
        None => None,
    }
}

impl Clone for StackEntry {
    fn clone(&self) -> (r: Self)
        ensures
            r@ == self@,
    {
        match self {
            StackEntry::Spell { card, controller, target_creature } => StackEntry::Spell {
                card: card.clone(),
                controller: *controller,
                target_creature: clone_opt_card(target_creature),
            },
            StackEntry::TriggeredAbility { source, effect, controller } => StackEntry::TriggeredAbility {
                source: clone_opt_card(source),
                effect: clone_effect(effect),
                controller: *controller,
            },
            StackEntry::ActivatedAbility { source, ability, controller } => StackEntry::ActivatedAbility {
                source: source.clone(),
                ability: ability.clone(),
                controller: *controller,
            },
        }
    }
}

/// A stack entry with its priority and the order in which it was pushed.
#[derive(Debug)]
pub struct PriorityEntry {
    pub priority: u8,
    pub sequence: usize,
    pub entry: StackEntry,
}

/// The value of a prioritised stack entry.
pub struct PriorityEntryV {
    pub priority: u8,
    pub sequence: usize,
    pub entry: StackEntryV,
}

impl View for PriorityEntry {
    type V = PriorityEntryV;

    open spec fn view(&self) -> PriorityEntryV {
        PriorityEntryV { priority: self.priority, sequence: self.sequence, entry: self.entry@ }
    }
}

impl Clone for PriorityEntry {
    fn clone(&self) -> (r: Self)
        ensures
            r@ == self@,
    {
        PriorityEntry { priority: self.priority, sequence: self.sequence, entry: self.entry.clone() }
    }
}

/// Whether `a` resolves before `b`: higher priority first, and among equal priorities the later push.
pub open spec fn resolves_before(a: PriorityEntryV, b: PriorityEntryV) -> bool {
    a.priority > b.priority || (a.priority == b.priority && a.sequence > b.sequence)
}

/// The values of a sequence of prioritised entries.
pub open spec fn stack_view(s: Seq<PriorityEntry>) -> Seq<PriorityEntryV> {
    s.map_values(|e: PriorityEntry| e@)
}

/// The position of the entry that resolves first among the first `n` (the earliest of equals).
pub open spec fn top_index_upto(s: Seq<PriorityEntryV>, n: nat) -> int
    decreases n,
{
    if n <= 1 {
        0
    } else {
        let best = top_index_upto(s, (n - 1) as nat);
        if resolves_before(s[n - 1], s[best]) { n - 1 } else { best }
    }
}

/// The position of the entry that resolves first.
pub open spec fn top_index(s: Seq<PriorityEntryV>) -> int {
    top_index_upto(s, s.len())
}

/// The top is a position of the stack and nothing on the stack resolves before it.
pub proof fn lemma_top_index(s: Seq<PriorityEntryV>, n: nat)
    requires
        1 <= n <= s.len(),
    ensures
        0 <= top_index_upto(s, n) < n,
        forall|j: int| 0 <= j < n ==> !resolves_before(#[trigger] s[j], s[top_index_upto(s, n)]),
    decreases n,
{
    if n > 1 {
        lemma_top_index(s, (n - 1) as nat);
    }
}

/// The position of the entry that resolves first (the stack must not be empty).
pub fn top_position(s: &Vec<PriorityEntry>) -> (r: usize)
    requires
        s@.len() > 0,
    ensures
        r as int == top_index(stack_view(s@)),
        r < s@.len(),
{
    let ghost v = stack_view(s@);
    let mut best: usize = 0;
    let mut i: usize = 1;
    while i < s.len()
        invariant
            1 <= i <= s@.len(),
            v == stack_view(s@),
            best as int == top_index_upto(v, i as nat),
            best < i,
        decreases s.len() - i,
    {
        let a = &s[i];
        let b = &s[best];
        if a.priority > b.priority || (a.priority == b.priority && a.sequence > b.sequence) {
            best = i;
        }
        i += 1;
    }
    best
}


/// The entry that resolves first has the highest priority on the stack, and among the entries
/// of that priority it is the one pushed last: no entry has a higher priority, and no entry of
/// the same priority a greater sequence number.
pub proof fn lemma_top_is_last_of_highest(s: Seq<PriorityEntryV>, i: int)
    requires
        0 <= i < s.len(),
    ensures
        s[top_index(s)].priority >= s[i].priority,
        s[top_index(s)].priority == s[i].priority ==> s[top_index(s)].sequence >= s[i].sequence,
{
    lemma_top_index(s, s.len());
    assert(!resolves_before(s[i], s[top_index(s)]));
}

} // verus!
