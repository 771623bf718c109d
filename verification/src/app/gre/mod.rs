//! The game rules engine.
use vstd::prelude::*;

use std::collections::HashSet;

use crate::app::card_attribute::{
    clone_creature_types, clone_effect, clone_usizes, AnyAttribute, AttributeV, Condition, CreatureType, Effect, EffectV, KeywordAbility,
    TargetFilter, Trigger, TriggeredEffectAttribute,
};
use crate::app::card_library::{
    card_after, card_answers, Card, CardType, CardTypeFlags, CardTypeV, CardV, Creature, CreatureV, ManaCost,
    FLAG_CREATURE, FLAG_ENCHANTMENT, FLAG_TOKEN,
};
use card_map::{distinct_keys, has_key, index_of, lemma_index_of};
use crate::app::game_state::{GameEvent, GamePhase, Player};

pub mod card_map;
pub mod effect_resolution;
pub mod gre_structs;
pub mod laws;
pub mod stack;
pub mod trigger;

pub use card_map::CardMap;
pub use gre_structs::{ActivatedAbility, ActivatedAbilityV, ContinuousEffect, DelayedEffect, DelayedEffectV, ReplacementEffect, ReplacementEffectV};
pub use stack::{PriorityEntry, PriorityEntryV, StackEntry, StackEntryV};

use stack::{opt_card_view, stack_view, top_index, top_position};
use effect_resolution::{direct_result, follows, plain, replace_targeted_filter_with_exact, retarget, settles_directly};

verus! {

broadcast use vstd::std_specs::hash::group_hash_axioms;

/// How deep effects may cause further effects (an effect that triggers an effect that ...),
/// and how deep attachments are followed: as far as a `u32` counts, more than any game holds.
pub const EFFECT_DEPTH: u32 = 4294967295;

/// How many stack entries one call of `resolve_stack` resolves at most: as many as a `u64`
/// counts, so every resolution that ends empties the stack.
pub const RESOLVE_LIMIT: u64 = 18446744073709551615;

/// The game rules engine (GRE).
pub struct Gre {
    /// The stack
    pub stack: Vec<PriorityEntry>,
    /// Delayed effects
    pub delayed: Vec<DelayedEffect>,
    pub executed_delayed: HashSet<usize>,
    pub next_id: usize,
    pub next_card_id: u64,
    pub sequence: usize,
    pub priority: Player,
    pub passes: u8,
    pub replacement_effects: Vec<ReplacementEffect>,
    pub continuous_effects: Vec<ContinuousEffect>,
    /// Life-loss flags
    pub opponent_lost_life_this_turn: bool,
    pub us_lost_life_this_turn: bool,
    pub prevent_life_gain_opponent: bool,
    pub prevent_life_gain_us: bool,
    pub last_exiled_card_was_creature: bool,
    /// The permanents the engine tracks, by identifier.
    pub battlefield_creatures: CardMap,
    pub death_triggers_this_turn: Vec<(Card, Effect)>,
    pub current_source_card: Option<Card>,
}

/// The values of the delayed effects.
pub open spec fn delayed_view(s: Seq<DelayedEffect>) -> Seq<DelayedEffectV> {
    s.map_values(|d: DelayedEffect| d@)
}

/// The values of the death triggers.
pub open spec fn death_triggers_view(s: Seq<(Card, Effect)>) -> Seq<(CardV, EffectV)> {
    s.map_values(|p: (Card, Effect)| (p.0@, p.1@))
}

/// The values of the replacement effects.
pub open spec fn replacements_view(s: Seq<ReplacementEffect>) -> Seq<ReplacementEffectV> {
    s.map_values(|r: ReplacementEffect| r@)
}

/// Whether replacement effects are in order of non-increasing priority.
pub open spec fn sorted_by_priority(s: Seq<ReplacementEffectV>) -> bool {
    forall|i: int, j: int| 0 <= i < j < s.len() ==> (#[trigger] s[i]).priority >= (#[trigger] s[j]).priority
}

/// The priority with which the engine pushes an entry through `push_to_stack`.
pub open spec fn push_priority(e: StackEntryV) -> u8 {
    if e is ActivatedAbility { 3 } else { 1 }
}

/// The value of the engine: every field by its value.
pub struct GreV {
    pub stack: Seq<PriorityEntryV>,
    pub delayed: Seq<DelayedEffectV>,
    pub executed_delayed: Set<usize>,
    pub next_id: usize,
    pub next_card_id: u64,
    pub sequence: usize,
    pub priority: Player,
    pub passes: u8,
    pub replacement_effects: Seq<ReplacementEffectV>,
    pub continuous_effects: Seq<ContinuousEffect>,
    pub opponent_lost_life_this_turn: bool,
    pub us_lost_life_this_turn: bool,
    pub prevent_life_gain_opponent: bool,
    pub prevent_life_gain_us: bool,
    pub last_exiled_card_was_creature: bool,
    pub battlefield: Seq<(u64, CardV)>,
    pub death_triggers: Seq<(CardV, EffectV)>,
    pub current_source_card: Option<CardV>,
}

impl View for Gre {
    type V = GreV;

    open spec fn view(&self) -> GreV {
        GreV {
            stack: stack_view(self.stack@),
            delayed: delayed_view(self.delayed@),
            executed_delayed: self.executed_delayed@,
            next_id: self.next_id,
            next_card_id: self.next_card_id,
            sequence: self.sequence,
            priority: self.priority,
            passes: self.passes,
            replacement_effects: replacements_view(self.replacement_effects@),
            continuous_effects: self.continuous_effects@,
            opponent_lost_life_this_turn: self.opponent_lost_life_this_turn,
            us_lost_life_this_turn: self.us_lost_life_this_turn,
            prevent_life_gain_opponent: self.prevent_life_gain_opponent,
            prevent_life_gain_us: self.prevent_life_gain_us,
            last_exiled_card_was_creature: self.last_exiled_card_was_creature,
            battlefield: self.battlefield_creatures.entries(),
            death_triggers: death_triggers_view(self.death_triggers_this_turn@),
            current_source_card: opt_card_view(self.current_source_card),
        }
    }
}

/// A new engine in which `starting_player` has priority: nothing on the stack, nothing
/// scheduled, nothing tracked.
pub open spec fn fresh_engine(starting_player: Player) -> GreV {
    GreV {
        stack: Seq::empty(),
        delayed: Seq::empty(),
        executed_delayed: Set::empty(),
        next_id: 0,
        next_card_id: 1,
        sequence: 0,
        priority: starting_player,
        passes: 0,
        replacement_effects: Seq::empty(),
        continuous_effects: Seq::empty(),
        opponent_lost_life_this_turn: false,
        us_lost_life_this_turn: false,
        prevent_life_gain_opponent: false,
        prevent_life_gain_us: false,
        last_exiled_card_was_creature: false,
        battlefield: Seq::empty(),
        death_triggers: Seq::empty(),
        current_source_card: None,
    }
}

/// The engine after an entry was pushed with a priority and the next sequence number.
pub open spec fn pushed(g: GreV, e: StackEntryV, priority: u8) -> GreV {
    GreV {
        stack: g.stack.push(PriorityEntryV { priority, sequence: g.sequence, entry: e }),
        sequence: vstd::wrapping::usize_specs::wrapping_add(g.sequence, 1),
        ..g
    }
}

/// The engine after an effect was scheduled for a phase; the new delayed effect takes the
/// next id.
pub open spec fn scheduled(g: GreV, e: EffectV, phase: GamePhase, deps: Seq<usize>) -> GreV {
    GreV {
        delayed: g.delayed.push(DelayedEffectV { effect: e, execute_phase: phase, id: g.next_id, depends_on: deps }),
        next_id: vstd::wrapping::usize_specs::wrapping_add(g.next_id, 1),
        ..g
    }
}

/// The battlefield after every activated ability was made available again.
pub open spec fn all_abilities_reset(s: Seq<(u64, CardV)>) -> Seq<(u64, CardV)> {
    s.map_values(|p: (u64, CardV)| (p.0, abilities_reset(p.1)))
}

/// Whether a card is an aura token named `name` attached to the permanent `target`.
pub open spec fn is_role_on(c: CardV, name: Seq<char>, target: u64) -> bool {
    &&& c.attached_to == Some(target)
    &&& c.type_flags.has(CardTypeFlags { bits: FLAG_TOKEN })
    &&& c.name == name
}

impl Gre {
    /// The engine's own consistency: no permanent identifier occurs twice.
    pub open spec fn wf(&self) -> bool {
        self.battlefield_creatures.wf()
    }

    pub fn new(starting_player: Player) -> (r: Self)
        ensures
            r.wf(),
            r@ == fresh_engine(starting_player),
    {
        let r = Gre {
            stack: Vec::new(),
            delayed: Vec::new(),
            executed_delayed: HashSet::new(),
            next_id: 0,
            next_card_id: 1,
            sequence: 0,
            priority: starting_player,
            passes: 0,
            replacement_effects: Vec::new(),
            continuous_effects: Vec::new(),
            opponent_lost_life_this_turn: false,
            us_lost_life_this_turn: false,
            prevent_life_gain_opponent: false,
            prevent_life_gain_us: false,
            last_exiled_card_was_creature: false,
            battlefield_creatures: CardMap::new(),
            death_triggers_this_turn: Vec::new(),
            current_source_card: None,
        };
        proof {
            assert(r@.stack =~= Seq::empty());
            assert(r@.delayed =~= Seq::empty());
            assert(r@.replacement_effects =~= Seq::empty());
            assert(r@.death_triggers =~= Seq::empty());
        }
        r
    }

    /// Ends the turn for the engine: life-loss flags and this turn's death triggers are cleared,
    /// and every tracked permanent is readied for a new turn (see `abilities_reset`).
    pub fn on_turn_end(&mut self)
        requires
            old(self).wf(),
        ensures
            final(self).wf(),
            final(self)@ == (GreV {
                opponent_lost_life_this_turn: false,
                us_lost_life_this_turn: false,
                death_triggers: Seq::empty(),
                battlefield: all_abilities_reset(old(self)@.battlefield),
                ..old(self)@
            }),
    {
        self.opponent_lost_life_this_turn = false;
        self.us_lost_life_this_turn = false;
        self.death_triggers_this_turn.clear();
        reset_all_abilities(&mut self.battlefield_creatures);
        proof {
            assert(death_triggers_view(self.death_triggers_this_turn@) =~= Seq::empty());
        }
    }

    /// Whether an activated ability can be activated now.
    pub fn can_activate(&self, ability: &ActivatedAbility) -> (r: bool)
        ensures
            r == (!ability.activated_this_turn && match ability.condition {
                Condition::OpponentLostLifeThisTurn => self.opponent_lost_life_this_turn,
                Condition::FirstTimeThisTurn => true,
                _ => false,
            }),
    {
        !ability.activated_this_turn && match ability.condition {
            Condition::OpponentLostLifeThisTurn => self.opponent_lost_life_this_turn,
            Condition::FirstTimeThisTurn => !ability.activated_this_turn,
            _ => false,
        }
    }

    /// Gives every player their pass back.
    pub fn reset_priority(&mut self)
        ensures
            final(self)@ == (GreV { passes: 0, ..old(self)@ }),
            final(self).battlefield_creatures == old(self).battlefield_creatures,
    {
        self.passes = 0;
    }

    /// Puts an entry on the stack with the given priority and the next sequence number.
    pub(crate) fn push(&mut self, entry: StackEntry, priority: u8)
        ensures
            final(self)@ == pushed(old(self)@, entry@, priority),
            final(self).battlefield_creatures == old(self).battlefield_creatures,
    {
        let seq = self.sequence;
        self.sequence = self.sequence.wrapping_add(1);
        let ghost before = self.stack@;
        let ghost ev = entry@;
        self.stack.push(PriorityEntry { priority, sequence: seq, entry });
        proof {
            assert(stack_view(self.stack@) =~= stack_view(before).push(PriorityEntryV { priority, sequence: seq, entry: ev }));
        }
    }

    /// Puts an entry on the stack: activated abilities with priority 3, others with priority 1;
    /// then gives every player their pass back and priority to the entry's controller.
    pub fn push_to_stack(&mut self, entry: StackEntry)
        ensures
            final(self)@ == (GreV {
                passes: 0,
                priority: stack::entry_controller(entry@),
                ..pushed(old(self)@, entry@, push_priority(entry@))
            }),
            final(self).battlefield_creatures == old(self).battlefield_creatures,
    {
        let prio: u8 = if matches!(entry, StackEntry::ActivatedAbility { .. }) { 3 } else { 1 };
        let holder = match &entry {
            StackEntry::Spell { controller, .. } => *controller,
            StackEntry::TriggeredAbility { controller, .. } => *controller,
            StackEntry::ActivatedAbility { controller, .. } => *controller,
        };
        self.push(entry, prio);
        self.reset_priority();
        self.priority = holder;
    }

    /// Puts an activated ability on the stack (with priority 3).
    pub fn activate_ability(&mut self, source: Card, ability: ActivatedAbility, controller: Player)
        ensures
            final(self)@ == (GreV {
                passes: 0,
                priority: controller,
                ..pushed(
                    old(self)@,
                    StackEntryV::ActivatedAbility { source: source@, ability: ability@, controller },
                    3,
                )
            }),
            final(self).battlefield_creatures == old(self).battlefield_creatures,
    {
        self.push_to_stack(StackEntry::ActivatedAbility { source, ability, controller });
    }

    /// Adds a replacement effect; the list stays ordered by decreasing priority, and the new
    /// one goes after those of its own priority.
    pub fn add_replacement_effect(&mut self, priority: u8, rule: gre_structs::ReplacementRule)
        requires
            sorted_by_priority(old(self)@.replacement_effects),
        ensures
            sorted_by_priority(final(self)@.replacement_effects),
            ({
                let old_r = old(self)@.replacement_effects;
                let k = insertion_point(old_r, priority);
                &&& 0 <= k <= old_r.len()
                &&& final(self)@ == (GreV {
                    replacement_effects: old_r.insert(k, (ReplacementEffect { priority, rule })@),
                    ..old(self)@
                })
            }),
            final(self).battlefield_creatures == old(self).battlefield_creatures,
    {
        let ghost old_r = replacements_view(self.replacement_effects@);
        let r = ReplacementEffect { priority, rule };
        let ghost rv = r@;
        let mut k: usize = 0;
        while k < self.replacement_effects.len() && self.replacement_effects[k].priority >= priority
            invariant
                k <= self.replacement_effects@.len(),
                old_r == replacements_view(self.replacement_effects@),
                forall|j: int| 0 <= j < k ==> (#[trigger] old_r[j]).priority >= priority,
            decreases self.replacement_effects.len() - k,
        {
            k += 1;
        }
        proof {
            lemma_insertion_point(old_r, priority, k as int);
        }
        self.replacement_effects.insert(k, r);
        proof {
            assert(replacements_view(self.replacement_effects@) =~= old_r.insert(k as int, rv));
        }
    }

    /// Adds a continuous effect.
    pub fn add_continuous_effect(&mut self, effect: ContinuousEffect)
        ensures
            final(self)@ == (GreV { continuous_effects: old(self)@.continuous_effects.push(effect), ..old(self)@ }),
            final(self).battlefield_creatures == old(self).battlefield_creatures,
    {
        self.continuous_effects.push(effect);
    }

    /// Schedules an effect for a phase, after the delayed effects it depends on; returns its id.
    pub fn schedule_delayed(&mut self, effect: Effect, phase: GamePhase, depends_on: Vec<usize>) -> (r: usize)
        ensures
            r == old(self).next_id,
            final(self)@ == scheduled(old(self)@, effect@, phase, depends_on@),
            final(self).battlefield_creatures == old(self).battlefield_creatures,
    {
        let id = self.next_id;
        self.next_id = self.next_id.wrapping_add(1);
        let ghost before = self.delayed@;
        let d = DelayedEffect { effect, execute_phase: phase, id, depends_on };
        let ghost dv = d@;
        self.delayed.push(d);
        proof {
            assert(delayed_view(self.delayed@) =~= delayed_view(before).push(dv));
        }
        id
    }

    /// The target creature of the spell on top of the stack, if the top is a spell with a target.
    pub fn current_stack_target(gre: &Gre) -> (r: Option<Card>)
        ensures
            opt_card_view(r) == stack_target(gre@),
    {
        if gre.stack.len() == 0 {
            return None;
        }
        let i = top_position(&gre.stack);
        match &gre.stack[i].entry {
            StackEntry::Spell { target_creature: Some(t), .. } => Some(t.clone()),
            _ => None,
        }
    }
}

/// The target creature of the spell on top of the stack, if the top is a spell with a target.
pub open spec fn stack_target(g: GreV) -> Option<CardV> {
    if g.stack.len() == 0 {
        None
    } else {
        match g.stack[top_index(g.stack)].entry {
            StackEntryV::Spell { target_creature: Some(t), .. } => Some(t),
            _ => None,
        }
    }
}

/// The position at which a replacement effect of priority `p` goes: after every effect of
/// priority at least `p`.
pub open spec fn insertion_point(s: Seq<ReplacementEffectV>, p: u8) -> int {
    choose|k: int| 0 <= k <= s.len() && (forall|j: int| 0 <= j < k ==> (#[trigger] s[j]).priority >= p)
        && (k == s.len() || s[k].priority < p)
}

/// Where the list is ordered, the insertion point lies within it: every effect before it has at
/// least the priority, and the one at it (if any) less.
pub proof fn lemma_insertion_point_bounds(s: Seq<ReplacementEffectV>, p: u8)
    requires
        sorted_by_priority(s),
    ensures
        0 <= insertion_point(s, p) <= s.len(),
        forall|j: int| 0 <= j < insertion_point(s, p) ==> (#[trigger] s[j]).priority >= p,
        insertion_point(s, p) == s.len() || s[insertion_point(s, p)].priority < p,
{
    lemma_insertion_point_from(s, p, 0);
}

/// The insertion point, searched for from position `k` on, where every effect before `k` has
/// at least the priority.
proof fn lemma_insertion_point_from(s: Seq<ReplacementEffectV>, p: u8, k: int)
    requires
        sorted_by_priority(s),
        0 <= k <= s.len(),
        forall|j: int| 0 <= j < k ==> (#[trigger] s[j]).priority >= p,
    ensures
        0 <= insertion_point(s, p) <= s.len(),
        forall|j: int| 0 <= j < insertion_point(s, p) ==> (#[trigger] s[j]).priority >= p,
        insertion_point(s, p) == s.len() || s[insertion_point(s, p)].priority < p,
    decreases s.len() - k,
{
    if k < s.len() && s[k].priority >= p {
        lemma_insertion_point_from(s, p, k + 1);
    } else {
        lemma_insertion_point(s, p, k);
    }
}

proof fn lemma_insertion_point(s: Seq<ReplacementEffectV>, p: u8, k: int)
    requires
        sorted_by_priority(s),
        0 <= k <= s.len(),
        forall|j: int| 0 <= j < k ==> (#[trigger] s[j]).priority >= p,
        k == s.len() || s[k].priority < p,
    ensures
        insertion_point(s, p) == k,
{
    let c = insertion_point(s, p);
    assert(0 <= c <= s.len() && (forall|j: int| 0 <= j < c ==> (#[trigger] s[j]).priority >= p)
        && (c == s.len() || s[c].priority < p));
    if c < k {
        assert(s[c].priority >= p);
    } else if c > k {
        assert(s[k].priority >= p);
    }
}

/// An attribute as the end of the turn leaves it: a first-time-each-turn ability that re-arms at
/// the end of the turn is armed again; any other attribute stays.
pub open spec fn rearmed(a: AttributeV) -> AttributeV {
    match a {
        AttributeV::FirstTimePerTurn(base, reset, action, used) => if reset == GamePhase::End {
            AttributeV::FirstTimePerTurn(base, reset, action, false)
        } else {
            a
        },
        _ => a,
    }
}

/// A card as a new turn finds it: its activated abilities can all be activated again and its
/// first-time-each-turn abilities that re-arm at the end of the turn are armed again.
pub open spec fn abilities_reset(c: CardV) -> CardV {
    CardV {
        activated_abilities: c.activated_abilities.map_values(
            |a: ActivatedAbilityV| ActivatedAbilityV { activated_this_turn: false, ..a },
        ),
        attributes: c.attributes.map_values(|a: AttributeV| rearmed(a)),
        ..c
    }
}

/// An attribute, re-armed for a new turn (see `rearmed`).
fn rearm(a: &AnyAttribute) -> (r: AnyAttribute)
    ensures
        r@ == rearmed(a@),
{
    let mut b = a.clone();
    if let AnyAttribute::FirstTimePerTurn(ref mut f) = b {
        if f.reset_phase == GamePhase::End {
            f.used = false;
        }
    }
    b
}

/// Readies a card for a new turn (see `abilities_reset`).
fn reset_abilities(card: &mut Card)
    ensures
        final(card)@ == abilities_reset(old(card)@),
{
    let ghost before = card@;
    let mut fresh: Vec<ActivatedAbility> = Vec::new();
    let mut j: usize = 0;
    while j < card.activated_abilities.len()
        invariant
            j <= card.activated_abilities@.len(),
            card@ == before,
            fresh@.len() == j,
            forall|k: int| 0 <= k < j ==> #[trigger] fresh@[k]@
                == (ActivatedAbilityV { activated_this_turn: false, ..before.activated_abilities[k] }),
        decreases card.activated_abilities.len() - j,
    {
        let mut a = card.activated_abilities[j].clone();
        a.activated_this_turn = false;
        fresh.push(a);
        j += 1;
    }
    card.activated_abilities = fresh;
    let mut attrs: Vec<AnyAttribute> = Vec::new();
    let mut k: usize = 0;
    while k < card.attributes.len()
        invariant
            k <= card.attributes@.len(),
            card@.attributes == before.attributes,
            attrs@.len() == k,
            forall|m: int| 0 <= m < k ==> #[trigger] attrs@[m]@ == rearmed(before.attributes[m]),
        decreases card.attributes.len() - k,
    {
        attrs.push(rearm(&card.attributes[k]));
        k += 1;
    }
    card.attributes = attrs;
    proof {
        assert(card@.activated_abilities =~= abilities_reset(before).activated_abilities);
        assert(card@.attributes =~= abilities_reset(before).attributes);
    }
}

/// Readies every tracked permanent for a new turn (see `abilities_reset`).
fn reset_all_abilities(m: &mut CardMap)
    requires
        old(m).wf(),
    ensures
        final(m).wf(),
        final(m).entries() == all_abilities_reset(old(m).entries()),
{
    let ghost before = m.entries();
    let n = m.len();
    let mut i: usize = 0;
    while i < n
        invariant
            n == before.len(),
            i <= n,
            m.wf(),
            m.entries().len() == n,
            forall|j: int| 0 <= j < n ==> (#[trigger] m.entries()[j]).0 == before[j].0,
            forall|j: int| 0 <= j < i ==> #[trigger] m.entries()[j].1 == abilities_reset(before[j].1),
            forall|j: int| i <= j < n ==> #[trigger] m.entries()[j].1 == before[j].1,
        decreases n - i,
    {
        let mut card = m.card_at(i).clone();
        reset_abilities(&mut card);
        m.set_at(i, card);
        i += 1;
    }
    proof {
        assert forall|j: int| 0 <= j < n implies #[trigger] m.entries()[j] == all_abilities_reset(before)[j] by {
            assert(m.entries()[j].0 == before[j].0);
            assert(m.entries()[j].1 == abilities_reset(before[j].1));
        }
        assert(m.entries() =~= all_abilities_reset(before));
    }
}

impl Default for Gre {
    fn default() -> (r: Self)
        ensures
            r.wf(),
            r@ == fresh_engine(Player::Us),
    {
        Gre::new(Player::Us)
    }
}


/// A card as a new permanent: without an identifier, so that entering gives it the next free one.
pub open spec fn as_new(c: CardV) -> CardV {
    CardV { card_id: 0, ..c }
}

/// The identifier a card gets on entering: its own, or the next free one where it has none.
pub open spec fn assigned(g: GreV, c: CardV) -> CardV {
    if c.card_id == 0 { CardV { card_id: g.next_card_id, ..c } } else { c }
}

/// The entries with a card put under identifier `k`: in place where `k` is tracked, last otherwise.
pub open spec fn map_insert(s: Seq<(u64, CardV)>, k: u64, c: CardV) -> Seq<(u64, CardV)> {
    if has_key(s, k) { s.update(index_of(s, k), (k, c)) } else { s.push((k, c)) }
}

/// The engine after a card entered the battlefield (before its own triggers).
pub open spec fn entered(g: GreV, c: CardV) -> GreV {
    let a = assigned(g, c);
    GreV {
        battlefield: map_insert(g.battlefield, a.card_id, a),
        next_card_id: if c.card_id == 0 {
            vstd::wrapping::u64_specs::wrapping_add(g.next_card_id, 1)
        } else {
            g.next_card_id
        },
        ..g
    }
}

/// The trigger of a permanent that enters the battlefield.
pub open spec fn enters_trigger() -> Trigger {
    Trigger::OnEnterBattlefield { filter: TargetFilter::SelfCard }
}

/// A creature token as the engine creates it: a free creature token with summoning sickness
/// and no abilities.
pub open spec fn creature_token(name: Seq<char>, power: i32, toughness: i32, types: Seq<CreatureType>) -> CardV {
    CardV {
        card_id: 0,
        name,
        card_type: CardTypeV::Creature(
            CreatureV {
                power,
                toughness,
                summoning_sickness: true,
                abilities: Seq::empty(),
                types,
                ephemeral_power: 0,
                ephemeral_toughness: 0,
            },
        ),
        type_flags: CardTypeFlags { bits: FLAG_CREATURE | FLAG_TOKEN },
        mana_cost: ManaCost { colorless: 0, red: 0, green: 0, blue: 0, white: 0, black: 0 },
        attributes: Seq::empty(),
        triggers: Seq::empty(),
        activated_abilities: Seq::empty(),
        attached_to: None,
    }
}

/// The aura token that `create_enchantment_token` attaches to the creature with identifier
/// `tid`: when it enters it gives that creature the bonus and the ability for good, and when it
/// dies it takes them back.
pub open spec fn aura_token(name: Seq<char>, pb: i32, tb: i32, ability: KeywordAbility, tid: u64) -> CardV {
    CardV {
        card_id: 0,
        name,
        card_type: CardTypeV::Enchantment,
        type_flags: CardTypeFlags { bits: FLAG_ENCHANTMENT | FLAG_TOKEN },
        mana_cost: ManaCost { colorless: 0, red: 0, green: 0, blue: 0, white: 0, black: 0 },
        attributes: seq![
            AttributeV::TriggeredEffect(
                Trigger::OnEnterBattlefield { filter: TargetFilter::SelfCard },
                EffectV::TargetedEffects {
                    sub_effects: seq![
                        EffectV::ModifyStats {
                            power_delta: pb,
                            toughness_delta: tb,
                            duration: crate::app::card_attribute::Duration::Permanent,
                            target: TargetFilter::ExactCardID(tid),
                        },
                        EffectV::GrantAbility {
                            ability,
                            duration: crate::app::card_attribute::Duration::Permanent,
                            target: TargetFilter::ExactCardID(tid),
                        },
                    ],
                },
            ),
            AttributeV::TriggeredEffect(
                Trigger::OnDeath { filter: TargetFilter::SelfCard },
                EffectV::TargetedEffects {
                    sub_effects: seq![
                        EffectV::ModifyStats {
                            power_delta: effect_resolution::negated(pb),
                            toughness_delta: effect_resolution::negated(tb),
                            duration: crate::app::card_attribute::Duration::Permanent,
                            target: TargetFilter::ExactCardID(tid),
                        },
                        EffectV::RemoveAbility { ability, target: TargetFilter::ExactCardID(tid) },
                    ],
                },
            ),
        ],
        triggers: seq![Trigger::OnEnterBattlefield { filter: TargetFilter::SelfCard }, Trigger::OnDeath { filter: TargetFilter::SelfCard }],
        activated_abilities: Seq::empty(),
        attached_to: Some(tid),
    }
}

/// Whether `b` is what card `c` entering the battlefield from `a` gives: it enters (see
/// `entered`) and its "enters the battlefield" answers are carried out in order (none where
/// `depth` is zero), each as `handle_effect` carries it out (see `enter_result`).
pub open spec fn entered_then(a: GreV, c: CardV, depth: u32, b: GreV) -> bool {
    b == effect_resolution::enter_result(a, c, depth as nat)
}

impl Gre {
    /// Puts a card onto the battlefield, giving it the next free identifier where it has none;
    /// then its "enters the battlefield" triggers are carried out.
    pub fn enter_battlefield(&mut self, card: &mut Card)
        requires
            old(self).wf(),
        ensures
            final(self).wf(),
            follows(old(self)@, final(self)@),
            final(card)@ == card_after(assigned(old(self)@, old(card)@), enters_trigger()),
            card_answers(assigned(old(self)@, old(card)@), enters_trigger()).len() == 0 ==> final(self)@ == entered(
                old(self)@,
                old(card)@,
            ),
            entered_then(old(self)@, old(card)@, EFFECT_DEPTH, final(self)@),
    {
        self.enter_battlefield_in(card, EFFECT_DEPTH)
    }

    /// `enter_battlefield`, following further effects at most `depth` deep.
    pub(crate) fn enter_battlefield_in(&mut self, card: &mut Card, depth: u32)
        requires
            old(self).wf(),
        ensures
            final(self).wf(),
            effect_resolution::follows(old(self)@, final(self)@),
            final(card)@ == card_after(assigned(old(self)@, old(card)@), enters_trigger()),
            card_answers(assigned(old(self)@, old(card)@), enters_trigger()).len() == 0 ==> final(self)@ == entered(
                old(self)@,
                old(card)@,
            ),
            entered_then(old(self)@, old(card)@, depth, final(self)@),
        decreases depth, 2int,
    {
        let ghost g = self@;
        if card.card_id == 0 {
            card.card_id = self.next_card_id;
            self.next_card_id = self.next_card_id.wrapping_add(1);
        }
        let new_id = card.card_id;
        let ghost a = card@;
        let copy = card.clone();
        let old_card = self.battlefield_creatures.insert(new_id, copy);
        proof {
            match old_card {
                Some(_) => {
                    let i = choose|i: int| 0 <= i < g.battlefield.len() && g.battlefield[i].0 == new_id
                        && self@.battlefield == g.battlefield.update(i, (new_id, a));
                    lemma_index_of(g.battlefield, new_id, i);
                },
                None => {},
            }
            assert(self@ == entered(g, old(card)@));
        }
        let effects = card.trigger_by(&Trigger::OnEnterBattlefield { filter: TargetFilter::SelfCard });
        let ghost g1 = self@;
        let ghost es = crate::app::card_attribute::effects_view(effects@);
        proof {
            crate::app::card_attribute::lemma_effects_view(effects@);
            assert(es.take(0) =~= Seq::<EffectV>::empty());
        }
        if depth == 0 {
            return;
        }
        let mut i: usize = 0;
        while i < effects.len()
            invariant
                self.wf(),
                effect_resolution::follows(g1, self@),
                effects@.len() > 0 || self@ == g1,
                depth > 0,
                i <= effects@.len(),
                es == crate::app::card_attribute::effects_view(effects@),
                es.len() == effects@.len(),
                forall|j: int| 0 <= j < effects@.len() ==> #[trigger] es[j] == effects@[j]@,
                self@ == effect_resolution::handle_all_result(g1, es.take(i as int), (depth - 1) as nat),
            decreases effects.len() - i,
        {
            let e = clone_effect(&effects[i]);
            let ghost m = self@;
            self.handle_effect_in(e, depth - 1);
            proof {
                assert(es.take(i as int + 1).drop_last() =~= es.take(i as int));
            }
            i += 1;
        }
        proof {
            assert(es.take(i as int) =~= es);
        }
    }

    /// Creates a creature token and puts it onto the battlefield.
    pub fn create_creature_token(&mut self, name: &str, power: i32, toughness: i32, creature_types: Vec<CreatureType>)
        requires
            old(self).wf(),
        ensures
            final(self).wf(),
            final(self)@ == entered(old(self)@, creature_token(name@, power, toughness, creature_types@)),
    {
        self.create_creature_token_in(name, power, toughness, creature_types, EFFECT_DEPTH)
    }

    /// `create_creature_token`, following further effects at most `depth` deep.
    pub(crate) fn create_creature_token_in(
        &mut self,
        name: &str,
        power: i32,
        toughness: i32,
        creature_types: Vec<CreatureType>,
        depth: u32,
    )
        requires
            old(self).wf(),
        ensures
            final(self).wf(),
            effect_resolution::follows(old(self)@, final(self)@),
            final(self)@ == entered(old(self)@, creature_token(name@, power, toughness, creature_types@)),
        decreases depth, 4int,
    {
        let ghost types = creature_types@;
        let mut new_card = Card::new(
            name,
            CardType::Creature(
                Creature {
                    power,
                    toughness,
                    summoning_sickness: true,
                    abilities: Vec::new(),
                    types: creature_types,
                    ephemeral_power: 0,
                    ephemeral_toughness: 0,
                },
            ),
            ManaCost::free(),
        ).with_added_type(CardTypeFlags::creature()).with_added_type(CardTypeFlags::token());
        proof {
            assert((2u32 | 2u32) | 256u32 == 2u32 | 256u32) by (bit_vector);
            assert(new_card@.card_type == creature_token(name@, power, toughness, types).card_type);
            assert(new_card@ == creature_token(name@, power, toughness, types));
        }
        self.enter_battlefield_in(&mut new_card, depth);
    }

    /// Puts a copy of a card onto the battlefield; the copy is a new permanent, so it gets the
    /// next free identifier.
    pub fn create_clone_card(gre: &mut Gre, cloned: Card)
        requires
            old(gre).wf(),
        ensures
            final(gre).wf(),
            card_answers(assigned(old(gre)@, as_new(cloned@)), enters_trigger()).len() == 0 ==> final(gre)@ == entered(
                old(gre)@,
                as_new(cloned@),
            ),
            entered_then(old(gre)@, as_new(cloned@), EFFECT_DEPTH, final(gre)@),
    {
        gre.create_clone_card_in(cloned, EFFECT_DEPTH)
    }

    /// `create_clone_card`, following further effects at most `depth` deep.
    pub(crate) fn create_clone_card_in(&mut self, cloned: Card, depth: u32)
        requires
            old(self).wf(),
        ensures
            final(self).wf(),
            effect_resolution::follows(old(self)@, final(self)@),
            card_answers(assigned(old(self)@, as_new(cloned@)), enters_trigger()).len() == 0 ==> final(self)@ == entered(
                old(self)@,
                as_new(cloned@),
            ),
            entered_then(old(self)@, as_new(cloned@), depth, final(self)@),
        decreases depth, 3int,
    {
        let mut c = cloned;
        c.card_id = 0;
        self.enter_battlefield_in(&mut c, depth);
    }

    /// Creates an aura token attached to the target of the spell on top of the stack: on entering
    /// it gives the target the bonus and the ability, and on leaving it takes them back.
    pub(crate) fn create_enchantment_token_in(
        &mut self,
        name: String,
        power_buff: i32,
        toughness_buff: i32,
        ability: KeywordAbility,
        depth: u32,
    )
        requires
            old(self).wf(),
        ensures
            final(self).wf(),
            effect_resolution::follows(old(self)@, final(self)@),
            stack_target(old(self)@) is None ==> final(self)@ == old(self)@,
            stack_target(old(self)@) matches Some(t) ==> entered_then(
                old(self)@,
                aura_token(name@, power_buff, toughness_buff, ability, t.card_id),
                depth,
                final(self)@,
            ),
        decreases depth, 4int,
    {
        if let Some(target_card) = Gre::current_stack_target(self) {
            let tid = target_card.card_id;
            let mut aura_card = Card::new(name.as_str(), CardType::Enchantment, ManaCost::free());
            aura_card.type_flags.insert(CardTypeFlags::token());
            aura_card.attached_to = Some(tid);
            aura_card.triggers.push(Trigger::OnEnterBattlefield { filter: TargetFilter::SelfCard });
            let mut on_enter: Vec<Effect> = Vec::new();
            on_enter.push(
                Effect::ModifyStats {
                    power_delta: power_buff,
                    toughness_delta: toughness_buff,
                    duration: crate::app::card_attribute::Duration::Permanent,
                    target: TargetFilter::ExactCardID(tid),
                },
            );
            on_enter.push(
                Effect::GrantAbility {
                    ability,
                    duration: crate::app::card_attribute::Duration::Permanent,
                    target: TargetFilter::ExactCardID(tid),
                },
            );
            let ghost want = aura_token(name@, power_buff, toughness_buff, ability, tid);
            proof {
                crate::app::card_attribute::lemma_effects_view(on_enter@);
                assert(crate::app::card_attribute::effects_view(on_enter@) =~= want.attributes[0]->TriggeredEffect_1->sub_effects);
            }
            let ghost a0 = aura_card@.attributes;
            aura_card.attributes.push(
                AnyAttribute::TriggeredEffect(
                    TriggeredEffectAttribute {
                        trigger: Trigger::OnEnterBattlefield { filter: TargetFilter::SelfCard },
                        effect: Effect::TargetedEffects { sub_effects: on_enter },
                    },
                ),
            );
            aura_card.triggers.push(Trigger::OnDeath { filter: TargetFilter::SelfCard });
            let mut on_death: Vec<Effect> = Vec::new();
            on_death.push(
                Effect::ModifyStats {
                    power_delta: 0i32.wrapping_sub(power_buff),
                    toughness_delta: 0i32.wrapping_sub(toughness_buff),
                    duration: crate::app::card_attribute::Duration::Permanent,
                    target: TargetFilter::ExactCardID(tid),
                },
            );
            on_death.push(Effect::RemoveAbility { ability, target: TargetFilter::ExactCardID(tid) });
            proof {
                assert(aura_card@.attributes == a0.push(want.attributes[0]));
                crate::app::card_attribute::lemma_effects_view(on_death@);
                assert(crate::app::card_attribute::effects_view(on_death@) =~= want.attributes[1]->TriggeredEffect_1->sub_effects);
            }
            let ghost a1 = aura_card@.attributes;
            aura_card.attributes.push(
                AnyAttribute::TriggeredEffect(
                    TriggeredEffectAttribute {
                        trigger: Trigger::OnDeath { filter: TargetFilter::SelfCard },
                        effect: Effect::TargetedEffects { sub_effects: on_death },
                    },
                ),
            );
            proof {
                assert(aura_card@.attributes == a1.push(want.attributes[1]));
                assert(aura_card@.attributes =~= want.attributes);
                assert(aura_card@.triggers =~= want.triggers);
                assert(aura_card@ == want);
            }
            self.enter_battlefield_in(&mut aura_card, depth);
        }
    }

    /// A copy of a card with new printed statistics and added type bits (see
    /// `Card::clone_card`).
    pub fn clone_card(
        &self,
        original: &Card,
        new_power: Option<i32>,
        new_toughness: Option<i32>,
        added_flags: Option<CardTypeFlags>,
    ) -> (r: Card)
        ensures
            r@ == crate::app::card_library::cloned_card(original@, new_power, new_toughness, added_flags),
    {
        Card::clone_card(original, new_power, new_toughness, added_flags)
    }
}

/// Whether a delayed effect is due: it waits for this phase and every effect it depends on has
/// run.
pub open spec fn is_due(done: Set<usize>, phase: GamePhase, d: DelayedEffectV) -> bool {
    d.execute_phase == phase && forall|j: int| 0 <= j < d.depends_on.len() ==> done.contains(#[trigger] d.depends_on[j])
}

/// The test "is not due".
pub open spec fn waiting(done: Set<usize>, phase: GamePhase) -> spec_fn(DelayedEffectV) -> bool {
    |d: DelayedEffectV| !is_due(done, phase, d)
}

/// The test "is due".
pub open spec fn due_now(done: Set<usize>, phase: GamePhase) -> spec_fn(DelayedEffectV) -> bool {
    |d: DelayedEffectV| is_due(done, phase, d)
}

/// The ids of the first `k` delayed effects of a sequence.
pub open spec fn ids_upto(s: Seq<DelayedEffectV>, k: int) -> Set<usize> {
    Set::new(|id: usize| exists|j: int| 0 <= j < k && s[j].id == id)
}

/// The ids of the delayed effects due in a phase.
pub open spec fn due_ids(g: GreV, phase: GamePhase) -> Set<usize> {
    Set::new(|id: usize| exists|i: int| 0 <= i < g.delayed.len() && is_due(g.executed_delayed, phase, #[trigger] g.delayed[i]) && g.delayed[i].id == id)
}

/// Whether delayed effects are in order of id.
pub open spec fn sorted_by_id(s: Seq<DelayedEffectV>) -> bool {
    forall|i: int, j: int| 0 <= i < j < s.len() ==> (#[trigger] s[i]).id <= (#[trigger] s[j]).id
}

/// Whether `b` is what running the due delayed effect `d` gives from `a`: its id is recorded as
/// executed, then its effect is carried out (see `handles`).
pub open spec fn dispatch_step(a: GreV, d: DelayedEffectV, b: GreV) -> bool {
    effect_resolution::handles(GreV { executed_delayed: a.executed_delayed.insert(d.id), ..a }, d.effect, b)
}

/// Whether the engine states `ms` are the steps of running the delayed effects `ds` in order.
pub open spec fn dispatch_steps(ms: Seq<GreV>, ds: Seq<DelayedEffectV>) -> bool {
    &&& ms.len() == ds.len() + 1
    &&& forall|i: int| #![trigger ds[i]] 0 <= i < ds.len() ==> dispatch_step(ms[i], ds[i], ms[i + 1])
}

/// Whether `b` can come of running the delayed effects `ds` in order from `a`.
pub open spec fn dispatched(a: GreV, ds: Seq<DelayedEffectV>, b: GreV) -> bool {
    exists|ms: Seq<GreV>| #[trigger] dispatch_steps(ms, ds) && ms[0] == a && ms[ds.len() as int] == b
}

/// Running one more delayed effect extends the run.
proof fn lemma_dispatched_step(a: GreV, ds: Seq<DelayedEffectV>, m: GreV, d: DelayedEffectV, b: GreV)
    requires
        dispatched(a, ds, m),
        dispatch_step(m, d, b),
    ensures
        dispatched(a, ds.push(d), b),
{
    let ms = choose|ms: Seq<GreV>| #[trigger] dispatch_steps(ms, ds) && ms[0] == a && ms[ds.len() as int] == m;
    let ms2 = ms.push(b);
    let ds2 = ds.push(d);
    assert forall|i: int| #![trigger ds2[i]] 0 <= i < ds2.len() implies dispatch_step(ms2[i], ds2[i], ms2[i + 1]) by {
        if i < ds.len() {
            assert(ds2[i] == ds[i]);
        }
    }
    assert(dispatch_steps(ms2, ds2));
}

/// Copies a delayed effect.
fn clone_delayed(d: &DelayedEffect) -> (r: DelayedEffect)
    ensures
        r@ == d@,
{
    DelayedEffect {
        effect: clone_effect(&d.effect),
        execute_phase: d.execute_phase,
        id: d.id,
        depends_on: clone_usizes(&d.depends_on),
    }
}

/// Orders delayed effects by id, keeping the order of equal ids.
fn sort_by_id(v: Vec<DelayedEffect>) -> (r: Vec<DelayedEffect>)
    ensures
        sorted_by_id(delayed_view(r@)),
        delayed_view(r@).to_multiset() == delayed_view(v@).to_multiset(),
{
    let mut out: Vec<DelayedEffect> = Vec::new();
    let ghost vv = delayed_view(v@);
    let mut i: usize = 0;
    proof {
        assert(delayed_view(out@) =~= Seq::<DelayedEffectV>::empty());
        assert(vv.take(0) =~= Seq::<DelayedEffectV>::empty());
    }
    while i < v.len()
        invariant
            i <= v@.len(),
            vv == delayed_view(v@),
            sorted_by_id(delayed_view(out@)),
            delayed_view(out@).to_multiset() == vv.take(i as int).to_multiset(),
        decreases v.len() - i,
    {
        let d = clone_delayed(&v[i]);
        let mut k: usize = 0;
        while k < out.len() && out[k].id <= d.id
            invariant
                k <= out@.len(),
                forall|j: int| 0 <= j < k ==> (#[trigger] out@[j]).id <= d.id,
            decreases out.len() - k,
        {
            k += 1;
        }
        let ghost before = delayed_view(out@);
        let ghost dv = d@;
        out.insert(k, d);
        proof {
            assert(delayed_view(out@) =~= before.insert(k as int, dv));
            vstd::seq_lib::to_multiset_insert(before, k as int, dv);
            assert(vv.take(i as int + 1) =~= vv.take(i as int).push(vv[i as int]));
            vstd::seq_lib::to_multiset_build(vv.take(i as int), vv[i as int]);
            assert(dv == vv[i as int]);
            assert forall|a: int, b: int| 0 <= a < b < delayed_view(out@).len() implies (#[trigger] delayed_view(
                out@,
            )[a]).id <= (#[trigger] delayed_view(out@)[b]).id by {
                if b < k {
                    assert(delayed_view(out@)[a] == before[a]);
                    assert(delayed_view(out@)[b] == before[b]);
                } else if b == k {
                    assert(delayed_view(out@)[a] == before[a]);
                } else if a < k {
                    assert(delayed_view(out@)[a] == before[a]);
                    assert(delayed_view(out@)[b] == before[b - 1]);
                    if k < before.len() {
                        assert(before[k as int].id > dv.id);
                        assert(before[a].id <= dv.id);
                    }
                } else if a == k {
                    assert(delayed_view(out@)[b] == before[b - 1]);
                    assert(before[k as int].id > dv.id);
                    assert(before[k as int].id <= before[b - 1].id);
                } else {
                    assert(delayed_view(out@)[a] == before[a - 1]);
                    assert(delayed_view(out@)[b] == before[b - 1]);
                }
            }
        }
        i += 1;
    }
    proof {
        assert(vv.take(i as int) =~= vv);
    }
    out
}

/// Whether every id of a list has run.
fn all_done(deps: &Vec<usize>, done: &HashSet<usize>) -> (r: bool)
    ensures
        r == forall|j: int| 0 <= j < deps@.len() ==> done@.contains(#[trigger] deps@[j]),
{
    let mut i: usize = 0;
    while i < deps.len()
        invariant
            i <= deps@.len(),
            forall|j: int| 0 <= j < i ==> done@.contains(#[trigger] deps@[j]),
        decreases deps.len() - i,
    {
        if !done.contains(&deps[i]) {
            return false;
        }
        i += 1;
    }
    true
}

impl Gre {
    /// Runs the delayed effects due in the current phase, in order of id; those not due stay
    /// queued, in order.
    pub fn dispatch_delayed(&mut self, current_phase: GamePhase)
        requires
            old(self).wf(),
        ensures
            final(self).wf(),
            final(self)@.executed_delayed == old(self)@.executed_delayed.union(due_ids(old(self)@, current_phase)),
            final(self)@.replacement_effects == old(self)@.replacement_effects,
            final(self)@.continuous_effects == old(self)@.continuous_effects,
            ({
                let kept = old(self)@.delayed.filter(waiting(old(self)@.executed_delayed, current_phase));
                &&& kept.len() <= final(self)@.delayed.len()
                &&& forall|i: int| 0 <= i < kept.len() ==> #[trigger] final(self)@.delayed[i] == kept[i]
            }),
            exists|order: Seq<DelayedEffectV>|
                #[trigger] sorted_by_id(order) && order.to_multiset() == old(self)@.delayed.filter(
                    due_now(old(self)@.executed_delayed, current_phase),
                ).to_multiset() && dispatched(
                    GreV { delayed: old(self)@.delayed.filter(waiting(old(self)@.executed_delayed, current_phase)), ..old(self)@ },
                    order,
                    final(self)@,
                ),
    {
        let ghost g0 = self@;
        let ghost done = g0.executed_delayed;
        let ghost wait = waiting(done, current_phase);
        let ghost due_test = due_now(done, current_phase);
        let mut ready: Vec<DelayedEffect> = Vec::new();
        let mut still: Vec<DelayedEffect> = Vec::new();
        let n = self.delayed.len();
        let mut i: usize = 0;
        proof {
            assert(delayed_view(still@) =~= Seq::<DelayedEffectV>::empty());
            assert(delayed_view(ready@) =~= Seq::<DelayedEffectV>::empty());
            assert(g0.delayed.take(0) =~= Seq::<DelayedEffectV>::empty());
            reveal(Seq::filter);
        }
        while i < n
            invariant
                n == g0.delayed.len(),
                i <= n,
                self@ == g0,
                done == g0.executed_delayed,
                wait == waiting(done, current_phase),
                due_test == due_now(done, current_phase),
                delayed_view(still@) == g0.delayed.take(i as int).filter(wait),
                delayed_view(ready@) == g0.delayed.take(i as int).filter(due_test),
            decreases n - i,
        {
            let d = clone_delayed(&self.delayed[i]);
            let ghost dv = d@;
            proof {
                assert(dv == g0.delayed[i as int]);
                assert(g0.delayed.take(i as int + 1) =~= g0.delayed.take(i as int).push(dv));
                g0.delayed.take(i as int).lemma_filter_push(dv, wait);
                g0.delayed.take(i as int).lemma_filter_push(dv, due_test);
                assert(dv.depends_on == d.depends_on@);
            }
            let due = d.execute_phase == current_phase && all_done(&d.depends_on, &self.executed_delayed);
            proof {
                assert(due == is_due(done, current_phase, dv));
            }
            if due {
                let ghost before = ready@;
                ready.push(d);
                proof {
                    assert(delayed_view(ready@) =~= delayed_view(before).push(dv));
                }
            } else {
                let ghost before = still@;
                still.push(d);
                proof {
                    assert(delayed_view(still@) =~= delayed_view(before).push(dv));
                }
            }
            i += 1;
        }
        proof {
            assert(g0.delayed.take(n as int) =~= g0.delayed);
        }
        self.delayed = still;
        let ghost kept = delayed_view(self.delayed@);
        let ghost rv = delayed_view(ready@);
        let sorted = sort_by_id(ready);
        let ghost sv = delayed_view(sorted@);
        let ghost g1 = self@;
        proof {
            assert(dispatch_steps(seq![g1], Seq::<DelayedEffectV>::empty()));
            assert(sv.take(0) =~= Seq::<DelayedEffectV>::empty());
        }
        let ghost ids = Set::new(|id: usize| exists|j: int| 0 <= j < sv.len() && sv[j].id == id);
        proof {
            assert(ids =~= due_ids(g0, current_phase)) by {
                assert forall|id: usize| ids.contains(id) implies #[trigger] due_ids(g0, current_phase).contains(id) by {
                    let j = choose|j: int| 0 <= j < sv.len() && sv[j].id == id;
                    assert(sv.contains(sv[j]));
                    vstd::seq_lib::to_multiset_contains(sv, sv[j]);
                    vstd::seq_lib::to_multiset_contains(rv, sv[j]);
                    let q = choose|q: int| 0 <= q < rv.len() && rv[q] == sv[j];
                    g0.delayed.lemma_filter_pred(due_test, q);
                    g0.delayed.lemma_filter_contains_rev(due_test, sv[j]);
                    let m = choose|m: int| 0 <= m < g0.delayed.len() && g0.delayed[m] == sv[j];
                    assert(is_due(g0.executed_delayed, current_phase, g0.delayed[m]) && g0.delayed[m].id == id);
                }
                assert forall|id: usize| #[trigger] due_ids(g0, current_phase).contains(id) implies ids.contains(id) by {
                    let m = choose|m: int|
                        0 <= m < g0.delayed.len() && is_due(g0.executed_delayed, current_phase, #[trigger] g0.delayed[m])
                            && g0.delayed[m].id == id;
                    g0.delayed.lemma_filter_contains(due_test, m);
                    vstd::seq_lib::to_multiset_contains(sv, g0.delayed[m]);
                    vstd::seq_lib::to_multiset_contains(rv, g0.delayed[m]);
                    let j = choose|j: int| 0 <= j < sv.len() && sv[j] == g0.delayed[m];
                    assert(sv[j].id == id);
                }
            }
        }
        let mut k: usize = 0;
        while k < sorted.len()
            invariant
                k <= sorted@.len(),
                sv == delayed_view(sorted@),
                self.wf(),
                self@.replacement_effects == g0.replacement_effects,
                self@.continuous_effects == g0.continuous_effects,
                self@.executed_delayed == done.union(ids_upto(sv, k as int)),
                kept.len() <= self@.delayed.len(),
                forall|i: int| 0 <= i < kept.len() ==> #[trigger] self@.delayed[i] == kept[i],
                g1 == (GreV { delayed: kept, ..g0 }),
                dispatched(g1, sv.take(k as int), self@),
            decreases sorted.len() - k,
        {
            let id = sorted[k].id;
            let ghost before_k = self@;
            self.executed_delayed.insert(id);
            let e = clone_effect(&sorted[k].effect);
            let ghost mid = self@;
            proof {
                assert(sv[k as int].id == id);
                assert forall|x: usize| #[trigger] ids_upto(sv, k as int + 1).contains(x) == ids_upto(sv, k as int).insert(id).contains(x) by {
                    if ids_upto(sv, k as int + 1).contains(x) {
                        let j = choose|j: int| 0 <= j < k + 1 && sv[j].id == x;
                        if j < k {
                            assert(ids_upto(sv, k as int).contains(x));
                        }
                    }
                    if ids_upto(sv, k as int).contains(x) {
                        let j = choose|j: int| 0 <= j < k && sv[j].id == x;
                        assert(0 <= j < k + 1 && sv[j].id == x);
                    }
                    if x == id {
                        assert(0 <= k < k + 1 && sv[k as int].id == x);
                    }
                }
                assert(ids_upto(sv, k as int + 1) =~= ids_upto(sv, k as int).insert(id));
                assert(mid.executed_delayed =~= done.union(ids_upto(sv, k as int + 1)));
            }
            self.handle_effect(e);
            proof {
                assert forall|i: int| 0 <= i < kept.len() implies #[trigger] self@.delayed[i] == kept[i] by {
                    assert(mid.delayed[i] == kept[i]);
                }
                assert(mid == (GreV { executed_delayed: before_k.executed_delayed.insert(sv[k as int].id), ..before_k }));
                assert(dispatch_step(before_k, sv[k as int], self@));
                lemma_dispatched_step(g1, sv.take(k as int), before_k, sv[k as int], self@);
                assert(sv.take(k as int).push(sv[k as int]) =~= sv.take(k as int + 1));
            }
            k += 1;
        }
        proof {
            assert(ids_upto(sv, k as int) =~= ids);
            assert(sv.take(k as int) =~= sv);
            assert(sv.to_multiset() == g0.delayed.filter(due_test).to_multiset());
        }
    }

    /// Casts a spell at a target creature: the spell goes on the stack with priority 0, every
    /// player gets their pass back, and the target is made known as targeted.
    pub fn cast_spell_with_target(&mut self, card: Card, controller: Player, target: Card)
        requires
            old(self).wf(),
        ensures
            final(self).wf(),
            final(self)@ == trigger::targeted_result(
                GreV {
                    passes: 0,
                    ..pushed(
                        old(self)@,
                        StackEntryV::Spell { card: card@, controller, target_creature: Some(target@) },
                        0,
                    )
                },
                target.card_id,
                controller,
            ),
    {
        let target_id = target.card_id;
        let entry = StackEntry::Spell { card, controller, target_creature: Some(target) };
        self.push(entry, 0);
        self.reset_priority();
        let mut none: Vec<Card> = Vec::new();
        self.trigger_event(GameEvent::Targeted(target_id), &mut none, controller);
    }
}

/// The test "is not an aura token named `name` attached to `target`" on a tracked entry.
pub open spec fn not_role(name: Seq<char>, target: u64) -> spec_fn((u64, CardV)) -> bool {
    |p: (u64, CardV)| !is_role_on(p.1, name, target)
}

/// The engine with the aura tokens named `name` attached to the permanent `tid` taken off the
/// battlefield.
pub open spec fn without_roles(a: GreV, name: Seq<char>, tid: u64) -> GreV {
    GreV { battlefield: a.battlefield.filter(not_role(name, tid)), ..a }
}

/// The bare aura token named `name` that a resolving spell attaches to the permanent `tid`.
pub open spec fn role_token(name: Seq<char>, tid: u64) -> CardV {
    CardV {
        card_id: 0,
        name,
        card_type: CardTypeV::Enchantment,
        type_flags: CardTypeFlags { bits: FLAG_ENCHANTMENT | FLAG_TOKEN },
        mana_cost: ManaCost { colorless: 0, red: 0, green: 0, blue: 0, white: 0, black: 0 },
        attributes: Seq::empty(),
        triggers: Seq::empty(),
        activated_abilities: Seq::empty(),
        attached_to: Some(tid),
    }
}

/// Whether `b` can come of carrying out one effect of a resolving spell's targeted group at
/// target `t`, from `a`: "when the target dies" registers a death trigger on it, an aura token
/// replaces the older ones of its name on it and enters attached to it, and any other effect is
/// carried out aimed at it.
pub open spec fn group_step(a: GreV, e: EffectV, t: CardV, b: GreV) -> bool {
    match e {
        EffectV::WhenTargetDiesThisTurn { effect } => b == (GreV { death_triggers: a.death_triggers.push((t, *effect)), ..a }),
        EffectV::CreateEnchantmentToken { name, .. } => entered_then(
            without_roles(a, name, t.card_id),
            role_token(name, t.card_id),
            EFFECT_DEPTH,
            b,
        ),
        other => effect_resolution::handles(a, retarget(other, t.card_id), b),
    }
}

/// Whether the engine states `ms` are the steps of carrying out a targeted group `es` at `t`.
pub open spec fn group_steps(ms: Seq<GreV>, es: Seq<EffectV>, t: CardV) -> bool {
    &&& ms.len() == es.len() + 1
    &&& forall|i: int| #![trigger es[i]] 0 <= i < es.len() ==> group_step(ms[i], es[i], t, ms[i + 1])
}

/// Whether `b` can come of carrying out the targeted group `es` at `t`, in order, from `a`.
pub open spec fn group_done(a: GreV, es: Seq<EffectV>, t: CardV, b: GreV) -> bool {
    exists|ms: Seq<GreV>| #[trigger] group_steps(ms, es, t) && ms[0] == a && ms[es.len() as int] == b
}

/// Carrying out an empty group leaves the engine as it is.
pub proof fn lemma_group_done_empty(a: GreV, t: CardV)
    ensures
        group_done(a, Seq::empty(), t, a),
{
    assert(group_steps(seq![a], Seq::empty(), t));
}

/// Carrying out one more effect of a group extends the run.
pub proof fn lemma_group_done_step(a: GreV, es: Seq<EffectV>, t: CardV, m: GreV, e: EffectV, b: GreV)
    requires
        group_done(a, es, t, m),
        group_step(m, e, t, b),
    ensures
        group_done(a, es.push(e), t, b),
{
    let ms = choose|ms: Seq<GreV>| #[trigger] group_steps(ms, es, t) && ms[0] == a && ms[es.len() as int] == m;
    let ms2 = ms.push(b);
    let es2 = es.push(e);
    assert forall|i: int| #![trigger es2[i]] 0 <= i < es2.len() implies group_step(ms2[i], es2[i], t, ms2[i + 1]) by {
        if i < es.len() {
            assert(es2[i] == es[i]);
        }
    }
    assert(group_steps(ms2, es2, t));
}

/// Whether `b` can come of carrying out one "on resolution" effect of a spell with optional
/// target `target`, from `a`: a targeted group is carried out at the target (nothing without
/// one), any other effect as it is.
pub open spec fn spell_step(a: GreV, e: EffectV, target: Option<CardV>, b: GreV) -> bool {
    match e {
        EffectV::TargetedEffects { sub_effects } => match target {
            Some(t) => group_done(a, sub_effects, t, b),
            None => b == a,
        },
        other => effect_resolution::handles(a, other, b),
    }
}

/// Whether the engine states `ms` are the steps of carrying out a spell's effects `es`.
pub open spec fn spell_steps(ms: Seq<GreV>, es: Seq<EffectV>, target: Option<CardV>) -> bool {
    &&& ms.len() == es.len() + 1
    &&& forall|i: int| #![trigger es[i]] 0 <= i < es.len() ==> spell_step(ms[i], es[i], target, ms[i + 1])
}

/// Whether `b` can come of carrying out a spell's effects `es`, in order, from `a`.
pub open spec fn spell_done(a: GreV, es: Seq<EffectV>, target: Option<CardV>, b: GreV) -> bool {
    exists|ms: Seq<GreV>| #[trigger] spell_steps(ms, es, target) && ms[0] == a && ms[es.len() as int] == b
}

/// Carrying out no effect of a spell leaves the engine as it is.
pub proof fn lemma_spell_done_empty(a: GreV, target: Option<CardV>)
    ensures
        spell_done(a, Seq::empty(), target, a),
{
    assert(spell_steps(seq![a], Seq::empty(), target));
}

/// Carrying out one more effect of a spell extends the run.
pub proof fn lemma_spell_done_step(a: GreV, es: Seq<EffectV>, target: Option<CardV>, m: GreV, e: EffectV, b: GreV)
    requires
        spell_done(a, es, target, m),
        spell_step(m, e, target, b),
    ensures
        spell_done(a, es.push(e), target, b),
{
    let ms = choose|ms: Seq<GreV>| #[trigger] spell_steps(ms, es, target) && ms[0] == a && ms[es.len() as int] == m;
    let ms2 = ms.push(b);
    let es2 = es.push(e);
    assert forall|i: int| #![trigger es2[i]] 0 <= i < es2.len() implies spell_step(ms2[i], es2[i], target, ms2[i + 1]) by {
        if i < es.len() {
            assert(es2[i] == es[i]);
        }
    }
    assert(spell_steps(ms2, es2, target));
}

/// Whether `b` can come of resolving spell `card` with optional target `target`, taken off the
/// stack, from `a`: the card enters the battlefield (see `entered_then`), its "on resolution"
/// answers are carried out (see `spell_done`), and then every player gets their pass back.
#[verifier::opaque]
pub open spec fn spell_resolved(a: GreV, card: CardV, target: Option<CardV>, b: GreV) -> bool {
    exists|m1: GreV, m2: GreV|
        #[trigger] entered_then(a, card, EFFECT_DEPTH, m1) && #[trigger] spell_done(
            m1,
            card_answers(card_after(assigned(a, card), enters_trigger()), Trigger::OnCastResolved),
            target,
            m2,
        ) && b == (GreV { passes: 0, ..m2 })
}

/// Whether `b` can come of carrying out effect `e` with `source` as source card from `a` (see
/// `handles`), the source card being forgotten afterwards.
pub open spec fn source_handled(a: GreV, source: Option<CardV>, e: EffectV, b: GreV) -> bool {
    exists|m: GreV| #[trigger] effect_resolution::handles(GreV { current_source_card: source, ..a }, e, m) && b == (GreV { current_source_card: None, ..m })
}

/// Whether `b` can come of resolving the top entry of the stack of `a` (there is one): it is
/// taken off; a spell resolves (see `spell_resolved`), an ability's effect is carried out with
/// its source as source card (see `source_handled`).
pub open spec fn stack_step(a: GreV, b: GreV) -> bool {
    &&& a.stack.len() > 0
    &&& match a.stack[top_index(a.stack)].entry {
        StackEntryV::Spell { card, target_creature, .. } => spell_resolved(popped(a), card, target_creature, b),
        StackEntryV::TriggeredAbility { source, effect, .. } => source_handled(popped(a), source, effect, b),
        StackEntryV::ActivatedAbility { source, ability, .. } => source_handled(popped(a), Some(source), ability.effect, b),
    }
}

/// Whether the state after position `i` of `ms` comes of resolving one entry from the state at
/// position `i`.
pub open spec fn step_at(ms: Seq<GreV>, i: int) -> bool {
    stack_step(ms[i], ms[i + 1])
}

/// Whether `b` can come of resolving the stack of `a`, top first, one entry after the other,
/// until the stack is empty or `RESOLVE_LIMIT` entries were resolved.
pub open spec fn stack_resolved(a: GreV, b: GreV) -> bool {
    exists|ms: Seq<GreV>|
        #![trigger ms.len(), ms[0]]
        {
            &&& 1 <= ms.len() <= RESOLVE_LIMIT + 1
            &&& ms[0] == a
            &&& ms[ms.len() - 1] == b
            &&& forall|i: int| 0 <= i < ms.len() - 1 ==> #[trigger] step_at(ms, i)
            &&& (b.stack.len() == 0 || ms.len() == RESOLVE_LIMIT + 1)
        }
}

/// Whether resolving the stack of `a` entry by entry ends with an empty stack after exactly `n`
/// entries were resolved.
pub open spec fn resolution_ends(a: GreV, n: nat) -> bool {
    exists|ms: Seq<GreV>|
        #![trigger ms.len(), ms[0]]
        {
            &&& ms.len() == n + 1
            &&& ms[0] == a
            &&& ms[n as int].stack.len() == 0
            &&& forall|i: int| 0 <= i < n ==> #[trigger] step_at(ms, i)
        }
}

/// Two runs of a targeted group from the same state agree at every position.
proof fn lemma_group_steps_agree(ms1: Seq<GreV>, ms2: Seq<GreV>, es: Seq<EffectV>, t: CardV, i: int)
    requires
        group_steps(ms1, es, t),
        group_steps(ms2, es, t),
        ms1[0] == ms2[0],
        0 <= i <= es.len(),
    ensures
        ms1[i] == ms2[i],
    decreases i,
{
    if i > 0 {
        lemma_group_steps_agree(ms1, ms2, es, t, i - 1);
        assert(group_step(ms1[i - 1], es[i - 1], t, ms1[i]));
        assert(group_step(ms2[i - 1], es[i - 1], t, ms2[i]));
    }
}

/// Carrying out a targeted group has one outcome.
proof fn lemma_group_done_unique(a: GreV, es: Seq<EffectV>, t: CardV, b1: GreV, b2: GreV)
    requires
        group_done(a, es, t, b1),
        group_done(a, es, t, b2),
    ensures
        b1 == b2,
{
    let ms1 = choose|ms: Seq<GreV>| #[trigger] group_steps(ms, es, t) && ms[0] == a && ms[es.len() as int] == b1;
    let ms2 = choose|ms: Seq<GreV>| #[trigger] group_steps(ms, es, t) && ms[0] == a && ms[es.len() as int] == b2;
    lemma_group_steps_agree(ms1, ms2, es, t, es.len() as int);
}

/// Two runs of a spell's effects from the same state agree at every position.
proof fn lemma_spell_steps_agree(ms1: Seq<GreV>, ms2: Seq<GreV>, es: Seq<EffectV>, target: Option<CardV>, i: int)
    requires
        spell_steps(ms1, es, target),
        spell_steps(ms2, es, target),
        ms1[0] == ms2[0],
        0 <= i <= es.len(),
    ensures
        ms1[i] == ms2[i],
    decreases i,
{
    if i > 0 {
        lemma_spell_steps_agree(ms1, ms2, es, target, i - 1);
        assert(spell_step(ms1[i - 1], es[i - 1], target, ms1[i]));
        assert(spell_step(ms2[i - 1], es[i - 1], target, ms2[i]));
        if let EffectV::TargetedEffects { sub_effects } = es[i - 1] {
            if let Some(t) = target {
                lemma_group_done_unique(ms1[i - 1], sub_effects, t, ms1[i], ms2[i]);
            }
        }
    }
}

/// Carrying out a spell's effects has one outcome.
proof fn lemma_spell_done_unique(a: GreV, es: Seq<EffectV>, target: Option<CardV>, b1: GreV, b2: GreV)
    requires
        spell_done(a, es, target, b1),
        spell_done(a, es, target, b2),
    ensures
        b1 == b2,
{
    let ms1 = choose|ms: Seq<GreV>| #[trigger] spell_steps(ms, es, target) && ms[0] == a && ms[es.len() as int] == b1;
    let ms2 = choose|ms: Seq<GreV>| #[trigger] spell_steps(ms, es, target) && ms[0] == a && ms[es.len() as int] == b2;
    lemma_spell_steps_agree(ms1, ms2, es, target, es.len() as int);
}

/// Resolving the top entry of the stack has one outcome.
proof fn lemma_stack_step_unique(a: GreV, b1: GreV, b2: GreV)
    requires
        stack_step(a, b1),
        stack_step(a, b2),
    ensures
        b1 == b2,
{
    reveal(spell_resolved);
    if let StackEntryV::Spell { card, target_creature, .. } = a.stack[top_index(a.stack)].entry {
        let es = card_answers(card_after(assigned(popped(a), card), enters_trigger()), Trigger::OnCastResolved);
        let (m1, m2) = choose|m1: GreV, m2: GreV|
            #[trigger] entered_then(popped(a), card, EFFECT_DEPTH, m1) && #[trigger] spell_done(m1, es, target_creature, m2)
                && b1 == (GreV { passes: 0, ..m2 });
        let (n1, n2) = choose|m1: GreV, m2: GreV|
            #[trigger] entered_then(popped(a), card, EFFECT_DEPTH, m1) && #[trigger] spell_done(m1, es, target_creature, m2)
                && b2 == (GreV { passes: 0, ..m2 });
        lemma_spell_done_unique(m1, es, target_creature, m2, n2);
    }
}

/// Two runs of stack resolution from the same state agree at every position both reach.
proof fn lemma_runs_agree(ms: Seq<GreV>, ns: Seq<GreV>, i: int)
    requires
        ms[0] == ns[0],
        forall|j: int| 0 <= j < ms.len() - 1 ==> #[trigger] step_at(ms, j),
        forall|j: int| 0 <= j < ns.len() - 1 ==> #[trigger] step_at(ns, j),
        0 <= i < ms.len(),
        i < ns.len(),
    ensures
        ms[i] == ns[i],
    decreases i,
{
    if i > 0 {
        lemma_runs_agree(ms, ns, i - 1);
        assert(step_at(ms, i - 1));
        assert(step_at(ns, i - 1));
        lemma_stack_step_unique(ms[i - 1], ms[i], ns[i]);
    }
}

/// Resolving the stack empties it whenever resolving it entry by entry comes to an empty stack
/// within `RESOLVE_LIMIT` entries: a resolution that ends is carried to its end.
pub proof fn lemma_resolution_that_ends_empties(a: GreV, b: GreV, n: nat)
    requires
        stack_resolved(a, b),
        resolution_ends(a, n),
        n <= RESOLVE_LIMIT,
    ensures
        b.stack.len() == 0,
{
    let ms = choose|ms: Seq<GreV>|
        #![trigger ms.len(), ms[0]]
        {
            &&& 1 <= ms.len() <= RESOLVE_LIMIT + 1
            &&& ms[0] == a
            &&& ms[ms.len() - 1] == b
            &&& forall|i: int| 0 <= i < ms.len() - 1 ==> #[trigger] step_at(ms, i)
            &&& (b.stack.len() == 0 || ms.len() == RESOLVE_LIMIT + 1)
        };
    let ns = choose|ns: Seq<GreV>|
        #![trigger ns.len(), ns[0]]
        {
            &&& ns.len() == n + 1
            &&& ns[0] == a
            &&& ns[n as int].stack.len() == 0
            &&& forall|i: int| 0 <= i < n ==> #[trigger] step_at(ns, i)
        };
    if b.stack.len() != 0 {
        lemma_runs_agree(ms, ns, n as int);
        if n < ms.len() - 1 {
            assert(step_at(ms, n as int));
        }
    }
}

/// The engine with the top of its stack taken off.
pub open spec fn popped(g: GreV) -> GreV {
    GreV { stack: g.stack.remove(top_index(g.stack)), ..g }
}

/// What resolving an ability does when its effect settles directly: the effect happens with the
/// ability's source as source card, which is then forgotten.
pub open spec fn ability_result(g: GreV, source: Option<CardV>, effect: EffectV) -> GreV {
    GreV { current_source_card: None, ..direct_result(GreV { current_source_card: source, ..g }, effect) }
}

impl Gre {
    /// Takes the top entry off the stack; an ability's effect is carried out with its source as
    /// source card; a spell is only taken off.
    pub fn resolve_top_of_stack(&mut self)
        requires
            old(self).wf(),
        ensures
            final(self).wf(),
            follows(old(self)@, final(self)@),
            old(self)@.stack.len() == 0 ==> final(self)@ == old(self)@,
            old(self)@.stack.len() > 0 ==> ({
                let g1 = popped(old(self)@);
                match old(self)@.stack[top_index(old(self)@.stack)].entry {
                    StackEntryV::Spell { .. } => final(self)@ == g1,
                    StackEntryV::TriggeredAbility { source, effect, .. } => plain(g1) && settles_directly(
                        GreV { current_source_card: source, ..g1 },
                        effect,
                    ) ==> final(self)@ == ability_result(g1, source, effect),
                    StackEntryV::ActivatedAbility { source, ability, .. } => plain(g1) && settles_directly(
                        GreV { current_source_card: Some(source), ..g1 },
                        ability.effect,
                    ) ==> final(self)@ == ability_result(g1, Some(source), ability.effect),
                }
            }),
    {
        if self.stack.len() == 0 {
            return;
        }
        self.pop_and_resolve_ability();
    }

    /// Takes the top entry off the stack (there is one) and carries out an ability's effect.
    fn pop_and_resolve_ability(&mut self)
        requires
            old(self).wf(),
            old(self)@.stack.len() > 0,
        ensures
            final(self).wf(),
            follows(old(self)@, final(self)@),
            ({
                let g1 = popped(old(self)@);
                match old(self)@.stack[top_index(old(self)@.stack)].entry {
                    StackEntryV::Spell { .. } => final(self)@ == g1,
                    StackEntryV::TriggeredAbility { source, effect, .. } => plain(g1) && settles_directly(
                        GreV { current_source_card: source, ..g1 },
                        effect,
                    ) ==> final(self)@ == ability_result(g1, source, effect),
                    StackEntryV::ActivatedAbility { source, ability, .. } => plain(g1) && settles_directly(
                        GreV { current_source_card: Some(source), ..g1 },
                        ability.effect,
                    ) ==> final(self)@ == ability_result(g1, Some(source), ability.effect),
                }
            }),
    {
        let ghost g0 = self@;
        let i = top_position(&self.stack);
        let ghost before = self.stack@;
        let pe = self.stack.remove(i);
        proof {
            assert(stack_view(self.stack@) =~= stack_view(before).remove(i as int));
            assert(self@ == popped(g0));
            assert(pe@ == g0.stack[i as int]);
        }
        match pe.entry {
            StackEntry::TriggeredAbility { source, effect, .. } => {
                self.resolve_ability(source, effect);
            },
            StackEntry::ActivatedAbility { source, ability, .. } => {
                self.resolve_ability(Some(source), ability.effect);
            },
            StackEntry::Spell { .. } => {},
        }
    }

    /// Carries out an ability's effect with its source as source card, then forgets the source.
    fn resolve_ability(&mut self, source: Option<Card>, effect: Effect)
        requires
            old(self).wf(),
        ensures
            final(self).wf(),
            follows(old(self)@, final(self)@),
            plain(old(self)@) && settles_directly(GreV { current_source_card: opt_card_view(source), ..old(self)@ }, effect@)
                ==> final(self)@ == ability_result(old(self)@, opt_card_view(source), effect@),
    {
        self.current_source_card = source;
        self.handle_effect(effect);
        self.current_source_card = None;
    }

    /// Resolves the stack, top first, until it is empty (at most `RESOLVE_LIMIT` entries): a
    /// spell enters the battlefield, its "on resolution" effects are carried out (a targeted group
    /// aimed at the spell's target), and its resolution is made known; an ability's effect is
    /// carried out with its source as source card.
    pub fn resolve_stack(&mut self)
        requires
            old(self).wf(),
        ensures
            final(self).wf(),
            old(self)@.stack.len() == 0 ==> final(self)@ == old(self)@,
            final(self)@.replacement_effects == old(self)@.replacement_effects,
            final(self)@.continuous_effects == old(self)@.continuous_effects,
            final(self)@.executed_delayed == old(self)@.executed_delayed,
            stack_resolved(old(self)@, final(self)@),
            forall|n: nat| n <= RESOLVE_LIMIT && #[trigger] resolution_ends(old(self)@, n) ==> final(self)@.stack.len() == 0,
    {
        let ghost g0 = self@;
        let ghost mut ms: Seq<GreV> = seq![g0];
        let mut budget: u64 = RESOLVE_LIMIT;
        while budget > 0 && self.stack.len() > 0
            invariant
                self.wf(),
                follows(g0, self@),
                g0.stack.len() == 0 ==> self@ == g0,
                budget <= RESOLVE_LIMIT,
                ms.len() == RESOLVE_LIMIT - budget + 1,
                ms[0] == g0,
                ms[ms.len() - 1] == self@,
                forall|i: int| 0 <= i < ms.len() - 1 ==> #[trigger] step_at(ms, i),
            decreases budget,
        {
            budget -= 1;
            let ghost g = self@;
            let i = top_position(&self.stack);
            let ghost before = self.stack@;
            let pe = self.stack.remove(i);
            proof {
                assert(stack_view(self.stack@) =~= stack_view(before).remove(i as int));
                assert(self@ == popped(g));
                assert(pe@ == g.stack[i as int]);
            }
            match pe.entry {
                StackEntry::Spell { card, controller, target_creature } => {
                    self.resolve_spell(card, controller, target_creature);
                },
                StackEntry::TriggeredAbility { source, effect, .. } => {
                    self.current_source_card = source;
                    let ghost gs = self@;
                    self.handle_effect(effect);
                    let ghost m = self@;
                    self.current_source_card = None;
                    proof {
                        assert(effect_resolution::handles(gs, effect@, m));
                    }
                },
                StackEntry::ActivatedAbility { source, ability, .. } => {
                    self.current_source_card = Some(source);
                    let ghost gs = self@;
                    self.handle_effect(ability.effect);
                    let ghost m = self@;
                    self.current_source_card = None;
                    proof {
                        assert(effect_resolution::handles(gs, ability.effect@, m));
                    }
                },
            }
            proof {
                assert(stack_step(g, self@));
                let ms2 = ms.push(self@);
                assert forall|j: int| 0 <= j < ms2.len() - 1 implies #[trigger] step_at(ms2, j) by {
                    if j < ms.len() - 1 {
                        assert(step_at(ms, j));
                    }
                }
                ms = ms2;
            }
        }
        proof {
            assert(ms.len() >= 1 && ms[0] == g0);
            assert(stack_resolved(g0, self@));
            assert forall|n: nat| n <= RESOLVE_LIMIT && #[trigger] resolution_ends(g0, n) implies self@.stack.len() == 0 by {
                lemma_resolution_that_ends_empties(g0, self@, n);
            }
        }
    }

    /// Resolves a spell taken off the stack.
    fn resolve_spell(&mut self, card: Card, controller: Player, local_target: Option<Card>)
        requires
            old(self).wf(),
        ensures
            final(self).wf(),
            follows(old(self)@, final(self)@),
            spell_resolved(old(self)@, card@, opt_card_view(local_target), final(self)@),
    {
        let ghost g0 = self@;
        let ghost tv = opt_card_view(local_target);
        let mut c = card.clone();
        self.enter_battlefield(&mut c);
        let ghost m1 = self@;
        let effects = c.trigger_by(&Trigger::OnCastResolved);
        let ghost es = crate::app::card_attribute::effects_view(effects@);
        proof {
            crate::app::card_attribute::lemma_effects_view(effects@);
            lemma_spell_done_empty(m1, tv);
            assert(es.take(0) =~= Seq::<EffectV>::empty());
        }
        let mut k: usize = 0;
        while k < effects.len()
            invariant
                self.wf(),
                follows(g0, self@),
                k <= effects@.len(),
                es == crate::app::card_attribute::effects_view(effects@),
                es.len() == effects@.len(),
                forall|j: int| 0 <= j < effects@.len() ==> #[trigger] es[j] == effects@[j]@,
                tv == opt_card_view(local_target),
                spell_done(m1, es.take(k as int), tv, self@),
            decreases effects.len() - k,
        {
            let eff = clone_effect(&effects[k]);
            let ghost m = self@;
            match eff {
                Effect::TargetedEffects { sub_effects } => {
                    if let Some(actual_target) = &local_target {
                        self.resolve_targeted_group(sub_effects, actual_target);
                    }
                },
                other => {
                    self.handle_effect(other);
                },
            }
            proof {
                assert(spell_step(m, es[k as int], tv, self@));
                lemma_spell_done_step(m1, es.take(k as int), tv, m, es[k as int], self@);
                assert(es.take(k as int).push(es[k as int]) =~= es.take(k as int + 1));
            }
            k += 1;
        }
        proof {
            assert(es.take(k as int) =~= es);
        }
        let ghost m2 = self@;
        let mut none: Vec<Card> = Vec::new();
        self.trigger_event(GameEvent::SpellResolved(c.name.clone()), &mut none, controller);
        proof {
            assert(trigger::cards_view(Seq::<Card>::empty()) =~= Seq::<CardV>::empty());
            assert(trigger::batch_of(Seq::<CardV>::empty(), Trigger::OnCastResolved) =~= Seq::empty());
            assert(self@ == (GreV { passes: 0, ..m2 }));
            reveal(spell_resolved);
        }
    }

    /// Carries out a resolving spell's targeted group at its target: death triggers are
    /// registered on it, aura tokens are attached to it, and every other effect is aimed at it.
    /// Takes off the battlefield every aura token named `name` already attached to the permanent
    /// `target`, so that a new one of the same kind replaces it; nothing else changes.
    fn remove_older_roles(&mut self, name: &str, target: u64)
        requires
            old(self).wf(),
        ensures
            final(self).wf(),
            final(self)@ == (GreV { battlefield: final(self)@.battlefield, ..old(self)@ }),
            forall|j: int| 0 <= j < final(self)@.battlefield.len() ==> !is_role_on(
                #[trigger] final(self)@.battlefield[j].1,
                name@,
                target,
            ),
            forall|j: int| 0 <= j < final(self)@.battlefield.len() ==> has_key(
                old(self)@.battlefield,
                #[trigger] final(self)@.battlefield[j].0,
            ),
            final(self)@.battlefield == old(self)@.battlefield.filter(not_role(name@, target)),
    {
        let ghost g0 = self@;
        let ghost b0 = g0.battlefield;
        let ghost f = not_role(name@, target);
        proof {
            assert(b0.take(0).filter(f) + b0.skip(0) =~= b0) by {
                assert(b0.take(0) =~= Seq::<(u64, CardV)>::empty());
                reveal(Seq::filter);
                assert(b0.take(0).filter(f) =~= Seq::<(u64, CardV)>::empty());
            }
        }
        let keys = self.battlefield_creatures.keys();
        let mut i: usize = 0;
        while i < keys.len()
            invariant
                self.wf(),
                self@ == (GreV { battlefield: self@.battlefield, ..g0 }),
                distinct_keys(b0),
                keys@ == card_map::keys_of(b0),
                i <= keys@.len(),
                forall|j: int| 0 <= j < self@.battlefield.len() ==> {
                    &&& has_key(b0, #[trigger] self@.battlefield[j].0)
                    &&& (index_of(b0, self@.battlefield[j].0) < i ==> !is_role_on(self@.battlefield[j].1, name@, target))
                },
                f == not_role(name@, target),
                self@.battlefield == b0.take(i as int).filter(f) + b0.skip(i as int),
            decreases keys.len() - i,
        {
            let k = keys[i];
            let ghost before = self@.battlefield;
            proof {
                assert(b0[i as int].0 == k);
                lemma_index_of(b0, k, i as int);
            }
            let doomed = match self.battlefield_creatures.get(k) {
                Some(c) => {
                    let attached = match c.attached_to {
                        Some(t) => t == target,
                        None => false,
                    };
                    attached && c.type_flags.contains(CardTypeFlags::token()) && crate::app::text::str_eq(
                        c.name.as_str(),
                        name,
                    )
                },
                None => false,
            };
            proof {
                assert forall|j: int| 0 <= j < before.len() && before[j].0 == k implies doomed == is_role_on(
                    before[j].1,
                    name@,
                    target,
                ) by {
                    lemma_index_of(before, k, j);
                }
            }
            let ghost pre = b0.take(i as int).filter(f);
            proof {
                assert(before[pre.len() as int] == b0[i as int]);
                assert(b0.take(i as int + 1) =~= b0.take(i as int).push(b0[i as int]));
                b0.take(i as int).lemma_filter_push(b0[i as int], f);
                assert(b0.skip(i as int) =~= seq![b0[i as int]] + b0.skip(i as int + 1));
            }
            if doomed {
                self.battlefield_creatures.remove(k);
                proof {
                    let r = choose|r: int| 0 <= r < before.len() && before[r].0 == k && self@.battlefield == before.remove(r);
                    assert(before[pre.len() as int].0 == k);
                    assert(r == pre.len());
                    assert(self@.battlefield =~= b0.take(i as int + 1).filter(f) + b0.skip(i as int + 1));
                }
            } else {
                proof {
                    assert(self@.battlefield =~= b0.take(i as int + 1).filter(f) + b0.skip(i as int + 1));
                }
            }
            proof {
                let after = self@.battlefield;
                assert forall|j: int| 0 <= j < after.len() implies {
                    &&& has_key(b0, #[trigger] after[j].0)
                    &&& (index_of(b0, after[j].0) < i + 1 ==> !is_role_on(after[j].1, name@, target))
                } by {
                    let jj = if doomed {
                        let r = choose|r: int| 0 <= r < before.len() && before[r].0 == k && after == before.remove(r);
                        if j < r { j } else { j + 1 }
                    } else {
                        j
                    };
                    assert(after[j] == before[jj]);
                    if after[j].0 == k {
                        assert(!doomed);
                    } else {
                        let m = index_of(b0, after[j].0);
                        assert(0 <= m < b0.len() && b0[m].0 == after[j].0);
                        assert(m != i);
                    }
                }
            }
            i += 1;
        }
        proof {
            assert(b0.take(i as int) =~= b0);
            assert(b0.skip(i as int) =~= Seq::<(u64, CardV)>::empty());
            assert(self@.battlefield =~= b0.filter(f));
            assert forall|j: int| 0 <= j < self@.battlefield.len() implies !is_role_on(
                #[trigger] self@.battlefield[j].1,
                name@,
                target,
            ) by {
                let e = self@.battlefield[j].0;
                let m = index_of(b0, e);
                assert(0 <= m < b0.len());
            }
        }
    }

    fn resolve_targeted_group(&mut self, sub_effects: Vec<Effect>, actual_target: &Card)
        requires
            old(self).wf(),
        ensures
            final(self).wf(),
            follows(old(self)@, final(self)@),
            group_done(old(self)@, crate::app::card_attribute::effects_view(sub_effects@), actual_target@, final(self)@),
    {
        let ghost g0 = self@;
        let ghost es = crate::app::card_attribute::effects_view(sub_effects@);
        let ghost t = actual_target@;
        proof {
            crate::app::card_attribute::lemma_effects_view(sub_effects@);
            lemma_group_done_empty(g0, t);
            assert(es.take(0) =~= Seq::<EffectV>::empty());
        }
        let mut j: usize = 0;
        while j < sub_effects.len()
            invariant
                self.wf(),
                follows(g0, self@),
                j <= sub_effects@.len(),
                es.len() == sub_effects@.len(),
                forall|i: int| 0 <= i < sub_effects@.len() ==> #[trigger] es[i] == sub_effects@[i]@,
                t == actual_target@,
                group_done(g0, es.take(j as int), t, self@),
            decreases sub_effects.len() - j,
        {
            let sub = clone_effect(&sub_effects[j]);
            let ghost m = self@;
            match sub {
                Effect::WhenTargetDiesThisTurn { effect } => {
                    let tc = actual_target.clone();
                    let ghost dv = self.death_triggers_this_turn@;
                    self.death_triggers_this_turn.push((tc, *effect));
                    proof {
                        assert(death_triggers_view(self.death_triggers_this_turn@) =~= death_triggers_view(dv).push((t, (*effect)@)));
                    }
                },
                Effect::CreateEnchantmentToken { name, .. } => {
                    self.remove_older_roles(name.as_str(), actual_target.card_id);
                    let ghost mr = self@;
                    let mut aura_card = Card::new(name.as_str(), CardType::Enchantment, ManaCost::free()).with_added_type(
                        CardTypeFlags::token(),
                    );
                    aura_card.attached_to = Some(actual_target.card_id);
                    proof {
                        assert(aura_card@ == role_token(name@, t.card_id));
                        assert(mr == without_roles(m, name@, t.card_id));
                    }
                    self.enter_battlefield(&mut aura_card);
                },
                other => {
                    let replaced = replace_targeted_filter_with_exact(self, other, actual_target);
                    self.handle_effect(replaced);
                },
            }
            proof {
                assert(group_step(m, es[j as int], t, self@));
                lemma_group_done_step(g0, es.take(j as int), t, m, es[j as int], self@);
                assert(es.take(j as int).push(es[j as int]) =~= es.take(j as int + 1));
            }
            j += 1;
        }
        proof {
            assert(es.take(j as int) =~= es);
        }
    }
}

/// An entry pushed onto a stack whose entries have at most its priority, and were all pushed
/// earlier (smaller sequence numbers), is the one that resolves first.
pub proof fn lemma_push_goes_on_top(g: GreV, e: StackEntryV, p: u8)
    requires
        forall|i: int| 0 <= i < g.stack.len() ==> (#[trigger] g.stack[i]).priority <= p && g.stack[i].sequence < g.sequence,
    ensures
        top_index(pushed(g, e, p).stack) == g.stack.len(),
{
    let s = pushed(g, e, p).stack;
    stack::lemma_top_index(s, s.len());
    let t = top_index(s);
    assert(!stack::resolves_before(s[g.stack.len() as int], s[t]));
    if t != g.stack.len() {
        assert(s[t] == g.stack[t]);
    }
}

} // verus!
