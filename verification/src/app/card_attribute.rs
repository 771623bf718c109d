use vstd::prelude::*;

use crate::app::game_state::GamePhase;
use crate::app::text::str_eq;

verus! {

/// Amounts used by damage and counter effects.
#[derive(Debug, Clone, Copy, PartialEq, Eq, Structural)]
pub enum Amount {
    Fixed(i32),
    SourcePower,
    SourceToughness,
}

/// Counter kinds.
#[derive(Debug, Clone, Copy, PartialEq, Eq, Structural)]
pub enum CounterType {
    PlusOnePlusOne,
    Loyalty,
}

/// Keyword abilities.
#[derive(Debug, Clone, Copy, PartialEq, Eq, Hash, Structural)]
pub enum KeywordAbility {
    Haste,
    Trample,
    Menace,
    Prowess,
    Lifelink,
    Deathtouch,
    Flying,
    DoubleStrike,
    FirstStrike,
    Reach,
    Hexproof,
    Indestructible,
}

/// Creature types.
#[derive(Debug, Clone, Copy, PartialEq, Eq, Hash, Structural)]
pub enum CreatureType {
    Mouse,
    Lizard,
    Bird,
    Human,
    Spirit,
    Soldier,
    Wizard,
    Monk,
    Warrior,
    Mercenary,
    Phyrexian,
    Goblin,
    Dwarf,
    Detective,
    Elf,
    Druid,
    Rabbit,
    Badger,
    Mole,
    Insect,
    Robot,
    Beast,
    Ooze,
    Plant,
    Wurm,
    Dinosaur,
    Hydra,
    Raccoon,
}

/// Events a card attribute can react to.
#[allow(inconsistent_fields)]
#[derive(Debug, Clone, Copy, PartialEq, Eq, Structural)]
pub enum Trigger {
    OnEnterBattlefield { filter: TargetFilter },
    OnDeath { filter: TargetFilter },
    OnAttack { filter: TargetFilter },
    OnBlock { filter: TargetFilter },
    OnCombatDamage { filter: TargetFilter },
    OnSpellCast { filter: SpellFilter },
    OnTargetedFirstTimeEachTurn { filter: TargetFilter },
    OnDealtDamage { filter: TargetFilter },
    OnAttackWithCreatureType { creature_type: CreatureType },
    AtPhase { phase: GamePhase, player: PlayerSelector },
    OnCastResolved,
    OnTargeted { filter: TargetFilter, player: PlayerSelector },
    OnAddMana { filter: TargetFilter },
    OnCounterAdded { filter: TargetFilter },
    OnCycle { filter: TargetFilter },
}

#[derive(Debug, Clone, Copy, PartialEq, Eq, Structural)]
pub enum SpellFilter {
    InstantOrSorcery,
    Any,
}

#[derive(Debug, Clone, Copy, PartialEq, Eq, Structural)]
pub enum PlayerSelector {
    Controller,
    Opponent,
    AnyPlayer,
}

#[derive(Debug, Clone, Copy, PartialEq, Eq, Structural)]
pub enum Condition {
    OpponentLostLifeThisTurn,
    FirstTimeThisTurn,
    SpellWasNonCreature,
    Tap,
    SacrificeSelf,
    Always,
    SpellWasKicked,
    HasCreaturePower4OrMore,
    ExiledCardWasCreature,
}

#[derive(Debug, Clone, Copy, PartialEq, Eq, Structural)]
pub enum TargetFilter {
    AnyTarget,
    Creature,
    Player,
    SelfCard,
    ControllerCreature,
    OpponentCreature,
    CreatureType(CreatureType),
    ExactCardID(u64),
    Artifact,
    Enchantment,
    Land,
    ControllerLand,
    CardInGraveyard,
}

#[derive(Debug, Clone, Copy, PartialEq, Eq, Structural)]
pub enum Duration {
    EndOfTurn,
    NextTurnEnd,
    Permanent,
}

/// Everything a card can make happen in the game.
#[allow(inconsistent_fields)]
#[derive(Debug, PartialEq, Eq)]
pub enum Effect {
    Damage { amount: Amount, target: TargetFilter },
    DrawCards { count: u32, player: PlayerSelector },
    GainLife { amount: u32, player: PlayerSelector },
    ModifyStats { power_delta: i32, toughness_delta: i32, duration: Duration, target: TargetFilter },
    GrantAbility { ability: KeywordAbility, duration: Duration, target: TargetFilter },
    AddCounter { counter: CounterType, amount: u32, target: TargetFilter },
    Proliferate { counter_type: CounterType, player: PlayerSelector },
    CreateCreatureToken { name: String, power: i32, toughness: i32, creature_types: Vec<CreatureType> },
    CreateEnchantmentToken { name: String, power_buff: i32, toughness_buff: i32, ability: KeywordAbility },
    /// Removes an ability from a creature.
    RemoveAbility { ability: KeywordAbility, target: TargetFilter },
    Offspring { cost: u32 },
    TargetedEffects { sub_effects: Vec<Effect> },
    /// "If the targeted creature dies this turn, run `effect`."
    WhenTargetDiesThisTurn { effect: Box<Effect> },
    ExileTop { count: u32, player: PlayerSelector },
    ExileThenPlayFromExile { count: u32, player: PlayerSelector, duration: Duration },
    PreventLifeGain { player: PlayerSelector, duration: Duration },
    Conditional { condition: Condition, effect_if_true: Box<Effect>, effect_if_false: Option<Box<Effect>> },
    ChooseSome { choose: usize, options: Vec<Effect> },
    Delayed { effect: Box<Effect>, phase: GamePhase, deps: Vec<usize> },
    AddMana { colorless: u32, red: u32, blue: u32, green: u32, black: u32, white: u32 },
    DamageByTargetPower { source: TargetFilter, target: TargetFilter },
    TapTarget { target: TargetFilter },
    BuffAllByMaxPower { filter: TargetFilter, duration: Duration },
    AddCounterAll { counter: CounterType, amount: Amount, filter: TargetFilter },
    Destroy { target: TargetFilter },
    Exile { target: TargetFilter },
    DrawCardsCounted,
}

/// The mathematical value of an [`Effect`]: strings and vectors seen as sequences.
#[allow(inconsistent_fields)]
pub enum EffectV {
    Damage { amount: Amount, target: TargetFilter },
    DrawCards { count: u32, player: PlayerSelector },
    GainLife { amount: u32, player: PlayerSelector },
    ModifyStats { power_delta: i32, toughness_delta: i32, duration: Duration, target: TargetFilter },
    GrantAbility { ability: KeywordAbility, duration: Duration, target: TargetFilter },
    AddCounter { counter: CounterType, amount: u32, target: TargetFilter },
    Proliferate { counter_type: CounterType, player: PlayerSelector },
    CreateCreatureToken { name: Seq<char>, power: i32, toughness: i32, creature_types: Seq<CreatureType> },
    CreateEnchantmentToken { name: Seq<char>, power_buff: i32, toughness_buff: i32, ability: KeywordAbility },
    RemoveAbility { ability: KeywordAbility, target: TargetFilter },
    Offspring { cost: u32 },
    TargetedEffects { sub_effects: Seq<EffectV> },
    WhenTargetDiesThisTurn { effect: Box<EffectV> },
    ExileTop { count: u32, player: PlayerSelector },
    ExileThenPlayFromExile { count: u32, player: PlayerSelector, duration: Duration },
    PreventLifeGain { player: PlayerSelector, duration: Duration },
    Conditional { condition: Condition, effect_if_true: Box<EffectV>, effect_if_false: Option<Box<EffectV>> },
    ChooseSome { choose: usize, options: Seq<EffectV> },
    Delayed { effect: Box<EffectV>, phase: GamePhase, deps: Seq<usize> },
    AddMana { colorless: u32, red: u32, blue: u32, green: u32, black: u32, white: u32 },
    DamageByTargetPower { source: TargetFilter, target: TargetFilter },
    TapTarget { target: TargetFilter },
    BuffAllByMaxPower { filter: TargetFilter, duration: Duration },
    AddCounterAll { counter: CounterType, amount: Amount, filter: TargetFilter },
    Destroy { target: TargetFilter },
    Exile { target: TargetFilter },
    DrawCardsCounted,
}

/// The value of an effect.
pub open spec fn effect_view(e: Effect) -> EffectV
    decreases e, 0int,
{
    match e {
        Effect::Damage { amount, target } => EffectV::Damage { amount, target },
        Effect::DrawCards { count, player } => EffectV::DrawCards { count, player },
        Effect::GainLife { amount, player } => EffectV::GainLife { amount, player },
        Effect::ModifyStats { power_delta, toughness_delta, duration, target } =>
            EffectV::ModifyStats { power_delta, toughness_delta, duration, target },
        Effect::GrantAbility { ability, duration, target } =>
            EffectV::GrantAbility { ability, duration, target },
        Effect::AddCounter { counter, amount, target } => EffectV::AddCounter { counter, amount, target },
        Effect::Proliferate { counter_type, player } => EffectV::Proliferate { counter_type, player },
        Effect::CreateCreatureToken { name, power, toughness, creature_types } =>
            EffectV::CreateCreatureToken { name: name@, power, toughness, creature_types: creature_types@ },
        Effect::CreateEnchantmentToken { name, power_buff, toughness_buff, ability } =>
            EffectV::CreateEnchantmentToken { name: name@, power_buff, toughness_buff, ability },
        Effect::RemoveAbility { ability, target } => EffectV::RemoveAbility { ability, target },
        Effect::Offspring { cost } => EffectV::Offspring { cost },
        Effect::TargetedEffects { sub_effects } =>
            EffectV::TargetedEffects { sub_effects: effects_view(sub_effects@) },
        Effect::WhenTargetDiesThisTurn { effect } =>
            EffectV::WhenTargetDiesThisTurn { effect: Box::new(effect_view(*effect)) },
        Effect::ExileTop { count, player } => EffectV::ExileTop { count, player },
        Effect::ExileThenPlayFromExile { count, player, duration } =>
            EffectV::ExileThenPlayFromExile { count, player, duration },
        Effect::PreventLifeGain { player, duration } => EffectV::PreventLifeGain { player, duration },
        Effect::Conditional { condition, effect_if_true, effect_if_false } => EffectV::Conditional {
            condition,
            effect_if_true: Box::new(effect_view(*effect_if_true)),
            effect_if_false: match effect_if_false {
                Some(f) => Some(Box::new(effect_view(*f))),
                None => None,
            },
        },
        Effect::ChooseSome { choose, options } =>
            EffectV::ChooseSome { choose, options: effects_view(options@) },
        Effect::Delayed { effect, phase, deps } =>
            EffectV::Delayed { effect: Box::new(effect_view(*effect)), phase, deps: deps@ },
        Effect::AddMana { colorless, red, blue, green, black, white } =>
            EffectV::AddMana { colorless, red, blue, green, black, white },
        Effect::DamageByTargetPower { source, target } => EffectV::DamageByTargetPower { source, target },
        Effect::TapTarget { target } => EffectV::TapTarget { target },
        Effect::BuffAllByMaxPower { filter, duration } => EffectV::BuffAllByMaxPower { filter, duration },
        Effect::AddCounterAll { counter, amount, filter } => EffectV::AddCounterAll { counter, amount, filter },
        Effect::Destroy { target } => EffectV::Destroy { target },
        Effect::Exile { target } => EffectV::Exile { target },
        Effect::DrawCardsCounted => EffectV::DrawCardsCounted,
    }
}

/// The values of a sequence of effects.
pub open spec fn effects_view(s: Seq<Effect>) -> Seq<EffectV>
    decreases s, 1int,
{
    if s.len() == 0 {
        Seq::empty()
    } else {
        effects_view(s.drop_last()).push(effect_view(s.last()))
    }
}

impl View for Effect {
    type V = EffectV;

    open spec fn view(&self) -> EffectV {
        effect_view(*self)
    }
}

/// The value of a sequence of effects has the same length and is taken element by element.
pub proof fn lemma_effects_view(s: Seq<Effect>)
    ensures
        effects_view(s).len() == s.len(),
        forall|i: int| 0 <= i < s.len() ==> #[trigger] effects_view(s)[i] == effect_view(s[i]),
    decreases s.len(),
{
    if s.len() > 0 {
        lemma_effects_view(s.drop_last());
    }
}

/// Pushing an effect pushes its value.
pub proof fn lemma_effects_view_push(s: Seq<Effect>, e: Effect)
    ensures
        effects_view(s.push(e)) == effects_view(s).push(effect_view(e)),
{
    assert(s.push(e).drop_last() =~= s);
}

/// Two sequences of effects with equal element values have equal values.
pub proof fn lemma_effects_view_ext(a: Seq<Effect>, b: Seq<Effect>)
    requires
        a.len() == b.len(),
        forall|i: int| 0 <= i < a.len() ==> #[trigger] effect_view(a[i]) == effect_view(b[i]),
    ensures
        effects_view(a) == effects_view(b),
{
    lemma_effects_view(a);
    lemma_effects_view(b);
    assert(effects_view(a) =~= effects_view(b));
}

/// Copies a list of creature types.
pub fn clone_creature_types(v: &Vec<CreatureType>) -> (r: Vec<CreatureType>)
    ensures
        r@ == v@,
{
    let mut r: Vec<CreatureType> = Vec::new();
    let mut i: usize = 0;
    while i < v.len()
        invariant
            i <= v.len(),
            r@ == v@.take(i as int),
        decreases v.len() - i,
    {
        r.push(v[i]);
        i += 1;
        assert(r@ =~= v@.take(i as int));
    }
    assert(v@.take(v.len() as int) =~= v@);
    r
}

/// Copies a list of indices.
pub fn clone_usizes(v: &Vec<usize>) -> (r: Vec<usize>)
    ensures
        r@ == v@,
{
    let mut r: Vec<usize> = Vec::new();
    let mut i: usize = 0;
    while i < v.len()
        invariant
            i <= v.len(),
            r@ == v@.take(i as int),
        decreases v.len() - i,
    {
        r.push(v[i]);
        i += 1;
        assert(r@ =~= v@.take(i as int));
    }
    assert(v@.take(v.len() as int) =~= v@);
    r
}

/// Copies a list of effects, keeping the value of each.
pub fn clone_effects(v: &Vec<Effect>) -> (r: Vec<Effect>)
    ensures
        r@.len() == v@.len(),
        forall|i: int| 0 <= i < v@.len() ==> #[trigger] r@[i]@ == v@[i]@,
        effects_view(r@) == effects_view(v@),
    decreases v@, 1int,
{
    let mut r: Vec<Effect> = Vec::new();
    let mut i: usize = 0;
    while i < v.len()
        invariant
            i <= v.len(),
            r@.len() == i,
            forall|j: int| 0 <= j < i ==> #[trigger] r@[j]@ == v@[j]@,
        decreases v.len() - i,
    {
        proof {
            assert(decreases_to!(v@ => v@[i as int]));
        }
        let c = clone_effect(&v[i]);
        r.push(c);
        i += 1;
    }
    proof {
        assert forall|j: int| 0 <= j < r@.len() implies #[trigger] effect_view(r@[j]) == effect_view(v@[j]) by {
            assert(r@[j]@ == v@[j]@);
        }
        lemma_effects_view_ext(r@, v@);
    }
    r
}

/// Copies an effect, keeping its value.
pub fn clone_effect(e: &Effect) -> (r: Effect)
    ensures
        r@ == e@,
    decreases *e, 0int,
{
    match e {
        Effect::Damage { amount, target } => Effect::Damage { amount: *amount, target: *target },
        Effect::DrawCards { count, player } => Effect::DrawCards { count: *count, player: *player },
        Effect::GainLife { amount, player } => Effect::GainLife { amount: *amount, player: *player },
        Effect::ModifyStats { power_delta, toughness_delta, duration, target } => Effect::ModifyStats {
            power_delta: *power_delta,
            toughness_delta: *toughness_delta,
            duration: *duration,
            target: *target,
        },
        Effect::GrantAbility { ability, duration, target } =>
            Effect::GrantAbility { ability: *ability, duration: *duration, target: *target },
        Effect::AddCounter { counter, amount, target } =>
            Effect::AddCounter { counter: *counter, amount: *amount, target: *target },
        Effect::Proliferate { counter_type, player } =>
            Effect::Proliferate { counter_type: *counter_type, player: *player },
        Effect::CreateCreatureToken { name, power, toughness, creature_types } =>
            Effect::CreateCreatureToken {
                name: name.clone(),
                power: *power,
                toughness: *toughness,
                creature_types: clone_creature_types(creature_types),
            },
        Effect::CreateEnchantmentToken { name, power_buff, toughness_buff, ability } =>
            Effect::CreateEnchantmentToken {
                name: name.clone(),
                power_buff: *power_buff,
                toughness_buff: *toughness_buff,
                ability: *ability,
            },
        Effect::RemoveAbility { ability, target } =>
            Effect::RemoveAbility { ability: *ability, target: *target },
        Effect::Offspring { cost } => Effect::Offspring { cost: *cost },
        Effect::TargetedEffects { sub_effects } => {
            proof {
                assert(decreases_to!(*e => sub_effects@));
            }
            Effect::TargetedEffects { sub_effects: clone_effects(sub_effects) }
        },
        Effect::WhenTargetDiesThisTurn { effect } =>
            Effect::WhenTargetDiesThisTurn { effect: Box::new(clone_effect(effect)) },
        Effect::ExileTop { count, player } => Effect::ExileTop { count: *count, player: *player },
        Effect::ExileThenPlayFromExile { count, player, duration } =>
            Effect::ExileThenPlayFromExile { count: *count, player: *player, duration: *duration },
        Effect::PreventLifeGain { player, duration } =>
            Effect::PreventLifeGain { player: *player, duration: *duration },
        Effect::Conditional { condition, effect_if_true, effect_if_false } => {
            let t = clone_effect(effect_if_true);
            let f = match effect_if_false {
                Some(b) => Some(Box::new(clone_effect(b))),
                None => None,
            };
            Effect::Conditional { condition: *condition, effect_if_true: Box::new(t), effect_if_false: f }
        },
        Effect::ChooseSome { choose, options } => {
            proof {
                assert(decreases_to!(*e => options@));
            }
            Effect::ChooseSome { choose: *choose, options: clone_effects(options) }
        },
        Effect::Delayed { effect, phase, deps } =>
            Effect::Delayed { effect: Box::new(clone_effect(effect)), phase: *phase, deps: clone_usizes(deps) },
        Effect::AddMana { colorless, red, blue, green, black, white } => Effect::AddMana {
            colorless: *colorless,
            red: *red,
            blue: *blue,
            green: *green,
            black: *black,
            white: *white,
        },
        Effect::DamageByTargetPower { source, target } =>
            Effect::DamageByTargetPower { source: *source, target: *target },
        Effect::TapTarget { target } => Effect::TapTarget { target: *target },
        Effect::BuffAllByMaxPower { filter, duration } =>
            Effect::BuffAllByMaxPower { filter: *filter, duration: *duration },
        Effect::AddCounterAll { counter, amount, filter } =>
            Effect::AddCounterAll { counter: *counter, amount: *amount, filter: *filter },
        Effect::Destroy { target } => Effect::Destroy { target: *target },
        Effect::Exile { target } => Effect::Exile { target: *target },
        Effect::DrawCardsCounted => Effect::DrawCardsCounted,
    }
}

impl Clone for Effect {
    fn clone(&self) -> (r: Self)
        ensures
            r@ == self@,
    {
        clone_effect(self)
    }
}


/// The value of a one-element vector of effects.
pub proof fn lemma_effects_view_single(e: Effect)
    ensures
        effects_view(seq![e]) == seq![effect_view(e)],
{
    assert(seq![e].drop_last() =~= Seq::<Effect>::empty());
    assert(seq![e].last() == e);
    assert(effects_view(Seq::<Effect>::empty()) == Seq::<EffectV>::empty());
    assert(effects_view(seq![e]) == effects_view(Seq::<Effect>::empty()).push(effect_view(e)));
    assert(Seq::<EffectV>::empty().push(effect_view(e)) =~= seq![effect_view(e)]);
}

/// Whether two lists of creature types are equal.
pub fn creature_types_eq(a: &Vec<CreatureType>, b: &Vec<CreatureType>) -> (r: bool)
    ensures
        r == (a@ == b@),
{
    if a.len() != b.len() {
        return false;
    }
    let mut i: usize = 0;
    while i < a.len()
        invariant
            a@.len() == b@.len(),
            i <= a@.len(),
            forall|j: int| 0 <= j < i ==> a@[j] == b@[j],
        decreases a.len() - i,
    {
        if a[i] != b[i] {
            return false;
        }
        i += 1;
    }
    assert(a@ =~= b@);
    true
}

/// Whether two lists of indices are equal.
pub fn usizes_eq(a: &Vec<usize>, b: &Vec<usize>) -> (r: bool)
    ensures
        r == (a@ == b@),
{
    if a.len() != b.len() {
        return false;
    }
    let mut i: usize = 0;
    while i < a.len()
        invariant
            a@.len() == b@.len(),
            i <= a@.len(),
            forall|j: int| 0 <= j < i ==> a@[j] == b@[j],
        decreases a.len() - i,
    {
        if a[i] != b[i] {
            return false;
        }
        i += 1;
    }
    assert(a@ =~= b@);
    true
}

/// Whether two lists of effects have equal values.
pub fn effect_lists_eq(a: &Vec<Effect>, b: &Vec<Effect>) -> (r: bool)
    ensures
        r == (effects_view(a@) == effects_view(b@)),
    decreases a@, 1int,
{
    proof {
        lemma_effects_view(a@);
        lemma_effects_view(b@);
    }
    if a.len() != b.len() {
        return false;
    }
    let mut i: usize = 0;
    while i < a.len()
        invariant
            a@.len() == b@.len(),
            i <= a@.len(),
            effects_view(a@).len() == a@.len(),
            effects_view(b@).len() == b@.len(),
            forall|j: int| 0 <= j < a@.len() ==> #[trigger] effects_view(a@)[j] == effect_view(a@[j]),
            forall|j: int| 0 <= j < b@.len() ==> #[trigger] effects_view(b@)[j] == effect_view(b@[j]),
            forall|j: int| 0 <= j < i ==> effect_view(a@[j]) == effect_view(b@[j]),
        decreases a.len() - i,
    {
        proof {
            assert(decreases_to!(a@ => a@[i as int]));
        }
        if !effect_eq(&a[i], &b[i]) {
            proof {
                assert(effects_view(a@)[i as int] != effects_view(b@)[i as int]);
            }
            return false;
        }
        i += 1;
    }
    proof {
        lemma_effects_view_ext(a@, b@);
    }
    true
}

/// Whether two effects have equal values.
#[verifier::spinoff_prover]
#[verifier::rlimit(100)]
pub fn effect_eq(a: &Effect, b: &Effect) -> (r: bool)
    ensures
        r == (a@ == b@),
    decreases *a, 0int,
{
    match (a, b) {
        (Effect::Damage { amount: x1, target: x2 }, Effect::Damage { amount: y1, target: y2 }) => *x1 == *y1 && *x2 == *y2,
        (Effect::DrawCards { count: x1, player: x2 }, Effect::DrawCards { count: y1, player: y2 }) => *x1 == *y1 && *x2 == *y2,
        (Effect::GainLife { amount: x1, player: x2 }, Effect::GainLife { amount: y1, player: y2 }) => *x1 == *y1 && *x2 == *y2,
        (
            Effect::ModifyStats { power_delta: x1, toughness_delta: x2, duration: x3, target: x4 },
            Effect::ModifyStats { power_delta: y1, toughness_delta: y2, duration: y3, target: y4 },
        ) => *x1 == *y1 && *x2 == *y2 && *x3 == *y3 && *x4 == *y4,
        (
            Effect::GrantAbility { ability: x1, duration: x2, target: x3 },
            Effect::GrantAbility { ability: y1, duration: y2, target: y3 },
        ) => *x1 == *y1 && *x2 == *y2 && *x3 == *y3,
        (
            Effect::AddCounter { counter: x1, amount: x2, target: x3 },
            Effect::AddCounter { counter: y1, amount: y2, target: y3 },
        ) => *x1 == *y1 && *x2 == *y2 && *x3 == *y3,
        (Effect::Proliferate { counter_type: x1, player: x2 }, Effect::Proliferate { counter_type: y1, player: y2 }) =>
            *x1 == *y1 && *x2 == *y2,
        (
            Effect::CreateCreatureToken { name: x1, power: x2, toughness: x3, creature_types: x4 },
            Effect::CreateCreatureToken { name: y1, power: y2, toughness: y3, creature_types: y4 },
        ) => str_eq(x1.as_str(), y1.as_str()) && *x2 == *y2 && *x3 == *y3 && creature_types_eq(x4, y4),
        (
            Effect::CreateEnchantmentToken { name: x1, power_buff: x2, toughness_buff: x3, ability: x4 },
            Effect::CreateEnchantmentToken { name: y1, power_buff: y2, toughness_buff: y3, ability: y4 },
        ) => str_eq(x1.as_str(), y1.as_str()) && *x2 == *y2 && *x3 == *y3 && *x4 == *y4,
        (Effect::RemoveAbility { ability: x1, target: x2 }, Effect::RemoveAbility { ability: y1, target: y2 }) =>
            *x1 == *y1 && *x2 == *y2,
        (Effect::Offspring { cost: x1 }, Effect::Offspring { cost: y1 }) => *x1 == *y1,
        (Effect::TargetedEffects { sub_effects: x1 }, Effect::TargetedEffects { sub_effects: y1 }) => {
            proof {
                assert(decreases_to!(*a => x1@));
            }
            effect_lists_eq(x1, y1)
        },
        (Effect::WhenTargetDiesThisTurn { effect: x1 }, Effect::WhenTargetDiesThisTurn { effect: y1 }) =>
            effect_eq(x1, y1),
        (Effect::ExileTop { count: x1, player: x2 }, Effect::ExileTop { count: y1, player: y2 }) => *x1 == *y1 && *x2 == *y2,
        (
            Effect::ExileThenPlayFromExile { count: x1, player: x2, duration: x3 },
            Effect::ExileThenPlayFromExile { count: y1, player: y2, duration: y3 },
        ) => *x1 == *y1 && *x2 == *y2 && *x3 == *y3,
        (Effect::PreventLifeGain { player: x1, duration: x2 }, Effect::PreventLifeGain { player: y1, duration: y2 }) =>
            *x1 == *y1 && *x2 == *y2,
        (
            Effect::Conditional { condition: x1, effect_if_true: x2, effect_if_false: x3 },
            Effect::Conditional { condition: y1, effect_if_true: y2, effect_if_false: y3 },
        ) => {
            if *x1 != *y1 {
                return false;
            }
            if !effect_eq(x2, y2) {
                return false;
            }
            match (x3, y3) {
                (Some(f1), Some(f2)) => effect_eq(f1, f2),
                (None, None) => true,
                _ => false,
            }
        },
        (Effect::ChooseSome { choose: x1, options: x2 }, Effect::ChooseSome { choose: y1, options: y2 }) => {
            proof {
                assert(decreases_to!(*a => x2@));
            }
            *x1 == *y1 && effect_lists_eq(x2, y2)
        },
        (Effect::Delayed { effect: x1, phase: x2, deps: x3 }, Effect::Delayed { effect: y1, phase: y2, deps: y3 }) =>
            *x2 == *y2 && usizes_eq(x3, y3) && effect_eq(x1, y1),
        (
            Effect::AddMana { colorless: x1, red: x2, blue: x3, green: x4, black: x5, white: x6 },
            Effect::AddMana { colorless: y1, red: y2, blue: y3, green: y4, black: y5, white: y6 },
        ) => *x1 == *y1 && *x2 == *y2 && *x3 == *y3 && *x4 == *y4 && *x5 == *y5 && *x6 == *y6,
        (
            Effect::DamageByTargetPower { source: x1, target: x2 },
            Effect::DamageByTargetPower { source: y1, target: y2 },
        ) => *x1 == *y1 && *x2 == *y2,
        (Effect::TapTarget { target: x1 }, Effect::TapTarget { target: y1 }) => *x1 == *y1,
        (Effect::BuffAllByMaxPower { filter: x1, duration: x2 }, Effect::BuffAllByMaxPower { filter: y1, duration: y2 }) =>
            *x1 == *y1 && *x2 == *y2,
        (
            Effect::AddCounterAll { counter: x1, amount: x2, filter: x3 },
            Effect::AddCounterAll { counter: y1, amount: y2, filter: y3 },
        ) => *x1 == *y1 && *x2 == *y2 && *x3 == *y3,
        (Effect::Destroy { target: x1 }, Effect::Destroy { target: y1 }) => *x1 == *y1,
        (Effect::Exile { target: x1 }, Effect::Exile { target: y1 }) => *x1 == *y1,
        (Effect::DrawCardsCounted, Effect::DrawCardsCounted) => true,
        _ => false,
    }
}

/// A card attribute: reacts to a trigger with an optional effect.
pub trait CardAttribute {
    fn on_trigger(&mut self, trigger: &Trigger) -> Option<Effect>;
}

/// Simple triggered effect.
#[derive(Debug, PartialEq, Clone)]
pub struct TriggeredEffectAttribute {
    pub trigger: Trigger,
    pub effect: Effect,
}

/// What a triggered-effect attribute answers to a trigger.
pub open spec fn triggered_effect_answer(trigger: Trigger, effect: EffectV, t: Trigger) -> Option<EffectV> {
    if trigger == t { Some(effect) } else { None }
}

impl CardAttribute for TriggeredEffectAttribute {
    fn on_trigger(&mut self, trigger: &Trigger) -> (r: Option<Effect>)
        ensures
            *final(self) == *old(self),
            opt_effect_view(r) == triggered_effect_answer(old(self).trigger, old(self).effect@, *trigger),
    {
        if self.trigger == *trigger {
            Some(clone_effect(&self.effect))
        } else {
            None
        }
    }
}

#[derive(Debug, PartialEq, Clone)]
pub struct CreateEnchantmentAttribute {
    pub name: String,
    pub power_buff: i32,
    pub toughness_buff: i32,
    pub ability: KeywordAbility,
    pub target: TargetFilter,
}

/// What a create-enchantment attribute answers to a trigger.
pub open spec fn create_enchantment_answer(
    name: Seq<char>,
    power_buff: i32,
    toughness_buff: i32,
    ability: KeywordAbility,
    t: Trigger,
) -> Option<EffectV> {
    if t == Trigger::OnCastResolved {
        Some(EffectV::TargetedEffects {
            sub_effects: seq![EffectV::CreateEnchantmentToken { name, power_buff, toughness_buff, ability }],
        })
    } else {
        None
    }
}

impl CardAttribute for CreateEnchantmentAttribute {
    fn on_trigger(&mut self, trigger: &Trigger) -> (r: Option<Effect>)
        ensures
            *final(self) == *old(self),
            opt_effect_view(r) == create_enchantment_answer(
                old(self).name@,
                old(self).power_buff,
                old(self).toughness_buff,
                old(self).ability,
                *trigger,
            ),
    {
        if *trigger == Trigger::OnCastResolved {
            let token = Effect::CreateEnchantmentToken {
                name: self.name.clone(),
                power_buff: self.power_buff,
                toughness_buff: self.toughness_buff,
                ability: self.ability,
            };
            let ghost tv = token@;
            let subs = vec![token];
            proof {
                assert(subs@ =~= seq![token]);
                lemma_effects_view_single(token);
            }
            let r = Effect::TargetedEffects { sub_effects: subs };
            assert(r@ == EffectV::TargetedEffects { sub_effects: seq![tv] });
            Some(r)
        } else {
            None
        }
    }
}

/// Whether a trigger is the cast-resolved or an enter-the-battlefield trigger.
pub open spec fn resolves_or_enters(t: Trigger) -> bool {
    t == Trigger::OnCastResolved || t is OnEnterBattlefield
}

#[derive(Debug, PartialEq, Clone, Copy)]
pub struct BuffAttribute {
    pub power: i32,
    pub toughness: i32,
    pub duration: Duration,
    pub target: TargetFilter,
}

/// What a buff attribute answers to a trigger.
pub open spec fn buff_answer(a: BuffAttribute, t: Trigger) -> Option<EffectV> {
    if resolves_or_enters(t) {
        Some(EffectV::ModifyStats {
            power_delta: a.power,
            toughness_delta: a.toughness,
            duration: a.duration,
            target: a.target,
        })
    } else {
        None
    }
}

impl CardAttribute for BuffAttribute {
    fn on_trigger(&mut self, trigger: &Trigger) -> (r: Option<Effect>)
        ensures
            *final(self) == *old(self),
            opt_effect_view(r) == buff_answer(*old(self), *trigger),
    {
        if *trigger == Trigger::OnCastResolved || matches!(trigger, Trigger::OnEnterBattlefield { .. }) {
            Some(Effect::ModifyStats {
                power_delta: self.power,
                toughness_delta: self.toughness,
                duration: self.duration,
                target: self.target,
            })
        } else {
            None
        }
    }
}

#[derive(Debug, PartialEq, Clone, Copy)]
pub struct GrantAbilityAttribute {
    pub ability: KeywordAbility,
    pub duration: Duration,
    pub target: TargetFilter,
}

/// What a grant-ability attribute answers to a trigger.
pub open spec fn grant_ability_answer(a: GrantAbilityAttribute, t: Trigger) -> Option<EffectV> {
    if resolves_or_enters(t) {
        Some(EffectV::GrantAbility { ability: a.ability, duration: a.duration, target: a.target })
    } else {
        None
    }
}

impl CardAttribute for GrantAbilityAttribute {
    fn on_trigger(&mut self, trigger: &Trigger) -> (r: Option<Effect>)
        ensures
            *final(self) == *old(self),
            opt_effect_view(r) == grant_ability_answer(*old(self), *trigger),
    {
        if matches!(trigger, Trigger::OnCastResolved) || matches!(trigger, Trigger::OnEnterBattlefield { .. }) {
            Some(Effect::GrantAbility { ability: self.ability, duration: self.duration, target: self.target })
        } else {
            None
        }
    }
}

#[derive(Debug, PartialEq, Clone)]
pub struct ChooseOnConditionAttribute {
    pub choose: usize,
    pub options: Vec<Effect>,
}

impl CardAttribute for ChooseOnConditionAttribute {
    /// Answers every trigger with the choice between its options.
    fn on_trigger(&mut self, _trigger: &Trigger) -> (r: Option<Effect>)
        ensures
            *final(self) == *old(self),
            opt_effect_view(r) == Some(
                EffectV::ChooseSome { choose: old(self).choose, options: effects_view(old(self).options@) },
            ),
    {
        Some(Effect::ChooseSome { choose: self.choose, options: clone_effects(&self.options) })
    }
}

#[derive(Debug, PartialEq, Clone, Copy)]
pub struct OffspringAttribute {
    pub additional_cost: u32,
}

/// What an offspring attribute answers to a trigger.
pub open spec fn offspring_answer(a: OffspringAttribute, t: Trigger) -> Option<EffectV> {
    if t == (Trigger::OnEnterBattlefield { filter: TargetFilter::SelfCard }) {
        Some(EffectV::Offspring { cost: a.additional_cost })
    } else {
        None
    }
}

impl CardAttribute for OffspringAttribute {
    fn on_trigger(&mut self, trigger: &Trigger) -> (r: Option<Effect>)
        ensures
            *final(self) == *old(self),
            opt_effect_view(r) == offspring_answer(*old(self), *trigger),
    {
        if let Trigger::OnEnterBattlefield { filter: TargetFilter::SelfCard } = trigger {
            Some(Effect::Offspring { cost: self.additional_cost })
        } else {
            None
        }
    }
}

#[derive(Debug, PartialEq, Clone, Copy)]
pub struct ProwessAttribute {
    pub filter: SpellFilter,
    pub power: i32,
    pub toughness: i32,
    pub duration: Duration,
}

/// What a prowess attribute answers to a trigger.
pub open spec fn prowess_answer(a: ProwessAttribute, t: Trigger) -> Option<EffectV> {
    if t == (Trigger::OnSpellCast { filter: a.filter }) {
        Some(EffectV::ModifyStats {
            power_delta: a.power,
            toughness_delta: a.toughness,
            duration: a.duration,
            target: TargetFilter::SelfCard,
        })
    } else {
        None
    }
}

impl CardAttribute for ProwessAttribute {
    fn on_trigger(&mut self, trigger: &Trigger) -> (r: Option<Effect>)
        ensures
            *final(self) == *old(self),
            opt_effect_view(r) == prowess_answer(*old(self), *trigger),
    {
        if let Trigger::OnSpellCast { filter } = trigger {
            if *filter == self.filter {
                return Some(Effect::ModifyStats {
                    power_delta: self.power,
                    toughness_delta: self.toughness,
                    duration: self.duration,
                    target: TargetFilter::SelfCard,
                });
            }
        }
        None
    }
}

#[derive(Debug, PartialEq, Clone, Copy)]
pub struct LifelinkAttribute;

/// What the lifelink attribute answers to a trigger.
pub open spec fn lifelink_answer(t: Trigger) -> Option<EffectV> {
    if t == (Trigger::OnCombatDamage { filter: TargetFilter::SelfCard }) {
        Some(EffectV::Conditional {
            condition: Condition::Always,
            effect_if_true: Box::new(EffectV::GainLife { amount: 0, player: PlayerSelector::Controller }),
            effect_if_false: None,
        })
    } else {
        None
    }
}

impl CardAttribute for LifelinkAttribute {
    fn on_trigger(&mut self, trigger: &Trigger) -> (r: Option<Effect>)
        ensures
            *final(self) == *old(self),
            opt_effect_view(r) == lifelink_answer(*trigger),
    {
        if let Trigger::OnCombatDamage { filter } = trigger {
            if *filter == TargetFilter::SelfCard {
                let inner = Effect::GainLife { amount: 0, player: PlayerSelector::Controller };
                assert(inner@ == EffectV::GainLife { amount: 0, player: PlayerSelector::Controller });
                return Some(Effect::Conditional {
                    condition: Condition::Always,
                    effect_if_true: Box::new(inner),
                    effect_if_false: None,
                });
            }
        }
        None
    }
}

#[derive(Debug, PartialEq, Clone, Copy)]
pub struct DeathtouchAttribute;

/// What the deathtouch attribute answers to a trigger.
pub open spec fn deathtouch_answer(t: Trigger) -> Option<EffectV> {
    if t == (Trigger::OnCombatDamage { filter: TargetFilter::Creature }) {
        Some(EffectV::Damage { amount: Amount::Fixed(1), target: TargetFilter::SelfCard })
    } else {
        None
    }
}

impl CardAttribute for DeathtouchAttribute {
    fn on_trigger(&mut self, trigger: &Trigger) -> (r: Option<Effect>)
        ensures
            *final(self) == *old(self),
            opt_effect_view(r) == deathtouch_answer(*trigger),
    {
        if let Trigger::OnCombatDamage { filter } = trigger {
            if *filter == TargetFilter::Creature {
                return Some(Effect::Damage { amount: Amount::Fixed(1), target: TargetFilter::SelfCard });
            }
        }
        None
    }
}

#[derive(Debug, PartialEq, Clone, Copy)]
pub struct TrampleAttribute;

/// What the trample attribute answers to a trigger.
pub open spec fn trample_answer(t: Trigger) -> Option<EffectV> {
    if t == (Trigger::OnCombatDamage { filter: TargetFilter::SelfCard }) {
        Some(EffectV::Conditional {
            condition: Condition::Always,
            effect_if_true: Box::new(EffectV::Damage { amount: Amount::SourcePower, target: TargetFilter::AnyTarget }),
            effect_if_false: None,
        })
    } else {
        None
    }
}

impl CardAttribute for TrampleAttribute {
    fn on_trigger(&mut self, trigger: &Trigger) -> (r: Option<Effect>)
        ensures
            *final(self) == *old(self),
            opt_effect_view(r) == trample_answer(*trigger),
    {
        if let Trigger::OnCombatDamage { filter } = trigger {
            if *filter == TargetFilter::SelfCard {
                let inner = Effect::Damage { amount: Amount::SourcePower, target: TargetFilter::AnyTarget };
                assert(inner@ == EffectV::Damage { amount: Amount::SourcePower, target: TargetFilter::AnyTarget });
                return Some(Effect::Conditional {
                    condition: Condition::Always,
                    effect_if_true: Box::new(inner),
                    effect_if_false: None,
                });
            }
        }
        None
    }
}

#[derive(Debug, PartialEq, Clone, Copy)]
pub struct DoubleStrikeAttribute;

/// What the double-strike attribute answers to a trigger.
pub open spec fn double_strike_answer(t: Trigger) -> Option<EffectV> {
    if t == (Trigger::OnCombatDamage { filter: TargetFilter::SelfCard }) {
        Some(EffectV::Delayed {
            effect: Box::new(EffectV::Damage { amount: Amount::SourcePower, target: TargetFilter::AnyTarget }),
            phase: GamePhase::CombatDamage,
            deps: Seq::empty(),
        })
    } else {
        None
    }
}

impl CardAttribute for DoubleStrikeAttribute {
    fn on_trigger(&mut self, trigger: &Trigger) -> (r: Option<Effect>)
        ensures
            *final(self) == *old(self),
            opt_effect_view(r) == double_strike_answer(*trigger),
    {
        if let Trigger::OnCombatDamage { filter } = trigger {
            if *filter == TargetFilter::SelfCard {
                let deps: Vec<usize> = Vec::new();
                let inner = Effect::Damage { amount: Amount::SourcePower, target: TargetFilter::AnyTarget };
                assert(inner@ == EffectV::Damage { amount: Amount::SourcePower, target: TargetFilter::AnyTarget });
                assert(deps@ =~= Seq::<usize>::empty());
                return Some(Effect::Delayed {
                    effect: Box::new(inner),
                    phase: GamePhase::CombatDamage,
                    deps,
                });
            }
        }
        None
    }
}

#[derive(Debug, PartialEq, Clone)]
pub struct TypeSpecificTargetAttribute {
    pub creature_type: CreatureType,
    pub effect: Effect,
}

/// The trigger at which a type-specific attribute fires: its controller's combat phase.
pub open spec fn controller_combat() -> Trigger {
    Trigger::AtPhase { phase: GamePhase::Combat, player: PlayerSelector::Controller }
}

impl CardAttribute for TypeSpecificTargetAttribute {
    fn on_trigger(&mut self, trigger: &Trigger) -> (r: Option<Effect>)
        ensures
            *final(self) == *old(self),
            opt_effect_view(r) == triggered_effect_answer(controller_combat(), old(self).effect@, *trigger),
    {
        if matches!(trigger, Trigger::AtPhase { phase: GamePhase::Combat, player: PlayerSelector::Controller }) {
            return Some(clone_effect(&self.effect));
        }
        None
    }
}

#[derive(Debug, PartialEq, Clone, Copy)]
pub struct AddCounterAttribute {
    pub counter: CounterType,
    pub amount: u32,
    pub target: TargetFilter,
}

/// What an add-counter attribute answers to a trigger.
pub open spec fn add_counter_answer(a: AddCounterAttribute, t: Trigger) -> Option<EffectV> {
    if t is OnSpellCast {
        Some(EffectV::AddCounter { counter: a.counter, amount: a.amount, target: a.target })
    } else {
        None
    }
}

impl CardAttribute for AddCounterAttribute {
    fn on_trigger(&mut self, trigger: &Trigger) -> (r: Option<Effect>)
        ensures
            *final(self) == *old(self),
            opt_effect_view(r) == add_counter_answer(*old(self), *trigger),
    {
        if matches!(trigger, Trigger::OnSpellCast { .. }) {
            return Some(Effect::AddCounter { counter: self.counter, amount: self.amount, target: self.target });
        }
        None
    }
}

#[derive(Debug, PartialEq, Clone, Copy)]
pub struct ProliferateAttribute {
    pub counter: CounterType,
    pub player: PlayerSelector,
}

/// What a proliferate attribute answers to a trigger.
pub open spec fn proliferate_answer(a: ProliferateAttribute, t: Trigger) -> Option<EffectV> {
    if t is OnCombatDamage {
        Some(EffectV::Proliferate { counter_type: a.counter, player: a.player })
    } else {
        None
    }
}

impl CardAttribute for ProliferateAttribute {
    fn on_trigger(&mut self, trigger: &Trigger) -> (r: Option<Effect>)
        ensures
            *final(self) == *old(self),
            opt_effect_view(r) == proliferate_answer(*old(self), *trigger),
    {
        if matches!(trigger, Trigger::OnCombatDamage { .. }) {
            return Some(Effect::Proliferate { counter_type: self.counter, player: self.player });
        }
        None
    }
}

#[derive(Debug, PartialEq, Clone, Copy)]
pub struct ExileAndPlayAttribute {
    pub count: u32,
    pub player: PlayerSelector,
    pub duration: Duration,
}

/// What an exile-and-play attribute answers to a trigger.
pub open spec fn exile_and_play_answer(a: ExileAndPlayAttribute, t: Trigger) -> Option<EffectV> {
    if t == Trigger::OnCastResolved {
        Some(EffectV::ExileThenPlayFromExile { count: a.count, player: a.player, duration: a.duration })
    } else {
        None
    }
}

impl CardAttribute for ExileAndPlayAttribute {
    fn on_trigger(&mut self, trigger: &Trigger) -> (r: Option<Effect>)
        ensures
            *final(self) == *old(self),
            opt_effect_view(r) == exile_and_play_answer(*old(self), *trigger),
    {
        if *trigger == Trigger::OnCastResolved {
            return Some(
                Effect::ExileThenPlayFromExile { count: self.count, player: self.player, duration: self.duration },
            );
        }
        None
    }
}

#[derive(Debug, PartialEq, Clone)]
pub struct ConditionalAttribute {
    pub trigger: Trigger,
    pub condition: Condition,
    pub effect_if_true: Effect,
    pub effect_if_false: Option<Effect>,
}

/// The value of an optional effect.
pub open spec fn opt_effect_view(e: Option<Effect>) -> Option<EffectV> {
    match e {
        Some(f) => Some(f@),
        None => None,
    }
}

/// What a conditional attribute answers to a trigger.
pub open spec fn conditional_answer(
    trigger: Trigger,
    condition: Condition,
    if_true: EffectV,
    if_false: Option<EffectV>,
    t: Trigger,
) -> Option<EffectV> {
    if t == trigger {
        Some(EffectV::Conditional {
            condition,
            effect_if_true: Box::new(if_true),
            effect_if_false: match if_false {
                Some(f) => Some(Box::new(f)),
                None => None,
            },
        })
    } else {
        None
    }
}

impl CardAttribute for ConditionalAttribute {
    fn on_trigger(&mut self, trigger: &Trigger) -> (r: Option<Effect>)
        ensures
            *final(self) == *old(self),
            opt_effect_view(r) == conditional_answer(
                old(self).trigger,
                old(self).condition,
                old(self).effect_if_true@,
                opt_effect_view(old(self).effect_if_false),
                *trigger,
            ),
    {
        if *trigger == self.trigger {
            let t = clone_effect(&self.effect_if_true);
            let f = match &self.effect_if_false {
                Some(e) => Some(Box::new(clone_effect(e))),
                None => None,
            };
            return Some(Effect::Conditional { condition: self.condition, effect_if_true: Box::new(t), effect_if_false: f });
        }
        None
    }
}

#[derive(Debug, PartialEq, Clone)]
pub struct FirstTimePerTurnAttribute {
    pub base_trigger: Trigger,
    pub reset_phase: GamePhase,
    pub action: Effect,
    pub used: bool,
}

/// Whether a first-time-per-turn attribute fires on a trigger.
pub open spec fn first_time_fires(base_trigger: Trigger, used: bool, t: Trigger) -> bool {
    t == base_trigger && !used
}

/// Whether a trigger is the phase that re-arms a first-time-per-turn attribute.
pub open spec fn first_time_resets(reset_phase: GamePhase, t: Trigger) -> bool {
    t matches Trigger::AtPhase { phase, .. } && phase == reset_phase
}

/// The `used` flag of a first-time-per-turn attribute after a trigger.
pub open spec fn first_time_used_after(base_trigger: Trigger, reset_phase: GamePhase, used: bool, t: Trigger) -> bool {
    if first_time_fires(base_trigger, used, t) {
        true
    } else if first_time_resets(reset_phase, t) {
        false
    } else {
        used
    }
}

impl CardAttribute for FirstTimePerTurnAttribute {
    fn on_trigger(&mut self, trigger: &Trigger) -> (r: Option<Effect>)
        ensures
            final(self).base_trigger == old(self).base_trigger,
            final(self).reset_phase == old(self).reset_phase,
            final(self).action == old(self).action,
            final(self).used == first_time_used_after(
                old(self).base_trigger,
                old(self).reset_phase,
                old(self).used,
                *trigger,
            ),
            opt_effect_view(r) == (if first_time_fires(old(self).base_trigger, old(self).used, *trigger) {
                Some(old(self).action@)
            } else {
                None
            }),
    {
        if *trigger == self.base_trigger && !self.used {
            self.used = true;
            return Some(clone_effect(&self.action));
        }
        if let Trigger::AtPhase { phase, player: _ } = trigger {
            if *phase == self.reset_phase {
                self.used = false;
                return None;
            }
        }
        None
    }
}

#[derive(Debug, PartialEq, Clone)]
pub struct DelayedAttribute {
    pub effect: Effect,
    pub phase: GamePhase,
    pub deps: Vec<usize>,
}

/// What a delayed attribute answers to a trigger.
pub open spec fn delayed_answer(effect: EffectV, phase: GamePhase, deps: Seq<usize>, t: Trigger) -> Option<EffectV> {
    if t == Trigger::OnCastResolved {
        Some(EffectV::Delayed { effect: Box::new(effect), phase, deps })
    } else {
        None
    }
}

impl CardAttribute for DelayedAttribute {
    fn on_trigger(&mut self, trigger: &Trigger) -> (r: Option<Effect>)
        ensures
            *final(self) == *old(self),
            opt_effect_view(r) == delayed_answer(old(self).effect@, old(self).phase, old(self).deps@, *trigger),
    {
        if *trigger == Trigger::OnCastResolved {
            return Some(Effect::Delayed {
                effect: Box::new(clone_effect(&self.effect)),
                phase: self.phase,
                deps: clone_usizes(&self.deps),
            });
        }
        None
    }
}


/// One attribute of a card, of any of the kinds above.
#[derive(Debug, PartialEq)]
pub enum AnyAttribute {
    TriggeredEffect(TriggeredEffectAttribute),
    CreateEnchantment(CreateEnchantmentAttribute),
    Buff(BuffAttribute),
    GrantAbility(GrantAbilityAttribute),
    ChooseOnCondition(ChooseOnConditionAttribute),
    Offspring(OffspringAttribute),
    Prowess(ProwessAttribute),
    Lifelink(LifelinkAttribute),
    Deathtouch(DeathtouchAttribute),
    Trample(TrampleAttribute),
    DoubleStrike(DoubleStrikeAttribute),
    TypeSpecificTarget(TypeSpecificTargetAttribute),
    AddCounter(AddCounterAttribute),
    Proliferate(ProliferateAttribute),
    ExileAndPlay(ExileAndPlayAttribute),
    Conditional(ConditionalAttribute),
    FirstTimePerTurn(FirstTimePerTurnAttribute),
    Delayed(DelayedAttribute),
}

/// The value of an attribute.
pub enum AttributeV {
    TriggeredEffect(Trigger, EffectV),
    CreateEnchantment(Seq<char>, i32, i32, KeywordAbility, TargetFilter),
    Buff(BuffAttribute),
    GrantAbility(GrantAbilityAttribute),
    ChooseOnCondition(usize, Seq<EffectV>),
    Offspring(OffspringAttribute),
    Prowess(ProwessAttribute),
    Lifelink,
    Deathtouch,
    Trample,
    DoubleStrike,
    TypeSpecificTarget(CreatureType, EffectV),
    AddCounter(AddCounterAttribute),
    Proliferate(ProliferateAttribute),
    ExileAndPlay(ExileAndPlayAttribute),
    Conditional(Trigger, Condition, EffectV, Option<EffectV>),
    FirstTimePerTurn(Trigger, GamePhase, EffectV, bool),
    Delayed(EffectV, GamePhase, Seq<usize>),
}

impl View for AnyAttribute {
    type V = AttributeV;

    open spec fn view(&self) -> AttributeV {
        match self {
            AnyAttribute::TriggeredEffect(a) => AttributeV::TriggeredEffect(a.trigger, a.effect@),
            AnyAttribute::CreateEnchantment(a) =>
                AttributeV::CreateEnchantment(a.name@, a.power_buff, a.toughness_buff, a.ability, a.target),
            AnyAttribute::Buff(a) => AttributeV::Buff(*a),
            AnyAttribute::GrantAbility(a) => AttributeV::GrantAbility(*a),
            AnyAttribute::ChooseOnCondition(a) => AttributeV::ChooseOnCondition(a.choose, effects_view(a.options@)),
            AnyAttribute::Offspring(a) => AttributeV::Offspring(*a),
            AnyAttribute::Prowess(a) => AttributeV::Prowess(*a),
            AnyAttribute::Lifelink(_) => AttributeV::Lifelink,
            AnyAttribute::Deathtouch(_) => AttributeV::Deathtouch,
            AnyAttribute::Trample(_) => AttributeV::Trample,
            AnyAttribute::DoubleStrike(_) => AttributeV::DoubleStrike,
            AnyAttribute::TypeSpecificTarget(a) => AttributeV::TypeSpecificTarget(a.creature_type, a.effect@),
            AnyAttribute::AddCounter(a) => AttributeV::AddCounter(*a),
            AnyAttribute::Proliferate(a) => AttributeV::Proliferate(*a),
            AnyAttribute::ExileAndPlay(a) => AttributeV::ExileAndPlay(*a),
            AnyAttribute::Conditional(a) =>
                AttributeV::Conditional(a.trigger, a.condition, a.effect_if_true@, opt_effect_view(a.effect_if_false)),
            AnyAttribute::FirstTimePerTurn(a) =>
                AttributeV::FirstTimePerTurn(a.base_trigger, a.reset_phase, a.action@, a.used),
            AnyAttribute::Delayed(a) => AttributeV::Delayed(a.effect@, a.phase, a.deps@),
        }
    }
}

/// What an attribute answers to a trigger.
pub open spec fn attribute_answer(a: AttributeV, t: Trigger) -> Option<EffectV> {
    match a {
        AttributeV::TriggeredEffect(trigger, effect) => triggered_effect_answer(trigger, effect, t),
        AttributeV::CreateEnchantment(name, p, q, ability, _) => create_enchantment_answer(name, p, q, ability, t),
        AttributeV::Buff(b) => buff_answer(b, t),
        AttributeV::GrantAbility(g) => grant_ability_answer(g, t),
        AttributeV::ChooseOnCondition(choose, options) => Some(EffectV::ChooseSome { choose, options }),
        AttributeV::Offspring(o) => offspring_answer(o, t),
        AttributeV::Prowess(p) => prowess_answer(p, t),
        AttributeV::Lifelink => lifelink_answer(t),
        AttributeV::Deathtouch => deathtouch_answer(t),
        AttributeV::Trample => trample_answer(t),
        AttributeV::DoubleStrike => double_strike_answer(t),
        AttributeV::TypeSpecificTarget(_, effect) => triggered_effect_answer(controller_combat(), effect, t),
        AttributeV::AddCounter(a) => add_counter_answer(a, t),
        AttributeV::Proliferate(p) => proliferate_answer(p, t),
        AttributeV::ExileAndPlay(x) => exile_and_play_answer(x, t),
        AttributeV::Conditional(trigger, condition, if_true, if_false) =>
            conditional_answer(trigger, condition, if_true, if_false, t),
        AttributeV::FirstTimePerTurn(base, _, action, used) =>
            if first_time_fires(base, used, t) { Some(action) } else { None },
        AttributeV::Delayed(effect, phase, deps) => delayed_answer(effect, phase, deps, t),
    }
}

/// An attribute after it has answered a trigger: only a first-time-per-turn attribute changes.
pub open spec fn attribute_after(a: AttributeV, t: Trigger) -> AttributeV {
    match a {
        AttributeV::FirstTimePerTurn(base, reset, action, used) =>
            AttributeV::FirstTimePerTurn(base, reset, action, first_time_used_after(base, reset, used, t)),
        _ => a,
    }
}

impl CardAttribute for AnyAttribute {
    fn on_trigger(&mut self, trigger: &Trigger) -> (r: Option<Effect>)
        ensures
            final(self)@ == attribute_after(old(self)@, *trigger),
            opt_effect_view(r) == attribute_answer(old(self)@, *trigger),
    {
        match self {
            AnyAttribute::TriggeredEffect(a) => a.on_trigger(trigger),
            AnyAttribute::CreateEnchantment(a) => a.on_trigger(trigger),
            AnyAttribute::Buff(a) => a.on_trigger(trigger),
            AnyAttribute::GrantAbility(a) => a.on_trigger(trigger),
            AnyAttribute::ChooseOnCondition(a) => a.on_trigger(trigger),
            AnyAttribute::Offspring(a) => a.on_trigger(trigger),
            AnyAttribute::Prowess(a) => a.on_trigger(trigger),
            AnyAttribute::Lifelink(a) => a.on_trigger(trigger),
            AnyAttribute::Deathtouch(a) => a.on_trigger(trigger),
            AnyAttribute::Trample(a) => a.on_trigger(trigger),
            AnyAttribute::DoubleStrike(a) => a.on_trigger(trigger),
            AnyAttribute::TypeSpecificTarget(a) => a.on_trigger(trigger),
            AnyAttribute::AddCounter(a) => a.on_trigger(trigger),
            AnyAttribute::Proliferate(a) => a.on_trigger(trigger),
            AnyAttribute::ExileAndPlay(a) => a.on_trigger(trigger),
            AnyAttribute::Conditional(a) => a.on_trigger(trigger),
            AnyAttribute::FirstTimePerTurn(a) => a.on_trigger(trigger),
            AnyAttribute::Delayed(a) => a.on_trigger(trigger),
        }
    }
}

/// Copies an optional effect, keeping its value.
pub fn clone_opt_effect(e: &Option<Effect>) -> (r: Option<Effect>)
    ensures
        opt_effect_view(r) == opt_effect_view(*e),
{
    match e {
        Some(f) => Some(clone_effect(f)),
        None => None,
    }
}

impl Clone for AnyAttribute {
    fn clone(&self) -> (r: Self)
        ensures
            r@ == self@,
    {
        match self {
            AnyAttribute::TriggeredEffect(a) => AnyAttribute::TriggeredEffect(
                TriggeredEffectAttribute { trigger: a.trigger, effect: clone_effect(&a.effect) },
            ),
            AnyAttribute::CreateEnchantment(a) => AnyAttribute::CreateEnchantment(CreateEnchantmentAttribute {
                name: a.name.clone(),
                power_buff: a.power_buff,
                toughness_buff: a.toughness_buff,
                ability: a.ability,
                target: a.target,
            }),
            AnyAttribute::Buff(a) => AnyAttribute::Buff(*a),
            AnyAttribute::GrantAbility(a) => AnyAttribute::GrantAbility(*a),
            AnyAttribute::ChooseOnCondition(a) => AnyAttribute::ChooseOnCondition(
                ChooseOnConditionAttribute { choose: a.choose, options: clone_effects(&a.options) },
            ),
            AnyAttribute::Offspring(a) => AnyAttribute::Offspring(*a),
            AnyAttribute::Prowess(a) => AnyAttribute::Prowess(*a),
            AnyAttribute::Lifelink(a) => AnyAttribute::Lifelink(*a),
            AnyAttribute::Deathtouch(a) => AnyAttribute::Deathtouch(*a),
            AnyAttribute::Trample(a) => AnyAttribute::Trample(*a),
            AnyAttribute::DoubleStrike(a) => AnyAttribute::DoubleStrike(*a),
            AnyAttribute::TypeSpecificTarget(a) => AnyAttribute::TypeSpecificTarget(
                TypeSpecificTargetAttribute { creature_type: a.creature_type, effect: clone_effect(&a.effect) },
            ),
            AnyAttribute::AddCounter(a) => AnyAttribute::AddCounter(*a),
            AnyAttribute::Proliferate(a) => AnyAttribute::Proliferate(*a),
            AnyAttribute::ExileAndPlay(a) => AnyAttribute::ExileAndPlay(*a),
            AnyAttribute::Conditional(a) => AnyAttribute::Conditional(ConditionalAttribute {
                trigger: a.trigger,
                condition: a.condition,
                effect_if_true: clone_effect(&a.effect_if_true),
                effect_if_false: clone_opt_effect(&a.effect_if_false),
            }),
            AnyAttribute::FirstTimePerTurn(a) => AnyAttribute::FirstTimePerTurn(FirstTimePerTurnAttribute {
                base_trigger: a.base_trigger,
                reset_phase: a.reset_phase,
                action: clone_effect(&a.action),
                used: a.used,
            }),
            AnyAttribute::Delayed(a) => AnyAttribute::Delayed(
                DelayedAttribute { effect: clone_effect(&a.effect), phase: a.phase, deps: clone_usizes(&a.deps) },
            ),
        }
    }
}

} // verus!
