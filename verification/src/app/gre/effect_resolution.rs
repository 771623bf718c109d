//! How the engine carries out effects.
use vstd::prelude::*;

use crate::app::card_attribute::{
    clone_effect, effect_eq, effects_view, lemma_effects_view, lemma_effects_view_ext, lemma_effects_view_push, Amount, Condition, CounterType, Duration, Effect, EffectV, KeywordAbility, PlayerSelector,
    TargetFilter, Trigger,
};
use crate::app::card_library::{card_answers, cloned_card, Card, CardType, CardTypeFlags, CardTypeV, CardV, CreatureV, FLAG_TOKEN};
use crate::app::game_state::{GameEvent, GamePhase, Player};
use crate::app::gre::card_map::{distinct_keys, has_key, index_of, keys_of, lemma_index_of, lemma_update_card};
use crate::app::gre::gre_structs::{apply_continuous, continuous_apply, ActivatedAbilityV, ContinuousEffect, ReplacementEffectV, ReplacementRule};
use crate::app::gre::stack::opt_card_view;
use crate::app::gre::trigger::{
    batch_of, cards_view, counter_added_result, death_effects, death_positions, mana_added_result, without_positions,
};
use crate::app::gre::{scheduled, stack_target, Gre, GreV, EFFECT_DEPTH};

verus! {

/// Addition that wraps around on `i32`.
pub open spec fn wadd(x: i32, y: i32) -> i32 {
    vstd::wrapping::i32_specs::wrapping_add(x, y)
}

/// Negation that wraps around on `i32` (the negation of the least `i32` is itself).
pub open spec fn negated(x: i32) -> i32 {
    vstd::wrapping::i32_specs::wrapping_sub(0, x)
}

/// Whether a card is a creature.
pub open spec fn is_creature(c: CardV) -> bool {
    c.card_type is Creature
}

/// Whether a card is an artifact.
pub open spec fn is_artifact(c: CardV) -> bool {
    c.card_type is Artifact
}

/// The test "is a creature".
pub open spec fn creature_test() -> spec_fn(CardV) -> bool {
    |c: CardV| is_creature(c)
}

/// The test "is an artifact".
pub open spec fn artifact_test() -> spec_fn(CardV) -> bool {
    |c: CardV| is_artifact(c)
}

/// A creature's power with its temporary bonus (zero for other cards).
pub open spec fn power_now(c: CardV) -> i32 {
    match c.card_type {
        CardTypeV::Creature(cr) => wadd(cr.power, cr.ephemeral_power),
        _ => 0,
    }
}

/// A creature's toughness with its temporary bonus (zero for other cards).
pub open spec fn toughness_now(c: CardV) -> i32 {
    match c.card_type {
        CardTypeV::Creature(cr) => wadd(cr.toughness, cr.ephemeral_toughness),
        _ => 0,
    }
}

/// A creature with its temporary bonus raised; other cards are unchanged.
pub open spec fn with_ephemeral(c: CardV, p: i32, t: i32) -> CardV {
    match c.card_type {
        CardTypeV::Creature(cr) => CardV {
            card_type: CardTypeV::Creature(
                CreatureV { ephemeral_power: wadd(cr.ephemeral_power, p), ephemeral_toughness: wadd(cr.ephemeral_toughness, t), ..cr },
            ),
            ..c
        },
        _ => c,
    }
}

/// A creature with its printed statistics raised; other cards are unchanged.
pub open spec fn with_base(c: CardV, p: i32, t: i32) -> CardV {
    match c.card_type {
        CardTypeV::Creature(cr) => CardV {
            card_type: CardTypeV::Creature(CreatureV { power: wadd(cr.power, p), toughness: wadd(cr.toughness, t), ..cr }),
            ..c
        },
        _ => c,
    }
}

/// The test "is not `a`".
pub open spec fn other_than(a: KeywordAbility) -> spec_fn(KeywordAbility) -> bool {
    |x: KeywordAbility| x != a
}

/// A creature without a keyword ability; other cards are unchanged.
pub open spec fn without_ability(c: CardV, a: KeywordAbility) -> CardV {
    match c.card_type {
        CardTypeV::Creature(cr) => CardV {
            card_type: CardTypeV::Creature(CreatureV { abilities: cr.abilities.filter(other_than(a)), ..cr }),
            ..c
        },
        _ => c,
    }
}

/// A card whose activated abilities are all used for this turn.
pub open spec fn tapped(c: CardV) -> CardV {
    CardV {
        activated_abilities: c.activated_abilities.map_values(
            |a: ActivatedAbilityV| ActivatedAbilityV { activated_this_turn: true, ..a },
        ),
        ..c
    }
}

/// The card with identifier `k` (meaningful where it is tracked).
pub open spec fn card_of(g: GreV, k: u64) -> CardV {
    g.battlefield[index_of(g.battlefield, k)].1
}

/// The engine with the card of identifier `k` replaced.
pub open spec fn set_card(g: GreV, k: u64, c: CardV) -> GreV {
    GreV { battlefield: g.battlefield.update(index_of(g.battlefield, k), (k, c)), ..g }
}

/// The engine without the card of identifier `k`.
pub open spec fn without_card(g: GreV, k: u64) -> GreV {
    GreV { battlefield: g.battlefield.remove(index_of(g.battlefield, k)), ..g }
}

/// The first position whose card satisfies `p` (meaningful where one does).
pub open spec fn first_where(s: Seq<(u64, CardV)>, p: spec_fn(CardV) -> bool) -> int {
    choose|i: int| 0 <= i < s.len() && p(#[trigger] s[i].1) && (forall|j: int| 0 <= j < i ==> !p(#[trigger] s[j].1))
}

/// Whether some card satisfies `p`.
pub open spec fn some_where(s: Seq<(u64, CardV)>, p: spec_fn(CardV) -> bool) -> bool {
    exists|i: int| 0 <= i < s.len() && p(#[trigger] s[i].1)
}

/// The first position whose card satisfies `p` is the one position that satisfies `p` with no
/// such position before it.
pub proof fn lemma_first_where(s: Seq<(u64, CardV)>, p: spec_fn(CardV) -> bool, i: int)
    requires
        0 <= i < s.len(),
        p(s[i].1),
        forall|j: int| 0 <= j < i ==> !p(#[trigger] s[j].1),
    ensures
        first_where(s, p) == i,
        some_where(s, p),
{
    let k = first_where(s, p);
    assert(0 <= k < s.len() && p(s[k].1) && (forall|j: int| 0 <= j < k ==> !p(#[trigger] s[j].1)));
    if k < i {
        assert(!p(s[k].1));
    } else if k > i {
        assert(!p(s[i].1));
    }
}

/// What a stat change does to the engine: until end of turn it raises the temporary bonus of the
/// tracked card and schedules the opposite change for the end phase; permanently it raises the
/// printed statistics; anything else changes nothing.
#[verifier::opaque]
pub open spec fn modify_stats_result(g: GreV, p: i32, t: i32, duration: Duration, target: TargetFilter) -> GreV {
    match target {
        TargetFilter::ExactCardID(cid) => if has_key(g.battlefield, cid) {
            match duration {
                Duration::EndOfTurn => scheduled(
                    set_card(g, cid, with_ephemeral(card_of(g, cid), p, t)),
                    EffectV::ModifyStats {
                        power_delta: negated(p),
                        toughness_delta: negated(t),
                        duration: Duration::Permanent,
                        target: TargetFilter::ExactCardID(cid),
                    },
                    GamePhase::End,
                    Seq::empty(),
                ),
                Duration::Permanent => set_card(g, cid, with_base(card_of(g, cid), p, t)),
                _ => g,
            }
        } else {
            g
        },
        _ => g,
    }
}

/// The permanent a counter effect puts its counters on: the one named by identifier, or the
/// source card itself; none for any other target.
pub open spec fn counter_target(g: GreV, target: TargetFilter) -> Option<u64> {
    match target {
        TargetFilter::ExactCardID(cid) => Some(cid),
        TargetFilter::SelfCard => match g.current_source_card {
            Some(src) => Some(src.card_id),
            None => None,
        },
        _ => None,
    }
}

/// What adding counters does: +1/+1 counters raise the printed statistics of the tracked
/// creature they are put on (see `counter_target`).
#[verifier::opaque]
pub open spec fn add_counter_result(g: GreV, counter: CounterType, amount: u32, target: TargetFilter) -> GreV {
    match counter_target(g, target) {
        Some(cid) => if has_key(g.battlefield, cid) && counter == CounterType::PlusOnePlusOne {
            set_card(g, cid, with_base(card_of(g, cid), amount as i32, amount as i32))
        } else {
            g
        },
        None => g,
    }
}

/// What removing an ability does: the tracked creature loses every copy of it.
#[verifier::opaque]
pub open spec fn remove_ability_result(g: GreV, ability: KeywordAbility, target: TargetFilter) -> GreV {
    match target {
        TargetFilter::ExactCardID(cid) => if has_key(g.battlefield, cid) {
            set_card(g, cid, without_ability(card_of(g, cid), ability))
        } else {
            g
        },
        _ => g,
    }
}

/// A creature with a keyword ability added; other cards are unchanged.
pub open spec fn with_ability(c: CardV, a: KeywordAbility) -> CardV {
    match c.card_type {
        CardTypeV::Creature(cr) => CardV { card_type: CardTypeV::Creature(CreatureV { abilities: cr.abilities.push(a), ..cr }), ..c },
        _ => c,
    }
}

/// Whether a card is a creature without a keyword ability.
pub open spec fn lacks_ability(c: CardV, a: KeywordAbility) -> bool {
    match c.card_type {
        CardTypeV::Creature(cr) => !cr.abilities.contains(a),
        _ => false,
    }
}

/// What granting an ability does: the tracked creature that lacks it gets it; until end of
/// turn, its removal is scheduled for the end phase; for good, it stays; a creature that has it
/// already, or anything else, is unchanged.
#[verifier::opaque]
pub open spec fn grant_ability_result(g: GreV, ability: KeywordAbility, duration: Duration, target: TargetFilter) -> GreV {
    match target {
        TargetFilter::ExactCardID(cid) => if has_key(g.battlefield, cid) && lacks_ability(card_of(g, cid), ability) {
            match duration {
                Duration::EndOfTurn => scheduled(
                    set_card(g, cid, with_ability(card_of(g, cid), ability)),
                    EffectV::RemoveAbility { ability, target: TargetFilter::ExactCardID(cid) },
                    GamePhase::End,
                    Seq::empty(),
                ),
                Duration::Permanent => set_card(g, cid, with_ability(card_of(g, cid), ability)),
                _ => g,
            }
        } else {
            g
        },
        _ => g,
    }
}

/// What tapping does: the card named by identifier, the source card, or the first tracked
/// creature has all its activated abilities used for the turn.
#[verifier::opaque]
pub open spec fn tap_result(g: GreV, target: TargetFilter) -> GreV {
    match target {
        TargetFilter::ExactCardID(cid) => if has_key(g.battlefield, cid) {
            set_card(g, cid, tapped(card_of(g, cid)))
        } else {
            g
        },
        TargetFilter::SelfCard => match g.current_source_card {
            Some(src) => if has_key(g.battlefield, src.card_id) {
                set_card(g, src.card_id, tapped(card_of(g, src.card_id)))
            } else {
                g
            },
            None => g,
        },
        TargetFilter::ControllerCreature => if some_where(g.battlefield, creature_test()) {
            let i = first_where(g.battlefield, creature_test());
            GreV { battlefield: g.battlefield.update(i, (g.battlefield[i].0, tapped(g.battlefield[i].1))), ..g }
        } else {
            g
        },
        _ => g,
    }
}

/// The greatest current power among the first `n` tracked creatures, and at least zero.
pub open spec fn max_power_upto(s: Seq<(u64, CardV)>, n: nat) -> i32
    decreases n,
{
    if n == 0 {
        0
    } else {
        let m = max_power_upto(s, (n - 1) as nat);
        if is_creature(s[n - 1].1) && power_now(s[n - 1].1) > m {
            power_now(s[n - 1].1)
        } else {
            m
        }
    }
}

/// The engine after the first `n` tracked creatures got `m` more power and toughness.
pub open spec fn buff_all_upto(g: GreV, m: i32, duration: Duration, n: nat) -> GreV
    decreases n,
{
    if n == 0 {
        g
    } else {
        let g1 = buff_all_upto(g, m, duration, (n - 1) as nat);
        let i = n - 1;
        let k = g1.battlefield[i].0;
        let c = g1.battlefield[i].1;
        if is_creature(c) {
            match duration {
                Duration::EndOfTurn => scheduled(
                    GreV { battlefield: g1.battlefield.update(i, (k, with_ephemeral(c, m, m))), ..g1 },
                    EffectV::ModifyStats {
                        power_delta: negated(m),
                        toughness_delta: negated(m),
                        duration: Duration::Permanent,
                        target: TargetFilter::ExactCardID(k),
                    },
                    GamePhase::End,
                    Seq::empty(),
                ),
                Duration::Permanent => GreV { battlefield: g1.battlefield.update(i, (k, with_base(c, m, m))), ..g1 },
                _ => g1,
            }
        } else {
            g1
        }
    }
}

/// What "all your creatures get +X/+X, X the greatest power among them" does.
#[verifier::opaque]
pub open spec fn buff_all_result(g: GreV, filter: TargetFilter, duration: Duration) -> GreV {
    if filter == TargetFilter::ControllerCreature {
        buff_all_upto(g, max_power_upto(g.battlefield, g.battlefield.len()), duration, g.battlefield.len())
    } else {
        g
    }
}

/// Buffing the first `n` creatures changes only cards, and only the first `n`.
pub proof fn lemma_buff_all_frame(g: GreV, m: i32, duration: Duration, n: nat)
    requires
        n <= g.battlefield.len(),
    ensures
        follows(g, buff_all_upto(g, m, duration, n)),
        buff_all_upto(g, m, duration, n).battlefield.len() == g.battlefield.len(),
        forall|j: int| 0 <= j < g.battlefield.len() ==> (#[trigger] buff_all_upto(g, m, duration, n).battlefield[j]).0
            == g.battlefield[j].0,
        forall|j: int| n <= j < g.battlefield.len() ==> #[trigger] buff_all_upto(g, m, duration, n).battlefield[j]
            == g.battlefield[j],
    decreases n,
{
    if n > 0 {
        lemma_buff_all_frame(g, m, duration, (n - 1) as nat);
    }
}

/// What exiling does: a tracked card leaves, and the engine remembers whether it was a
/// creature; a card exiled from a graveyard counts as a creature.
#[verifier::opaque]
pub open spec fn exile_result(g: GreV, target: TargetFilter) -> GreV {
    match target {
        TargetFilter::ExactCardID(cid) => if has_key(g.battlefield, cid) {
            GreV { last_exiled_card_was_creature: is_creature(card_of(g, cid)), ..without_card(g, cid) }
        } else {
            g
        },
        TargetFilter::CardInGraveyard => GreV { last_exiled_card_was_creature: true, ..g },
        _ => g,
    }
}

/// What preventing life gain does: permanently it lifts the prevention; for a shorter time it
/// sets it and schedules its lifting for the end phase.
#[verifier::opaque]
pub open spec fn prevent_life_gain_result(g: GreV, player: PlayerSelector, duration: Duration) -> GreV {
    match player {
        PlayerSelector::AnyPlayer => g,
        _ => {
            let on = duration != Duration::Permanent;
            let g1 = if player == PlayerSelector::Controller {
                GreV { prevent_life_gain_us: on, ..g }
            } else {
                GreV { prevent_life_gain_opponent: on, ..g }
            };
            if on {
                scheduled(
                    g1,
                    EffectV::PreventLifeGain { player, duration: Duration::Permanent },
                    GamePhase::End,
                    Seq::empty(),
                )
            } else {
                g1
            }
        },
    }
}

/// What "when the target dies this turn" does: the target of the spell on top of the stack
/// gets a death trigger for this turn.
#[verifier::opaque]
pub open spec fn when_target_dies_result(g: GreV, effect: EffectV) -> GreV {
    match stack_target(g) {
        Some(t) => GreV { death_triggers: g.death_triggers.push((t, effect)), ..g },
        None => g,
    }
}

/// The number an amount stands for: a fixed number, or the current power or toughness of the
/// source card when it is a creature (zero otherwise).
pub open spec fn amount_value(g: GreV, amount: Amount) -> i32 {
    match amount {
        Amount::Fixed(v) => v,
        Amount::SourcePower => match g.current_source_card {
            Some(src) => power_now(src),
            None => 0,
        },
        Amount::SourceToughness => match g.current_source_card {
            Some(src) => toughness_now(src),
            None => 0,
        },
    }
}

/// Whether `amount` damage to `target` kills a tracked creature.
pub open spec fn damage_is_lethal(g: GreV, amount: i32, target: TargetFilter) -> bool {
    match target {
        TargetFilter::ExactCardID(cid) => has_key(g.battlefield, cid) && is_creature(card_of(g, cid)) && amount
            >= toughness_now(card_of(g, cid)),
        _ => false,
    }
}

/// What damage that kills nothing does: damage to a player marks that the opponent lost life.
pub open spec fn damage_result(g: GreV, target: TargetFilter) -> GreV {
    match target {
        TargetFilter::Player => GreV { opponent_lost_life_this_turn: true, ..g },
        _ => g,
    }
}

/// The damage of "deals damage equal to a creature's power": the source creature's power, or,
/// where that is zero, the power of the first tracked creature.
pub open spec fn power_damage(g: GreV, source: TargetFilter) -> i32 {
    let from_source = match source {
        TargetFilter::ExactCardID(sid) => if has_key(g.battlefield, sid) { power_now(card_of(g, sid)) } else { 0 },
        _ => 0,
    };
    if from_source == 0 && some_where(g.battlefield, creature_test()) {
        power_now(g.battlefield[first_where(g.battlefield, creature_test())].1)
    } else {
        from_source
    }
}

/// What destroying does when no creature dies: a tracked non-creature card leaves; for
/// artifacts, the first tracked artifact leaves.
#[verifier::opaque]
pub open spec fn destroy_result(g: GreV, target: TargetFilter) -> GreV {
    match target {
        TargetFilter::ExactCardID(cid) => if has_key(g.battlefield, cid) { without_card(g, cid) } else { g },
        TargetFilter::Artifact => if some_where(g.battlefield, artifact_test()) {
            GreV { battlefield: g.battlefield.remove(first_where(g.battlefield, artifact_test())), ..g }
        } else {
            g
        },
        _ => g,
    }
}

/// Whether damage kills nothing.
#[verifier::opaque]
pub open spec fn damage_settles(g: GreV, amount: Amount, target: TargetFilter) -> bool {
    !damage_is_lethal(g, amount_value(g, amount), target)
}

/// Whether damage by power kills nothing.
#[verifier::opaque]
pub open spec fn power_damage_settles(g: GreV, source: TargetFilter, target: TargetFilter) -> bool {
    power_damage(g, source) <= 0 || !damage_is_lethal(g, power_damage(g, source), target)
}

/// Whether destroying kills no creature.
#[verifier::opaque]
pub open spec fn destroy_settles(g: GreV, target: TargetFilter) -> bool {
    match target {
        TargetFilter::ExactCardID(cid) => !(has_key(g.battlefield, cid) && is_creature(card_of(g, cid))),
        _ => true,
    }
}

/// Whether counters for everyone give none.
#[verifier::opaque]
pub open spec fn counter_all_settles(g: GreV, amount: Amount, filter: TargetFilter) -> bool {
    amount_value(g, amount) == 0 || filter != TargetFilter::ControllerCreature
}

/// Whether an effect settles without any further effect or event: these are the effects whose
/// whole result `direct_result` states.
#[verifier::opaque]
pub open spec fn settles_directly(g: GreV, e: EffectV) -> bool {
    match e {
        EffectV::Damage { amount, target } => damage_settles(g, amount, target),
        EffectV::DamageByTargetPower { source, target } => power_damage_settles(g, source, target),
        EffectV::Destroy { target } => destroy_settles(g, target),
        EffectV::AddMana { .. } => g.current_source_card is None,
        EffectV::AddCounterAll { amount, filter, .. } => counter_all_settles(g, amount, filter),
        EffectV::Conditional { .. } => false,
        EffectV::TargetedEffects { .. } => false,
        EffectV::ChooseSome { .. } => false,
        EffectV::Offspring { .. } => false,
        EffectV::CreateCreatureToken { .. } => false,
        EffectV::CreateEnchantmentToken { .. } => false,
        _ => true,
    }
}

/// The engine after an effect that settles directly.
#[verifier::opaque]
pub open spec fn direct_result(g: GreV, e: EffectV) -> GreV {
    match e {
        EffectV::ModifyStats { power_delta, toughness_delta, duration, target } => modify_stats_result(
            g,
            power_delta,
            toughness_delta,
            duration,
            target,
        ),
        EffectV::AddCounter { counter, amount, target } => add_counter_result(g, counter, amount, target),
        EffectV::RemoveAbility { ability, target } => remove_ability_result(g, ability, target),
        EffectV::GrantAbility { ability, duration, target } => grant_ability_result(g, ability, duration, target),
        EffectV::TapTarget { target } => tap_result(g, target),
        EffectV::BuffAllByMaxPower { filter, duration } => buff_all_result(g, filter, duration),
        EffectV::Exile { target } => exile_result(g, target),
        EffectV::PreventLifeGain { player, duration } => prevent_life_gain_result(g, player, duration),
        EffectV::WhenTargetDiesThisTurn { effect } => when_target_dies_result(g, *effect),
        EffectV::Damage { target, .. } => damage_result(g, target),
        EffectV::Destroy { target } => destroy_result(g, target),
        _ => g,
    }
}

/// A stat change settles directly, as `modify_stats_result` says.
pub proof fn lemma_direct_modify_stats(g: GreV, p: i32, t: i32, duration: Duration, target: TargetFilter)
    ensures
        ({
            let e = EffectV::ModifyStats { power_delta: p, toughness_delta: t, duration, target };
            settles_directly(g, e) && direct_result(g, e) == modify_stats_result(g, p, t, duration, target)
        }),
{
    reveal(settles_directly);
    reveal(direct_result);
}

/// Adding counters settles directly, as `add_counter_result` says.
pub proof fn lemma_direct_add_counter(g: GreV, counter: CounterType, amount: u32, target: TargetFilter)
    ensures
        ({
            let e = EffectV::AddCounter { counter, amount, target };
            settles_directly(g, e) && direct_result(g, e) == add_counter_result(g, counter, amount, target)
        }),
{
    reveal(settles_directly);
    reveal(direct_result);
}

/// Removing an ability settles directly, as `remove_ability_result` says.
pub proof fn lemma_direct_remove_ability(g: GreV, ability: KeywordAbility, target: TargetFilter)
    ensures
        ({
            let e = EffectV::RemoveAbility { ability, target };
            settles_directly(g, e) && direct_result(g, e) == remove_ability_result(g, ability, target)
        }),
{
    reveal(settles_directly);
    reveal(direct_result);
}

/// Granting an ability settles directly, as `grant_ability_result` says.
pub proof fn lemma_direct_grant_ability(g: GreV, ability: KeywordAbility, duration: Duration, target: TargetFilter)
    ensures
        ({
            let e = EffectV::GrantAbility { ability, duration, target };
            settles_directly(g, e) && direct_result(g, e) == grant_ability_result(g, ability, duration, target)
        }),
{
    reveal(settles_directly);
    reveal(direct_result);
}

/// Tapping settles directly, as `tap_result` says.
pub proof fn lemma_direct_tap(g: GreV, target: TargetFilter)
    ensures
        settles_directly(g, EffectV::TapTarget { target }) && direct_result(g, EffectV::TapTarget { target })
            == tap_result(g, target),
{
    reveal(settles_directly);
    reveal(direct_result);
}

/// Buffing every creature settles directly, as `buff_all_result` says.
pub proof fn lemma_direct_buff_all(g: GreV, filter: TargetFilter, duration: Duration)
    ensures
        ({
            let e = EffectV::BuffAllByMaxPower { filter, duration };
            settles_directly(g, e) && direct_result(g, e) == buff_all_result(g, filter, duration)
        }),
{
    reveal(settles_directly);
    reveal(direct_result);
}

/// Exiling settles directly, as `exile_result` says.
pub proof fn lemma_direct_exile(g: GreV, target: TargetFilter)
    ensures
        settles_directly(g, EffectV::Exile { target }) && direct_result(g, EffectV::Exile { target }) == exile_result(
            g,
            target,
        ),
{
    reveal(settles_directly);
    reveal(direct_result);
}

/// Preventing life gain settles directly, as `prevent_life_gain_result` says.
pub proof fn lemma_direct_prevent_life_gain(g: GreV, player: PlayerSelector, duration: Duration)
    ensures
        ({
            let e = EffectV::PreventLifeGain { player, duration };
            settles_directly(g, e) && direct_result(g, e) == prevent_life_gain_result(g, player, duration)
        }),
{
    reveal(settles_directly);
    reveal(direct_result);
}

/// Registering a death trigger settles directly, as `when_target_dies_result` says.
pub proof fn lemma_direct_when_target_dies(g: GreV, effect: EffectV)
    ensures
        ({
            let e = EffectV::WhenTargetDiesThisTurn { effect: Box::new(effect) };
            settles_directly(g, e) && direct_result(g, e) == when_target_dies_result(g, effect)
        }),
{
    reveal(settles_directly);
    reveal(direct_result);
}

/// Damage settles directly when it kills nothing, as `damage_result` says.
pub proof fn lemma_direct_damage(g: GreV, amount: Amount, target: TargetFilter)
    ensures
        ({
            let e = EffectV::Damage { amount, target };
            &&& settles_directly(g, e) == !damage_is_lethal(g, amount_value(g, amount), target)
            &&& direct_result(g, e) == damage_result(g, target)
        }),
{
    reveal(settles_directly);
    reveal(direct_result);
    reveal(damage_settles);
}

/// Damage by power settles directly, and changes nothing, when it kills nothing.
pub proof fn lemma_direct_damage_by_power(g: GreV, source: TargetFilter, target: TargetFilter)
    ensures
        ({
            let e = EffectV::DamageByTargetPower { source, target };
            &&& settles_directly(g, e) == (power_damage(g, source) <= 0 || !damage_is_lethal(
                g,
                power_damage(g, source),
                target,
            ))
            &&& direct_result(g, e) == g
        }),
{
    reveal(settles_directly);
    reveal(direct_result);
    reveal(power_damage_settles);
}

/// Destroying settles directly when no creature dies, as `destroy_result` says.
pub proof fn lemma_direct_destroy(g: GreV, target: TargetFilter)
    ensures
        direct_result(g, EffectV::Destroy { target }) == destroy_result(g, target),
        settles_directly(g, EffectV::Destroy { target }) == destroy_settles(g, target),
{
    reveal(settles_directly);
    reveal(direct_result);
}

/// Adding mana settles directly, and changes nothing, when there is no source card.
pub proof fn lemma_direct_add_mana(g: GreV, e: EffectV)
    requires
        e is AddMana,
    ensures
        settles_directly(g, e) == (g.current_source_card is None),
        direct_result(g, e) == g,
{
    reveal(settles_directly);
    reveal(direct_result);
}

/// Counters for everyone settle directly, and change nothing, when there are none to give.
pub proof fn lemma_direct_add_counter_all(g: GreV, counter: CounterType, amount: Amount, filter: TargetFilter)
    ensures
        ({
            let e = EffectV::AddCounterAll { counter, amount, filter };
            &&& settles_directly(g, e) == (amount_value(g, amount) == 0 || filter != TargetFilter::ControllerCreature)
            &&& direct_result(g, e) == g
        }),
{
    reveal(settles_directly);
    reveal(direct_result);
    reveal(counter_all_settles);
}

/// Effects made of other effects, and effects that create permanents, do not settle directly.
pub proof fn lemma_not_direct(g: GreV, e: EffectV)
    requires
        e is Conditional || e is TargetedEffects || e is ChooseSome || e is Offspring || e is CreateCreatureToken
            || e is CreateEnchantmentToken,
    ensures
        !settles_directly(g, e),
{
    reveal(settles_directly);
}

/// The effects the engine only takes note of settle directly and change nothing.
pub proof fn lemma_direct_noop(g: GreV, e: EffectV)
    requires
        e is DrawCards || e is GainLife || e is Proliferate || e is ExileTop
            || e is ExileThenPlayFromExile || e is Delayed || e is DrawCardsCounted,
    ensures
        settles_directly(g, e),
        direct_result(g, e) == g,
{
    reveal(settles_directly);
    reveal(direct_result);
}

/// Raises a creature's temporary bonus.
fn add_ephemeral(card: &mut Card, p: i32, t: i32)
    ensures
        final(card)@ == with_ephemeral(old(card)@, p, t),
{
    if let CardType::Creature(ref mut cr) = card.card_type {
        cr.ephemeral_power = cr.ephemeral_power.wrapping_add(p);
        cr.ephemeral_toughness = cr.ephemeral_toughness.wrapping_add(t);
    }
}

/// Raises a creature's printed statistics.
fn add_base(card: &mut Card, p: i32, t: i32)
    ensures
        final(card)@ == with_base(old(card)@, p, t),
{
    if let CardType::Creature(ref mut cr) = card.card_type {
        cr.power = cr.power.wrapping_add(p);
        cr.toughness = cr.toughness.wrapping_add(t);
    }
}

/// Removes every copy of a keyword ability from a creature.
fn remove_keyword(card: &mut Card, ability: KeywordAbility)
    ensures
        final(card)@ == without_ability(old(card)@, ability),
{
    if let CardType::Creature(ref mut cr) = card.card_type {
        let ghost before = cr.abilities@;
        let mut kept: Vec<KeywordAbility> = Vec::new();
        let mut i: usize = 0;
        while i < cr.abilities.len()
            invariant
                i <= cr.abilities@.len(),
                cr.abilities@ == before,
                kept@ == before.take(i as int).filter(other_than(ability)),
            decreases cr.abilities.len() - i,
        {
            let a = cr.abilities[i];
            proof {
                assert(before.take(i as int + 1) =~= before.take(i as int).push(a));
                before.take(i as int).lemma_filter_push(a, other_than(ability));
            }
            if a != ability {
                kept.push(a);
            }
            i += 1;
        }
        proof {
            assert(before.take(i as int) =~= before);
        }
        cr.abilities = kept;
    }
}

/// Adds a keyword ability to a creature.
fn add_keyword(card: &mut Card, ability: KeywordAbility)
    ensures
        final(card)@ == with_ability(old(card)@, ability),
{
    if let CardType::Creature(ref mut cr) = card.card_type {
        cr.abilities.push(ability);
    }
}

/// Whether a card is a creature without a keyword ability.
fn lacks_keyword(card: &Card, ability: KeywordAbility) -> (r: bool)
    ensures
        r == lacks_ability(card@, ability),
{
    match &card.card_type {
        CardType::Creature(cr) => !crate::app::combat_engine::has_ability(&cr.abilities, ability),
        _ => false,
    }
}

/// Uses every activated ability of a card for this turn.
fn tap_card(card: &mut Card)
    ensures
        final(card)@ == tapped(old(card)@),
{
    let ghost before = card@;
    let mut used: Vec<crate::app::gre::ActivatedAbility> = Vec::new();
    let mut j: usize = 0;
    while j < card.activated_abilities.len()
        invariant
            j <= card.activated_abilities@.len(),
            card@ == before,
            used@.len() == j,
            forall|k: int| 0 <= k < j ==> #[trigger] used@[k]@
                == (ActivatedAbilityV { activated_this_turn: true, ..before.activated_abilities[k] }),
        decreases card.activated_abilities.len() - j,
    {
        let mut a = card.activated_abilities[j].clone();
        a.activated_this_turn = true;
        used.push(a);
        j += 1;
    }
    card.activated_abilities = used;
    proof {
        assert(card@.activated_abilities =~= tapped(before).activated_abilities);
    }
}

/// The first tracked card that is a creature (`creature`) or an artifact (otherwise).
fn first_of_kind(gre: &Gre, creature: bool) -> (r: Option<usize>)
    ensures
        ({
            let s = gre@.battlefield;
            let p = if creature { creature_test() } else { artifact_test() };
            match r {
                Some(i) => i < s.len() && i == first_where(s, p) && some_where(s, p),
                None => !some_where(s, p),
            }
        }),
{
    let ghost s = gre@.battlefield;
    let ghost p = if creature { creature_test() } else { artifact_test() };
    let n = gre.battlefield_creatures.len();
    let mut i: usize = 0;
    while i < n
        invariant
            n == s.len(),
            s == gre@.battlefield,
            p == (if creature { creature_test() } else { artifact_test() }),
            i <= n,
            forall|j: int| 0 <= j < i ==> !p(#[trigger] s[j].1),
        decreases n - i,
    {
        let c = gre.battlefield_creatures.card_at(i);
        let hit = if creature {
            matches!(c.card_type, CardType::Creature(_))
        } else {
            matches!(c.card_type, CardType::Artifact)
        };
        if hit {
            proof {
                lemma_first_where(s, p, i as int);
            }
            return Some(i);
        }
        i += 1;
    }
    None
}

impl Gre {
    /// Changes a tracked card's statistics (see `modify_stats_result`).
    fn modify_stats(&mut self, p: i32, t: i32, duration: Duration, target: TargetFilter)
        requires
            old(self).wf(),
        ensures
            final(self).wf(),
            follows(old(self)@, final(self)@),
            final(self)@ == modify_stats_result(old(self)@, p, t, duration, target),
    {
        proof {
            reveal(modify_stats_result);
        }
        let ghost g = self@;
        if let TargetFilter::ExactCardID(cid) = target {
            match duration {
                Duration::EndOfTurn => {
                    if let Some(i) = self.battlefield_creatures.position(cid) {
                        proof {
                            lemma_index_of(g.battlefield, cid, i as int);
                        }
                        let mut card = self.battlefield_creatures.card_at(i).clone();
                        add_ephemeral(&mut card, p, t);
                        self.battlefield_creatures.set_at(i, card);
                        let revert = Effect::ModifyStats {
                            power_delta: 0i32.wrapping_sub(p),
                            toughness_delta: 0i32.wrapping_sub(t),
                            duration: Duration::Permanent,
                            target: TargetFilter::ExactCardID(cid),
                        };
                        self.schedule_delayed(revert, GamePhase::End, Vec::new());
                    }
                },
                Duration::Permanent => {
                    if let Some(i) = self.battlefield_creatures.position(cid) {
                        proof {
                            lemma_index_of(g.battlefield, cid, i as int);
                        }
                        let mut card = self.battlefield_creatures.card_at(i).clone();
                        add_base(&mut card, p, t);
                        self.battlefield_creatures.set_at(i, card);
                    }
                },
                _ => {},
            }
        }
    }

    /// Puts counters on a tracked creature (see `add_counter_result`).
    fn add_counter(&mut self, counter: CounterType, amount: u32, target: TargetFilter)
        requires
            old(self).wf(),
        ensures
            final(self).wf(),
            follows(old(self)@, final(self)@),
            final(self)@ == add_counter_result(old(self)@, counter, amount, target),
    {
        proof {
            reveal(add_counter_result);
        }
        let ghost g = self@;
        let dest = match target {
            TargetFilter::ExactCardID(cid) => Some(cid),
            TargetFilter::SelfCard => match &self.current_source_card {
                Some(src) => Some(src.card_id),
                None => None,
            },
            _ => None,
        };
        if let Some(cid) = dest {
            if let Some(i) = self.battlefield_creatures.position(cid) {
                proof {
                    lemma_index_of(g.battlefield, cid, i as int);
                }
                if counter == CounterType::PlusOnePlusOne {
                    let mut card = self.battlefield_creatures.card_at(i).clone();
                    add_base(&mut card, amount as i32, amount as i32);
                    self.battlefield_creatures.set_at(i, card);
                }
            }
        }
    }

    /// Takes an ability away from a tracked creature (see `remove_ability_result`).
    fn remove_ability(&mut self, ability: KeywordAbility, target: TargetFilter)
        requires
            old(self).wf(),
        ensures
            final(self).wf(),
            follows(old(self)@, final(self)@),
            final(self)@ == remove_ability_result(old(self)@, ability, target),
    {
        proof {
            reveal(remove_ability_result);
        }
        let ghost g = self@;
        if let TargetFilter::ExactCardID(cid) = target {
            if let Some(i) = self.battlefield_creatures.position(cid) {
                proof {
                    lemma_index_of(g.battlefield, cid, i as int);
                }
                let mut card = self.battlefield_creatures.card_at(i).clone();
                remove_keyword(&mut card, ability);
                self.battlefield_creatures.set_at(i, card);
            }
        }
    }

    /// Grants a keyword ability (see `grant_ability_result`).
    fn grant_ability(&mut self, ability: KeywordAbility, duration: Duration, target: TargetFilter)
        requires
            old(self).wf(),
        ensures
            final(self).wf(),
            follows(old(self)@, final(self)@),
            final(self)@ == grant_ability_result(old(self)@, ability, duration, target),
    {
        proof {
            reveal(grant_ability_result);
        }
        let ghost g = self@;
        if let TargetFilter::ExactCardID(cid) = target {
            if let Some(i) = self.battlefield_creatures.position(cid) {
                proof {
                    lemma_index_of(g.battlefield, cid, i as int);
                }
                if lacks_keyword(self.battlefield_creatures.card_at(i), ability) {
                    match duration {
                        Duration::EndOfTurn => {
                            let mut card = self.battlefield_creatures.card_at(i).clone();
                            add_keyword(&mut card, ability);
                            self.battlefield_creatures.set_at(i, card);
                            let revert = Effect::RemoveAbility { ability, target: TargetFilter::ExactCardID(cid) };
                            self.schedule_delayed(revert, GamePhase::End, Vec::new());
                        },
                        Duration::Permanent => {
                            let mut card = self.battlefield_creatures.card_at(i).clone();
                            add_keyword(&mut card, ability);
                            self.battlefield_creatures.set_at(i, card);
                        },
                        _ => {},
                    }
                }
            }
        }
    }

    /// Uses the card at a position for the turn.
    fn tap_at(&mut self, i: usize)
        requires
            old(self).wf(),
            i < old(self)@.battlefield.len(),
        ensures
            final(self).wf(),
            final(self)@ == (GreV {
                battlefield: old(self)@.battlefield.update(
                    i as int,
                    (old(self)@.battlefield[i as int].0, tapped(old(self)@.battlefield[i as int].1)),
                ),
                ..old(self)@
            }),
    {
        let mut card = self.battlefield_creatures.card_at(i).clone();
        tap_card(&mut card);
        self.battlefield_creatures.set_at(i, card);
    }

    /// Taps a card (see `tap_result`).
    fn tap_target(&mut self, target: TargetFilter)
        requires
            old(self).wf(),
        ensures
            final(self).wf(),
            follows(old(self)@, final(self)@),
            final(self)@ == tap_result(old(self)@, target),
    {
        proof {
            reveal(tap_result);
        }
        let ghost g = self@;
        match target {
            TargetFilter::ExactCardID(tid) => {
                if let Some(i) = self.battlefield_creatures.position(tid) {
                    proof {
                        lemma_index_of(g.battlefield, tid, i as int);
                    }
                    self.tap_at(i);
                }
            },
            TargetFilter::SelfCard => {
                let sid = match &self.current_source_card {
                    Some(src) => Some(src.card_id),
                    None => None,
                };
                if let Some(sid) = sid {
                    if let Some(i) = self.battlefield_creatures.position(sid) {
                        proof {
                            lemma_index_of(g.battlefield, sid, i as int);
                        }
                        self.tap_at(i);
                    }
                }
            },
            TargetFilter::ControllerCreature => {
                if let Some(i) = first_of_kind(self, true) {
                    self.tap_at(i);
                }
            },
            _ => {},
        }
    }

    /// Gives every tracked creature the greatest current power among them as a bonus (see
    /// `buff_all_result`).
    fn buff_all_by_max_power(&mut self, filter: TargetFilter, duration: Duration)
        requires
            old(self).wf(),
        ensures
            final(self).wf(),
            follows(old(self)@, final(self)@),
            final(self)@ == buff_all_result(old(self)@, filter, duration),
    {
        proof {
            reveal(buff_all_result);
        }
        let ghost g = self@;
        if filter != TargetFilter::ControllerCreature {
            return;
        }
        let n = self.battlefield_creatures.len();
        let mut m: i32 = 0;
        let mut i: usize = 0;
        while i < n
            invariant
                n == g.battlefield.len(),
                self@ == g,
                i <= n,
                m == max_power_upto(g.battlefield, i as nat),
            decreases n - i,
        {
            let c = self.battlefield_creatures.card_at(i);
            if let CardType::Creature(cr) = &c.card_type {
                let pw = cr.power.wrapping_add(cr.ephemeral_power);
                if pw > m {
                    m = pw;
                }
            }
            i += 1;
        }
        let mut i: usize = 0;
        while i < n
            invariant
                n == g.battlefield.len(),
                i <= n,
                self.wf(),
                self@ == buff_all_upto(g, m, duration, i as nat),
                m == max_power_upto(g.battlefield, n as nat),
            decreases n - i,
        {
            proof {
                lemma_buff_all_frame(g, m, duration, i as nat);
                lemma_buff_all_frame(g, m, duration, (i + 1) as nat);
            }
            let cid = self.battlefield_creatures.key_at(i);
            let is_cr = matches!(self.battlefield_creatures.card_at(i).card_type, CardType::Creature(_));
            if is_cr {
                match duration {
                    Duration::EndOfTurn => {
                        let mut card = self.battlefield_creatures.card_at(i).clone();
                        add_ephemeral(&mut card, m, m);
                        self.battlefield_creatures.set_at(i, card);
                        let revert = Effect::ModifyStats {
                            power_delta: 0i32.wrapping_sub(m),
                            toughness_delta: 0i32.wrapping_sub(m),
                            duration: Duration::Permanent,
                            target: TargetFilter::ExactCardID(cid),
                        };
                        self.schedule_delayed(revert, GamePhase::End, Vec::new());
                    },
                    Duration::Permanent => {
                        let mut card = self.battlefield_creatures.card_at(i).clone();
                        add_base(&mut card, m, m);
                        self.battlefield_creatures.set_at(i, card);
                    },
                    _ => {},
                }
            }
            i += 1;
        }
        proof {
            lemma_buff_all_frame(g, m, duration, n as nat);
        }
    }

    /// Exiles a card (see `exile_result`).
    fn exile(&mut self, target: TargetFilter)
        requires
            old(self).wf(),
        ensures
            final(self).wf(),
            follows(old(self)@, final(self)@),
            final(self)@ == exile_result(old(self)@, target),
    {
        proof {
            reveal(exile_result);
        }
        let ghost g = self@;
        match target {
            TargetFilter::ExactCardID(cid) => {
                if let Some(i) = self.battlefield_creatures.position(cid) {
                    proof {
                        lemma_index_of(g.battlefield, cid, i as int);
                    }
                    if let Some(card) = self.battlefield_creatures.remove(cid) {
                        self.last_exiled_card_was_creature = matches!(card.card_type, CardType::Creature(_));
                    }
                }
            },
            TargetFilter::CardInGraveyard => {
                self.last_exiled_card_was_creature = true;
            },
            _ => {},
        }
    }

    /// Prevents or lets again a player gain life (see `prevent_life_gain_result`).
    fn prevent_life_gain(&mut self, player: PlayerSelector, duration: Duration)
        requires
            old(self).wf(),
        ensures
            final(self).wf(),
            follows(old(self)@, final(self)@),
            final(self)@ == prevent_life_gain_result(old(self)@, player, duration),
    {
        proof {
            reveal(prevent_life_gain_result);
        }
        let on = duration != Duration::Permanent;
        match player {
            PlayerSelector::Controller => {
                self.prevent_life_gain_us = on;
            },
            PlayerSelector::Opponent => {
                self.prevent_life_gain_opponent = on;
            },
            PlayerSelector::AnyPlayer => {
                return;
            },
        }
        if on {
            self.schedule_delayed(
                Effect::PreventLifeGain { player, duration: Duration::Permanent },
                GamePhase::End,
                Vec::new(),
            );
        }
    }

    /// Registers a death trigger on the target of the spell on top of the stack (see
    /// `when_target_dies_result`).
    fn when_target_dies(&mut self, effect: Effect)
        requires
            old(self).wf(),
        ensures
            final(self).wf(),
            follows(old(self)@, final(self)@),
            final(self)@ == when_target_dies_result(old(self)@, effect@),
    {
        proof {
            reveal(when_target_dies_result);
        }
        let ghost g = self@;
        if let Some(target_card) = Gre::current_stack_target(self) {
            let ghost pv = (target_card@, effect@);
            self.death_triggers_this_turn.push((target_card, effect));
            proof {
                assert(self@.death_triggers =~= g.death_triggers.push(pv));
            }
        }
    }

    /// The number an amount stands for (see `amount_value`).
    fn amount_of(&self, amount: Amount) -> (r: i32)
        ensures
            r == amount_value(self@, amount),
    {
        match amount {
            Amount::Fixed(v) => v,
            Amount::SourcePower => match &self.current_source_card {
                Some(src) => match &src.card_type {
                    CardType::Creature(cr) => cr.power.wrapping_add(cr.ephemeral_power),
                    _ => 0,
                },
                None => 0,
            },
            Amount::SourceToughness => match &self.current_source_card {
                Some(src) => match &src.card_type {
                    CardType::Creature(cr) => cr.toughness.wrapping_add(cr.ephemeral_toughness),
                    _ => 0,
                },
                None => 0,
            },
        }
    }
}


/// What the replacement effects from position `idx` on make of an effect: the first rule whose
/// effect it is replaces it by that rule's effects, each of which the later rules may replace again.
pub open spec fn replace_one(rs: Seq<ReplacementEffectV>, e: EffectV, idx: nat) -> Seq<EffectV>
    decreases rs.len() - idx, 0int,
{
    if idx >= rs.len() {
        seq![e]
    } else if rs[idx as int].from == e {
        replace_all(rs, rs[idx as int].to, idx + 1)
    } else {
        replace_one(rs, e, idx + 1)
    }
}

/// What the replacement effects from position `idx` on make of a sequence of effects, in order.
pub open spec fn replace_all(rs: Seq<ReplacementEffectV>, es: Seq<EffectV>, idx: nat) -> Seq<EffectV>
    decreases rs.len() - idx, es.len() + 1,
{
    if es.len() == 0 {
        Seq::empty()
    } else {
        replace_all(rs, es.drop_last(), idx) + replace_one(rs, es.last(), idx)
    }
}

/// An effect after the first `n` continuous effects have changed it, in order.
pub open spec fn continuous_upto(cs: Seq<ContinuousEffect>, e: EffectV, n: nat) -> EffectV
    decreases n,
{
    if n == 0 {
        e
    } else {
        continuous_apply(cs[n - 1], continuous_upto(cs, e, (n - 1) as nat))
    }
}

/// The effects that the engine executes for an effect: the replacement effects applied first,
/// then every continuous effect to each of the results.
pub open spec fn prepared(g: GreV, e: EffectV) -> Seq<EffectV> {
    replace_one(g.replacement_effects, e, 0).map_values(
        |x: EffectV| continuous_upto(g.continuous_effects, x, g.continuous_effects.len()),
    )
}

/// The value of a concatenation of effects is the concatenation of their values.
pub proof fn lemma_effects_view_add(a: Seq<Effect>, b: Seq<Effect>)
    ensures
        effects_view(a + b) == effects_view(a) + effects_view(b),
{
    lemma_effects_view(a + b);
    lemma_effects_view(a);
    lemma_effects_view(b);
    assert(effects_view(a + b) =~= effects_view(a) + effects_view(b));
}

/// An effect aimed at "a creature" aimed at the creature with identifier `id` instead; targeted
/// groups of effects are aimed through; every other effect is unchanged.
pub open spec fn retarget(e: EffectV, id: u64) -> EffectV
    decreases e, 0int,
{
    match e {
        EffectV::ModifyStats { power_delta, toughness_delta, duration, target } => EffectV::ModifyStats {
            power_delta,
            toughness_delta,
            duration,
            target: if target == TargetFilter::Creature { TargetFilter::ExactCardID(id) } else { target },
        },
        EffectV::GrantAbility { ability, duration, target } => EffectV::GrantAbility {
            ability,
            duration,
            target: if target == TargetFilter::Creature { TargetFilter::ExactCardID(id) } else { target },
        },
        EffectV::TargetedEffects { sub_effects } => EffectV::TargetedEffects { sub_effects: retarget_all(sub_effects, id) },
        other => other,
    }
}

/// Every effect of a sequence aimed as `retarget` aims it.
pub open spec fn retarget_all(s: Seq<EffectV>, id: u64) -> Seq<EffectV>
    decreases s, 1int,
{
    if s.len() == 0 {
        Seq::empty()
    } else {
        retarget_all(s.drop_last(), id).push(retarget(s.last(), id))
    }
}

/// Aiming a sequence keeps its length and aims each effect.
pub proof fn lemma_retarget_all(s: Seq<EffectV>, id: u64)
    ensures
        retarget_all(s, id).len() == s.len(),
        forall|i: int| 0 <= i < s.len() ==> #[trigger] retarget_all(s, id)[i] == retarget(s[i], id),
    decreases s.len(),
{
    if s.len() > 0 {
        lemma_retarget_all(s.drop_last(), id);
    }
}

impl Gre {
    /// What the replacement effects from position `idx` on make of an effect (see `replace_one`).
    pub fn apply_replacement(&self, effect: &Effect, idx: usize) -> (r: Vec<Effect>)
        ensures
            effects_view(r@) == replace_one(self@.replacement_effects, effect@, idx as nat),
        decreases self.replacement_effects@.len() - idx,
    {
        let ghost rs = self@.replacement_effects;
        if idx >= self.replacement_effects.len() {
            let mut one: Vec<Effect> = Vec::new();
            let c = clone_effect(effect);
            proof {
                lemma_effects_view_push(one@, c);
                assert(one@.push(c) =~= seq![c]);
                assert(effects_view(Seq::<Effect>::empty()) =~= Seq::<EffectV>::empty());
            }
            one.push(c);
            return one;
        }
        let replacer = &self.replacement_effects[idx];
        match &replacer.rule {
            ReplacementRule::Substitute { from, to } => {
                if effect_eq(effect, from) {
                    let ghost tov = effects_view(to@);
                    proof {
                        lemma_effects_view(to@);
                    }
                    let mut out: Vec<Effect> = Vec::new();
                    let mut i: usize = 0;
                    proof {
                        assert(effects_view(out@) =~= Seq::<EffectV>::empty());
                        assert(tov.take(0) =~= Seq::<EffectV>::empty());
                    }
                    while i < to.len()
                        invariant
                            idx < self.replacement_effects.len(),
                            rs == self@.replacement_effects,
                            tov == effects_view(to@),
                            tov.len() == to@.len(),
                            forall|j: int| 0 <= j < to@.len() ==> #[trigger] tov[j] == to@[j]@,
                            i <= to@.len(),
                            effects_view(out@) == replace_all(rs, tov.take(i as int), (idx + 1) as nat),
                        decreases to.len() - i,
                    {
                        let mut part = self.apply_replacement(&to[i], idx + 1);
                        let ghost before = out@;
                        proof {
                            assert(tov.take(i as int + 1).drop_last() =~= tov.take(i as int));
                            assert(tov.take(i as int + 1).last() == to@[i as int]@);
                            lemma_effects_view_add(before, part@);
                        }
                        out.append(&mut part);
                        i += 1;
                    }
                    proof {
                        assert(tov.take(i as int) =~= tov);
                    }
                    out
                } else {
                    self.apply_replacement(effect, idx + 1)
                }
            },
        }
    }

    /// The effects that the engine executes for an effect (see `prepared`).
    pub fn prepare_effects(&self, effect: &Effect) -> (r: Vec<Effect>)
        ensures
            effects_view(r@) == prepared(self@, effect@),
    {
        let replaced = self.apply_replacement(effect, 0);
        let ghost rv = effects_view(replaced@);
        let ghost cs = self@.continuous_effects;
        proof {
            lemma_effects_view(replaced@);
        }
        let mut out: Vec<Effect> = Vec::new();
        let mut i: usize = 0;
        while i < replaced.len()
            invariant
                i <= replaced@.len(),
                rv == effects_view(replaced@),
                rv.len() == replaced@.len(),
                forall|j: int| 0 <= j < replaced@.len() ==> #[trigger] rv[j] == replaced@[j]@,
                cs == self@.continuous_effects,
                out@.len() == i,
                forall|j: int| 0 <= j < i ==> #[trigger] out@[j]@ == continuous_upto(cs, rv[j], cs.len()),
            decreases replaced.len() - i,
        {
            let mut e = clone_effect(&replaced[i]);
            let mut j: usize = 0;
            while j < self.continuous_effects.len()
                invariant
                    j <= cs.len(),
                    cs == self@.continuous_effects,
                    i < rv.len(),
                    e@ == continuous_upto(cs, rv[i as int], j as nat),
                decreases self.continuous_effects.len() - j,
            {
                apply_continuous(&self.continuous_effects[j], &mut e);
                j += 1;
            }
            out.push(e);
            i += 1;
        }
        proof {
            lemma_effects_view(out@);
            assert forall|j: int| 0 <= j < out@.len() implies #[trigger] effects_view(out@)[j] == prepared(self@, effect@)[j] by {
                assert(out@[j]@ == continuous_upto(cs, rv[j], cs.len()));
            }
            assert(effects_view(out@) =~= prepared(self@, effect@));
        }
        out
    }
}

/// The effect with "a creature" replaced by the given card (see `retarget`).
pub fn replace_targeted_filter_with_exact(gre: &Gre, effect: Effect, tcard: &Card) -> (r: Effect)
    ensures
        r@ == retarget(effect@, tcard.card_id),
{
    retarget_effect(&effect, tcard.card_id)
}

/// An effect aimed at the creature with identifier `id` (see `retarget`).
fn retarget_effect(effect: &Effect, id: u64) -> (r: Effect)
    ensures
        r@ == retarget(effect@, id),
    decreases *effect,
{
    match effect {
        Effect::ModifyStats { power_delta, toughness_delta, duration, target } => {
            let new_t = if *target == TargetFilter::Creature { TargetFilter::ExactCardID(id) } else { *target };
            Effect::ModifyStats { power_delta: *power_delta, toughness_delta: *toughness_delta, duration: *duration, target: new_t }
        },
        Effect::GrantAbility { ability, duration, target } => {
            let new_t = if *target == TargetFilter::Creature { TargetFilter::ExactCardID(id) } else { *target };
            Effect::GrantAbility { ability: *ability, duration: *duration, target: new_t }
        },
        Effect::TargetedEffects { sub_effects } => {
            let ghost sv = effects_view(sub_effects@);
            proof {
                lemma_effects_view(sub_effects@);
                assert(decreases_to!(*effect => sub_effects@));
            }
            let mut out: Vec<Effect> = Vec::new();
            let mut i: usize = 0;
            while i < sub_effects.len()
                invariant
                    i <= sub_effects@.len(),
                    sv == effects_view(sub_effects@),
                    sv.len() == sub_effects@.len(),
                    forall|j: int| 0 <= j < sub_effects@.len() ==> #[trigger] sv[j] == sub_effects@[j]@,
                    out@.len() == i,
                    forall|j: int| 0 <= j < i ==> #[trigger] out@[j]@ == retarget(sv[j], id),
                    decreases_to!(*effect => sub_effects@),
                decreases sub_effects.len() - i,
            {
                proof {
                    assert(decreases_to!(sub_effects@ => sub_effects@[i as int]));
                }
                let rsub = retarget_effect(&sub_effects[i], id);
                out.push(rsub);
                i += 1;
            }
            proof {
                lemma_effects_view(out@);
                lemma_retarget_all(sv, id);
                assert forall|j: int| 0 <= j < out@.len() implies #[trigger] effects_view(out@)[j] == retarget_all(sv, id)[j] by {
                    assert(out@[j]@ == retarget(sv[j], id));
                }
                assert(effects_view(out@) =~= retarget_all(sv, id));
            }
            Effect::TargetedEffects { sub_effects: out }
        },
        other => clone_effect(other),
    }
}


/// Whether the engine carries out effects as they come: no replacement and no continuous
/// effects are in force.
pub open spec fn plain(g: GreV) -> bool {
    g.replacement_effects.len() == 0 && g.continuous_effects.len() == 0
}

/// Whether engine state `b` can follow from `a` by carrying out effects: the same replacement
/// and continuous effects, the same record of executed delayed effects, and every delayed
/// effect of `a` still queued in the same place (new ones only after them).
pub open spec fn follows(a: GreV, b: GreV) -> bool {
    &&& a.replacement_effects == b.replacement_effects
    &&& a.continuous_effects == b.continuous_effects
    &&& a.executed_delayed == b.executed_delayed
    &&& a.delayed.len() <= b.delayed.len()
    &&& forall|i: int| 0 <= i < a.delayed.len() ==> #[trigger] b.delayed[i] == a.delayed[i]
}

/// Whether a condition holds in an engine state.
pub open spec fn condition_holds(g: GreV, c: Condition) -> bool {
    match c {
        Condition::OpponentLostLifeThisTurn => g.opponent_lost_life_this_turn,
        Condition::FirstTimeThisTurn => true,
        Condition::SpellWasNonCreature => false,
        Condition::Tap => false,
        Condition::SacrificeSelf => false,
        Condition::Always => true,
        Condition::SpellWasKicked => false,
        Condition::HasCreaturePower4OrMore => exists|i: int|
            0 <= i < g.battlefield.len() && is_creature(#[trigger] g.battlefield[i].1) && power_now(g.battlefield[i].1) >= 4,
        Condition::ExiledCardWasCreature => g.last_exiled_card_was_creature,
    }
}

/// The engine after `n` counters of kind `counter` were put on the tracked creature with
/// identifier `cid`, where it is tracked and a creature (otherwise nothing changes): "+1/+1"
/// counters raise its printed statistics, then the tracked permanents answer (see
/// `counter_added_result`) and every player gets their pass back.
pub open spec fn counter_step(g: GreV, cid: u64, counter: CounterType, n: i32) -> GreV {
    if has_key(g.battlefield, cid) && is_creature(card_of(g, cid)) {
        let g1 = if counter == CounterType::PlusOnePlusOne {
            set_card(g, cid, with_base(card_of(g, cid), n, n))
        } else {
            g
        };
        GreV { passes: 0, ..counter_added_result(g1, cid, n as u32, Player::Us) }
    } else {
        g
    }
}

/// The engine after `counter_step` for each identifier of `keys`, in order.
pub open spec fn counter_steps(g: GreV, keys: Seq<u64>, counter: CounterType, n: i32) -> GreV
    decreases keys.len(),
{
    if keys.len() == 0 {
        g
    } else {
        counter_step(counter_steps(g, keys.drop_last(), counter, n), keys.last(), counter, n)
    }
}

/// The engine after `handle_effect` carried out effect `e` from `a`, following further effects
/// at most `d` deep: without replacement or continuous effects in force the effect is executed
/// (`exec_result`); otherwise the effects that the replacements and continuous effects make of
/// it are executed in order.
pub open spec fn handle_result(a: GreV, e: EffectV, d: nat) -> GreV
    decreases d, 4int, 0int,
{
    if plain(a) {
        exec_result(a, e, d)
    } else {
        exec_all_result(a, prepared(a, e), d)
    }
}

/// The engine after the effects `es` were carried out one after the other (see
/// `handle_result`).
pub open spec fn handle_all_result(a: GreV, es: Seq<EffectV>, d: nat) -> GreV
    decreases d, 5int, es.len(),
{
    if es.len() == 0 {
        a
    } else {
        handle_result(handle_all_result(a, es.drop_last(), d), es.last(), d)
    }
}

/// The engine after the effects `es` were executed one after the other (see `exec_result`).
pub open spec fn exec_all_result(a: GreV, es: Seq<EffectV>, d: nat) -> GreV
    decreases d, 3int, es.len(),
{
    if es.len() == 0 {
        a
    } else {
        exec_result(exec_all_result(a, es.drop_last(), d), es.last(), d)
    }
}

/// The engine after the tracked card with identifier `cid` was removed after lethal damage:
/// where it is tracked, it leaves the battlefield, its death triggers run (`deaths_after`) and
/// every player gets their pass back; otherwise nothing changes.
pub open spec fn killed_result(a: GreV, cid: u64, d: nat) -> GreV
    decreases d, 1int, 0int,
{
    if has_key(a.battlefield, cid) {
        GreV { passes: 0, ..deaths_after(without_card(a, cid), card_of(a, cid), d) }
    } else {
        a
    }
}

/// The engine after the death triggers registered for `died` ran from `a`: their effects are
/// carried out in order (none where `d` is zero), and then the entries found at the start are
/// taken out of the registered triggers.
pub open spec fn deaths_after(a: GreV, died: CardV, d: nat) -> GreV
    decreases d, 0int, 0int,
{
    let m = if d > 0 {
        handle_all_result(a, death_effects(a.death_triggers, died), (d - 1) as nat)
    } else {
        a
    };
    GreV { death_triggers: without_positions(m.death_triggers, death_positions(a.death_triggers, died)), ..m }
}

/// The engine after card `c` entered the battlefield from `a` (see `entered`) and its "enters
/// the battlefield" answers were carried out in order (none where `d` is zero).
pub open spec fn enter_result(a: GreV, c: CardV, d: nat) -> GreV
    decreases d, 0int, 0int,
{
    if d > 0 {
        handle_all_result(
            crate::app::gre::entered(a, c),
            card_answers(crate::app::gre::assigned(a, c), crate::app::gre::enters_trigger()),
            (d - 1) as nat,
        )
    } else {
        crate::app::gre::entered(a, c)
    }
}

/// The engine after executing effect `e` from `a`, following further effects at most `d` deep:
/// lethal damage and destruction remove the creature and make its death known
/// (`killed_result`); mana and counters make the tracked permanents answer; a conditional, a
/// targeted group or a choice carries out the effects it picks one level deeper; a token enters
/// the battlefield; every other effect settles directly (`direct_result`).
pub open spec fn exec_result(a: GreV, e: EffectV, d: nat) -> GreV
    decreases d, 2int, 0int,
{
    match e {
        EffectV::Damage { amount, target } => if damage_is_lethal(a, amount_value(a, amount), target) {
            killed_result(a, target->ExactCardID_0, d)
        } else {
            damage_result(a, target)
        },
        EffectV::DamageByTargetPower { source, target } => if power_damage(a, source) > 0 && damage_is_lethal(
            a,
            power_damage(a, source),
            target,
        ) {
            killed_result(a, target->ExactCardID_0, d)
        } else {
            a
        },
        EffectV::Destroy { target } => if destroy_settles(a, target) {
            destroy_result(a, target)
        } else {
            killed_result(a, target->ExactCardID_0, d)
        },
        EffectV::AddMana { .. } => match a.current_source_card {
            Some(src) => GreV { passes: 0, ..mana_added_result(a, src.card_id, Player::Us) },
            None => a,
        },
        EffectV::AddCounterAll { counter, amount, filter } => if amount_value(a, amount) != 0 && filter
            == TargetFilter::ControllerCreature {
            counter_steps(a, keys_of(a.battlefield), counter, amount_value(a, amount))
        } else {
            a
        },
        EffectV::Conditional { condition, effect_if_true, effect_if_false } => if d == 0 {
            a
        } else if condition_holds(a, condition) {
            handle_result(a, *effect_if_true, (d - 1) as nat)
        } else {
            match effect_if_false {
                Some(f) => handle_result(a, *f, (d - 1) as nat),
                None => a,
            }
        },
        EffectV::TargetedEffects { sub_effects } => match stack_target(a) {
            Some(t) => if d > 0 {
                handle_all_result(a, retarget_all(sub_effects, t.card_id), (d - 1) as nat)
            } else {
                a
            },
            None => a,
        },
        EffectV::ChooseSome { choose, options } => if choose == 0 || options.len() == 0 || d == 0 {
            a
        } else {
            handle_result(
                a,
                options[(if choose < options.len() { choose as int } else { options.len() as int }) - 1],
                (d - 1) as nat,
            )
        },
        EffectV::Offspring { .. } => match a.current_source_card {
            Some(src) => enter_result(
                a,
                crate::app::gre::as_new(cloned_card(src, Some(1i32), Some(1i32), Some(CardTypeFlags { bits: FLAG_TOKEN }))),
                d,
            ),
            None => a,
        },
        EffectV::CreateCreatureToken { name, power, toughness, creature_types } => crate::app::gre::entered(
            a,
            crate::app::gre::creature_token(name, power, toughness, creature_types),
        ),
        EffectV::CreateEnchantmentToken { name, power_buff, toughness_buff, ability } => match stack_target(a) {
            Some(t) => enter_result(a, crate::app::gre::aura_token(name, power_buff, toughness_buff, ability, t.card_id), d),
            None => a,
        },
        _ => direct_result(a, e),
    }
}

/// Whether `b` is what `handle_effect` makes of effect `e` from `a`, following further effects
/// as deep as the engine does (`EFFECT_DEPTH`).
pub open spec fn handles(a: GreV, e: EffectV, b: GreV) -> bool {
    b == handle_result(a, e, EFFECT_DEPTH as nat)
}

impl Gre {
    /// Carries out an effect: the replacement effects in force apply first, then the continuous
    /// effects change each result, and then each is executed in order.
    pub fn handle_effect(&mut self, effect: Effect)
        requires
            old(self).wf(),
        ensures
            final(self).wf(),
            follows(old(self)@, final(self)@),
            plain(old(self)@) && settles_directly(old(self)@, effect@) ==> final(self)@ == direct_result(
                old(self)@,
                effect@,
            ),
            handles(old(self)@, effect@, final(self)@),
    {
        self.handle_effect_in(effect, EFFECT_DEPTH)
    }

    /// `handle_effect`, following further effects at most `depth` deep.
    pub(crate) fn handle_effect_in(&mut self, effect: Effect, depth: u32)
        requires
            old(self).wf(),
        ensures
            final(self).wf(),
            follows(old(self)@, final(self)@),
            plain(old(self)@) && settles_directly(old(self)@, effect@) ==> final(self)@ == direct_result(
                old(self)@,
                effect@,
            ),
            final(self)@ == handle_result(old(self)@, effect@, depth as nat),
        decreases depth, 7int,
    {
        if self.replacement_effects.len() == 0 && self.continuous_effects.len() == 0 {
            self.execute_in(effect, depth);
            return;
        }
        let final_effects = self.prepare_effects(&effect);
        let ghost g0 = self@;
        let ghost es = effects_view(final_effects@);
        proof {
            lemma_effects_view(final_effects@);
            assert(es.take(0) =~= Seq::<EffectV>::empty());
        }
        let mut k: usize = 0;
        while k < final_effects.len()
            invariant
                self.wf(),
                follows(g0, self@),
                !plain(g0),
                k <= final_effects@.len(),
                es == effects_view(final_effects@),
                es.len() == final_effects@.len(),
                forall|j: int| 0 <= j < final_effects@.len() ==> #[trigger] es[j] == final_effects@[j]@,
                self@ == exec_all_result(g0, es.take(k as int), depth as nat),
            decreases final_effects.len() - k,
        {
            let e = clone_effect(&final_effects[k]);
            let ghost m = self@;
            self.execute_in(e, depth);
            proof {
                assert(es.take(k as int + 1).drop_last() =~= es.take(k as int));
            }
            k += 1;
        }
        proof {
            assert(es.take(k as int) =~= es);
        }
    }

    /// Executes one effect, as it is (no replacement and no continuous effect applies).
    pub fn execute(&mut self, effect: Effect)
        requires
            old(self).wf(),
        ensures
            final(self).wf(),
            follows(old(self)@, final(self)@),
            settles_directly(old(self)@, effect@) ==> final(self)@ == direct_result(old(self)@, effect@),
            final(self)@ == exec_result(old(self)@, effect@, EFFECT_DEPTH as nat),
    {
        self.execute_in(effect, EFFECT_DEPTH)
    }

    /// `execute`, following further effects at most `depth` deep.
    pub(crate) fn execute_in(&mut self, effect: Effect, depth: u32)
        requires
            old(self).wf(),
        ensures
            final(self).wf(),
            follows(old(self)@, final(self)@),
            settles_directly(old(self)@, effect@) ==> final(self)@ == direct_result(old(self)@, effect@),
            final(self)@ == exec_result(old(self)@, effect@, depth as nat),
        decreases depth, 6int,
    {
        let ghost g = self@;
        match &effect {
            Effect::ModifyStats { .. } | Effect::AddCounter { .. } | Effect::RemoveAbility { .. } | Effect::TapTarget { .. }
            | Effect::GrantAbility { .. } => {
                self.run_card_changes(effect);
            },
            Effect::BuffAllByMaxPower { .. } | Effect::Exile { .. } | Effect::PreventLifeGain { .. } | Effect::WhenTargetDiesThisTurn { .. } => {
                self.run_board_changes(effect);
            },
            Effect::Damage { .. } | Effect::DamageByTargetPower { .. } | Effect::Destroy { .. } => {
                self.run_harm(effect, depth);
            },
            Effect::AddMana { .. } | Effect::AddCounterAll { .. } => {
                self.run_resources(effect, depth);
            },
            Effect::Conditional { .. } | Effect::TargetedEffects { .. } | Effect::ChooseSome { .. } => {
                self.run_compound(effect, depth);
            },
            Effect::Offspring { .. } | Effect::CreateCreatureToken { .. } | Effect::CreateEnchantmentToken { .. } => {
                self.run_creation(effect, depth);
            },
            Effect::DrawCards { .. } | Effect::GainLife { .. } | Effect::Proliferate { .. }
            | Effect::ExileTop { .. } | Effect::ExileThenPlayFromExile { .. } | Effect::Delayed { .. }
            | Effect::DrawCardsCounted => {
                proof {
                    lemma_direct_noop(g, effect@);
                }
            },
        }
    }

    /// Changes one tracked card.
    fn run_card_changes(&mut self, effect: Effect)
        requires
            old(self).wf(),
            effect is ModifyStats || effect is AddCounter || effect is RemoveAbility || effect is TapTarget
                || effect is GrantAbility,
        ensures
            final(self).wf(),
            follows(old(self)@, final(self)@),
            settles_directly(old(self)@, effect@),
            settles_directly(old(self)@, effect@) ==> final(self)@ == direct_result(old(self)@, effect@),
    {
        let ghost g = self@;
        match effect {
            Effect::ModifyStats { power_delta, toughness_delta, duration, target } => {
                proof {
                    lemma_direct_modify_stats(g, power_delta, toughness_delta, duration, target);
                }
                self.modify_stats(power_delta, toughness_delta, duration, target);
            },
            Effect::AddCounter { counter, amount, target } => {
                proof {
                    lemma_direct_add_counter(g, counter, amount, target);
                }
                self.add_counter(counter, amount, target);
            },
            Effect::RemoveAbility { ability, target } => {
                proof {
                    lemma_direct_remove_ability(g, ability, target);
                }
                self.remove_ability(ability, target);
            },
            Effect::TapTarget { target } => {
                proof {
                    lemma_direct_tap(g, target);
                }
                self.tap_target(target);
            },
            Effect::GrantAbility { ability, duration, target } => {
                proof {
                    lemma_direct_grant_ability(g, ability, duration, target);
                }
                self.grant_ability(ability, duration, target);
            },
            _ => {},
        }
    }

    /// Changes the board or the engine's flags.
    fn run_board_changes(&mut self, effect: Effect)
        requires
            old(self).wf(),
            effect is BuffAllByMaxPower || effect is Exile || effect is PreventLifeGain || effect is WhenTargetDiesThisTurn,
        ensures
            final(self).wf(),
            follows(old(self)@, final(self)@),
            settles_directly(old(self)@, effect@),
            settles_directly(old(self)@, effect@) ==> final(self)@ == direct_result(old(self)@, effect@),
    {
        let ghost g = self@;
        match effect {
            Effect::BuffAllByMaxPower { filter, duration } => {
                proof {
                    lemma_direct_buff_all(g, filter, duration);
                }
                self.buff_all_by_max_power(filter, duration);
            },
            Effect::Exile { target } => {
                proof {
                    lemma_direct_exile(g, target);
                }
                self.exile(target);
            },
            Effect::PreventLifeGain { player, duration } => {
                proof {
                    lemma_direct_prevent_life_gain(g, player, duration);
                }
                self.prevent_life_gain(player, duration);
            },
            Effect::WhenTargetDiesThisTurn { effect } => {
                proof {
                    lemma_direct_when_target_dies(g, (*effect)@);
                }
                self.when_target_dies(*effect);
            },
            _ => {},
        }
    }

    /// Deals damage or destroys.
    #[verifier::spinoff_prover]
    #[verifier::rlimit(90)]
    fn run_harm(&mut self, effect: Effect, depth: u32)
        requires
            old(self).wf(),
            effect is Damage || effect is DamageByTargetPower || effect is Destroy,
        ensures
            final(self).wf(),
            follows(old(self)@, final(self)@),
            settles_directly(old(self)@, effect@) ==> final(self)@ == direct_result(old(self)@, effect@),
            final(self)@ == exec_result(old(self)@, effect@, depth as nat),
        decreases depth, 5int,
    {
        let ghost g = self@;
        match effect {
            Effect::Damage { amount, target } => {
                proof {
                    lemma_direct_damage(g, amount, target);
                }
                self.damage_in(amount, target, depth);
            },
            Effect::DamageByTargetPower { source, target } => {
                proof {
                    lemma_direct_damage_by_power(g, source, target);
                }
                self.damage_by_power_in(source, target, depth);
            },
            Effect::Destroy { target } => {
                proof {
                    lemma_direct_destroy(g, target);
                }
                self.destroy_in(target, depth);
            },
            _ => {},
        }
    }

    /// Adds mana, or counters for everyone.
    fn run_resources(&mut self, effect: Effect, depth: u32)
        requires
            old(self).wf(),
            effect is AddMana || effect is AddCounterAll,
        ensures
            final(self).wf(),
            follows(old(self)@, final(self)@),
            settles_directly(old(self)@, effect@) ==> final(self)@ == direct_result(old(self)@, effect@),
            final(self)@ == exec_result(old(self)@, effect@, depth as nat),
        decreases depth, 5int,
    {
        let ghost g = self@;
        match effect {
            Effect::AddMana { colorless, red, blue, green, black, white } => {
                proof {
                    lemma_direct_add_mana(g, EffectV::AddMana { colorless, red, blue, green, black, white });
                }
                self.add_mana_in(depth);
            },
            Effect::AddCounterAll { counter, amount, filter } => {
                proof {
                    lemma_direct_add_counter_all(g, counter, amount, filter);
                }
                self.add_counter_all_in(counter, amount, filter, depth);
            },
            _ => {},
        }
    }

    /// Carries out an effect made of other effects.
    fn run_compound(&mut self, effect: Effect, depth: u32)
        requires
            old(self).wf(),
            effect is Conditional || effect is TargetedEffects || effect is ChooseSome,
        ensures
            final(self).wf(),
            follows(old(self)@, final(self)@),
            settles_directly(old(self)@, effect@) ==> final(self)@ == direct_result(old(self)@, effect@),
            final(self)@ == exec_result(old(self)@, effect@, depth as nat),
        decreases depth, 5int,
    {
        let ghost g = self@;
        match effect {
            Effect::Conditional { condition, effect_if_true, effect_if_false } => {
                proof {
                    lemma_not_direct(g, effect@);
                }
                self.conditional_in(condition, *effect_if_true, effect_if_false, depth);
            },
            Effect::TargetedEffects { sub_effects } => {
                proof {
                    lemma_not_direct(g, effect@);
                }
                proof {
                    lemma_effects_view(sub_effects@);
                }
                self.targeted_effects_in(sub_effects, depth);
            },
            Effect::ChooseSome { choose, options } => {
                proof {
                    lemma_not_direct(g, effect@);
                }
                proof {
                    lemma_effects_view(options@);
                }
                self.choose_some_in(choose, options, depth);
            },
            _ => {},
        }
    }

    /// Puts a new permanent onto the battlefield.
    fn run_creation(&mut self, effect: Effect, depth: u32)
        requires
            old(self).wf(),
            effect is Offspring || effect is CreateCreatureToken || effect is CreateEnchantmentToken,
        ensures
            final(self).wf(),
            follows(old(self)@, final(self)@),
            settles_directly(old(self)@, effect@) ==> final(self)@ == direct_result(old(self)@, effect@),
            final(self)@ == exec_result(old(self)@, effect@, depth as nat),
        decreases depth, 5int,
    {
        let ghost g = self@;
        match effect {
            Effect::Offspring { .. } => {
                proof {
                    lemma_not_direct(g, effect@);
                }
                self.offspring_in(depth);
            },
            Effect::CreateCreatureToken { name, power, toughness, creature_types } => {
                proof {
                    lemma_not_direct(g, effect@);
                }
                self.create_creature_token_in(name.as_str(), power, toughness, creature_types, depth);
            },
            Effect::CreateEnchantmentToken { name, power_buff, toughness_buff, ability } => {
                proof {
                    lemma_not_direct(g, effect@);
                }
                self.create_enchantment_token_in(name, power_buff, toughness_buff, ability, depth);
            },
            _ => {},
        }
    }

    /// Adds mana: the source card's "when mana is added" triggers fire.
    fn add_mana_in(&mut self, depth: u32)
        requires
            old(self).wf(),
        ensures
            final(self).wf(),
            follows(old(self)@, final(self)@),
            old(self)@.current_source_card is None ==> final(self)@ == old(self)@,
            old(self)@.current_source_card matches Some(src) ==> final(self)@ == (GreV {
                passes: 0,
                ..mana_added_result(old(self)@, src.card_id, Player::Us)
            }),
        decreases depth, 4int,
    {
        let sid = match &self.current_source_card {
            Some(src) => Some(src.card_id),
            None => None,
        };
        if let Some(id) = sid {
            let mut none: Vec<Card> = Vec::new();
            self.trigger_event_in(GameEvent::ManaAdded(id), &mut none, Player::Us, depth);
        }
    }

    /// Removes a creature that took lethal damage and lets its death be known.
    fn kill_in(&mut self, cid: u64, depth: u32)
        requires
            old(self).wf(),
        ensures
            final(self).wf(),
            follows(old(self)@, final(self)@),
            final(self)@ == killed_result(old(self)@, cid, depth as nat),
        decreases depth, 3int,
    {
        let ghost g = self@;
        proof {
        }
        if let Some(dead) = self.battlefield_creatures.remove(cid) {
            proof {
                let i = choose|i: int|
                    0 <= i < g.battlefield.len() && g.battlefield[i].0 == cid && g.battlefield[i].1 == dead@
                        && self@.battlefield == g.battlefield.remove(i);
                lemma_index_of(g.battlefield, cid, i);
                assert(self@ == without_card(g, cid));
            }
            let mut none: Vec<Card> = Vec::new();
            let ghost g1 = self@;
            self.trigger_event_in(GameEvent::CreatureDied(dead), &mut none, Player::Us, depth);
            proof {
                assert(cards_view(Seq::<Card>::empty()) =~= Seq::<CardV>::empty());
                assert(batch_of(Seq::<CardV>::empty(), Trigger::OnDeath { filter: TargetFilter::SelfCard }) =~= Seq::empty());
                assert(self@ == (GreV { passes: 0, ..deaths_after(g1, dead@, depth as nat) }));
            }
        }
    }

    /// Deals damage (see `damage_is_lethal` and `damage_result`).
    fn damage_in(&mut self, amount: Amount, target: TargetFilter, depth: u32)
        requires
            old(self).wf(),
        ensures
            final(self).wf(),
            follows(old(self)@, final(self)@),
            !damage_is_lethal(old(self)@, amount_value(old(self)@, amount), target) ==> final(self)@ == damage_result(
                old(self)@,
                target,
            ),
            damage_is_lethal(old(self)@, amount_value(old(self)@, amount), target) ==> final(self)@ == killed_result(
                old(self)@,
                target->ExactCardID_0,
                depth as nat,
            ),
        decreases depth, 4int,
    {
        let ghost g = self@;
        let v = self.amount_of(amount);
        match target {
            TargetFilter::ExactCardID(cid) => {
                if let Some(i) = self.battlefield_creatures.position(cid) {
                    proof {
                        lemma_index_of(g.battlefield, cid, i as int);
                    }
                    let lethal = match &self.battlefield_creatures.card_at(i).card_type {
                        CardType::Creature(cr) => v >= cr.toughness.wrapping_add(cr.ephemeral_toughness),
                        _ => false,
                    };
                    if lethal {
                        self.kill_in(cid, depth);
                    }
                }
            },
            TargetFilter::Player => {
                self.opponent_lost_life_this_turn = true;
            },
            _ => {},
        }
    }

    /// The current power of the tracked card with identifier `src_id`, if it is tracked.
    fn power_of_key(&self, src_id: u64) -> (r: i32)
        requires
            self.wf(),
        ensures
            r == (if has_key(self@.battlefield, src_id) { power_now(card_of(self@, src_id)) } else { 0 }),
    {
        let ghost g = self@;
        match self.battlefield_creatures.position(src_id) {
            Some(i) => {
                proof {
                    lemma_index_of(g.battlefield, src_id, i as int);
                }
                match &self.battlefield_creatures.card_at(i).card_type {
                    CardType::Creature(cr) => cr.power.wrapping_add(cr.ephemeral_power),
                    _ => 0,
                }
            },
            None => 0,
        }
    }

    /// The current power of the first tracked creature, if there is one.
    #[verifier::spinoff_prover]
    fn first_creature_power(&self) -> (r: Option<i32>)
        ensures
            match r {
                Some(p) => some_where(self@.battlefield, creature_test()) && p == power_now(
                    self@.battlefield[first_where(self@.battlefield, creature_test())].1,
                ),
                None => !some_where(self@.battlefield, creature_test()),
            },
    {
        match first_of_kind(self, true) {
            Some(i) => match &self.battlefield_creatures.card_at(i).card_type {
                CardType::Creature(cr) => Some(cr.power.wrapping_add(cr.ephemeral_power)),
                _ => Some(0),
            },
            None => None,
        }
    }

    /// The damage of "deals damage equal to a creature's power" (see `power_damage`).
    fn power_damage_of(&self, source: TargetFilter) -> (r: i32)
        requires
            self.wf(),
        ensures
            r == power_damage(self@, source),
    {
        let from_source = match source {
            TargetFilter::ExactCardID(src_id) => self.power_of_key(src_id),
            _ => 0,
        };
        if from_source == 0 {
            match self.first_creature_power() {
                Some(p) => p,
                None => 0,
            }
        } else {
            from_source
        }
    }

    /// Deals damage equal to a creature's power (see `power_damage`).
    #[verifier::spinoff_prover]
    #[verifier::rlimit(40)]
    fn damage_by_power_in(&mut self, source: TargetFilter, target: TargetFilter, depth: u32)
        requires
            old(self).wf(),
        ensures
            final(self).wf(),
            follows(old(self)@, final(self)@),
            power_damage(old(self)@, source) <= 0 || !damage_is_lethal(old(self)@, power_damage(old(self)@, source), target)
                ==> final(self)@ == old(self)@,
            power_damage(old(self)@, source) > 0 && damage_is_lethal(old(self)@, power_damage(old(self)@, source), target)
                ==> final(self)@ == killed_result(old(self)@, target->ExactCardID_0, depth as nat),
        decreases depth, 4int,
    {
        let ghost g = self@;
        let dmg = self.power_damage_of(source);
        if dmg > 0 {
            if let TargetFilter::ExactCardID(tid) = target {
                if let Some(i) = self.battlefield_creatures.position(tid) {
                    proof {
                        lemma_index_of(g.battlefield, tid, i as int);
                    }
                    let lethal = match &self.battlefield_creatures.card_at(i).card_type {
                        CardType::Creature(cr) => dmg >= cr.toughness.wrapping_add(cr.ephemeral_toughness),
                        _ => false,
                    };
                    if lethal {
                        self.kill_in(tid, depth);
                    }
                }
            }
        }
    }

    /// Puts counters on every tracked creature; each one's "counter added" triggers fire.
    fn add_counter_all_in(&mut self, counter: CounterType, amount: Amount, filter: TargetFilter, depth: u32)
        requires
            old(self).wf(),
        ensures
            final(self).wf(),
            follows(old(self)@, final(self)@),
            amount_value(old(self)@, amount) == 0 || filter != TargetFilter::ControllerCreature ==> final(self)@ == old(
                self,
            )@,
            amount_value(old(self)@, amount) != 0 && filter == TargetFilter::ControllerCreature ==> final(self)@
                == counter_steps(old(self)@, keys_of(old(self)@.battlefield), counter, amount_value(old(self)@, amount)),
        decreases depth, 4int,
    {
        let count_value = self.amount_of(amount);
        if count_value == 0 {
            return;
        }
        if filter != TargetFilter::ControllerCreature {
            return;
        }
        let keys = self.battlefield_creatures.keys();
        let ghost g0 = self@;
        proof {
            assert(keys@.take(0) =~= Seq::<u64>::empty());
        }
        let mut k: usize = 0;
        while k < keys.len()
            invariant
                self.wf(),
                follows(g0, self@),
                k <= keys@.len(),
                keys@ == keys_of(g0.battlefield),
                self@ == counter_steps(g0, keys@.take(k as int), counter, count_value),
            decreases keys.len() - k,
        {
            let cid = keys[k];
            let ghost gk = self@;
            proof {
                assert(keys@.take(k as int + 1).drop_last() =~= keys@.take(k as int));
                assert(keys@.take(k as int + 1).last() == cid);
            }
            if let Some(i) = self.battlefield_creatures.position(cid) {
                proof {
                    lemma_index_of(gk.battlefield, cid, i as int);
                }
                if matches!(self.battlefield_creatures.card_at(i).card_type, CardType::Creature(_)) {
                    if counter == CounterType::PlusOnePlusOne {
                        let mut card = self.battlefield_creatures.card_at(i).clone();
                        add_base(&mut card, count_value, count_value);
                        self.battlefield_creatures.set_at(i, card);
                        proof {
                            assert(self@ == set_card(gk, cid, with_base(card_of(gk, cid), count_value, count_value)));
                        }
                    }
                    let mut none: Vec<Card> = Vec::new();
                    self.trigger_event_in(GameEvent::CounterAdded(cid, count_value as u32), &mut none, Player::Us, depth);
                    proof {
                        assert(cards_view(Seq::<Card>::empty()) =~= Seq::<CardV>::empty());
                    }
                }
            }
            k += 1;
        }
        proof {
            assert(keys@.take(k as int) =~= keys@);
        }
    }

    /// Destroys a card (see `destroy_result`); a destroyed creature's death is made known.
    #[verifier::rlimit(60)]
    #[verifier::spinoff_prover]
    fn destroy_in(&mut self, target: TargetFilter, depth: u32)
        requires
            old(self).wf(),
        ensures
            final(self).wf(),
            follows(old(self)@, final(self)@),
            destroy_settles(old(self)@, target) ==> final(self)@ == destroy_result(old(self)@, target),
            !destroy_settles(old(self)@, target) ==> final(self)@ == killed_result(old(self)@, target->ExactCardID_0, depth as nat),
        decreases depth, 4int,
    {
        proof {
            reveal(destroy_result);
            reveal(destroy_settles);
        }
        let ghost g = self@;
        match target {
            TargetFilter::ExactCardID(cid) => {
                if let Some(i) = self.battlefield_creatures.position(cid) {
                    proof {
                        lemma_index_of(g.battlefield, cid, i as int);
                    }
                }
                if let Some(card) = self.battlefield_creatures.remove(cid) {
                    proof {
                        let i = choose|i: int|
                            0 <= i < g.battlefield.len() && g.battlefield[i].0 == cid && g.battlefield[i].1 == card@
                                && self@.battlefield == g.battlefield.remove(i);
                        lemma_index_of(g.battlefield, cid, i);
                        assert(self@ == without_card(g, cid));
                    }
                    if matches!(card.card_type, CardType::Creature(_)) {
                        let mut none: Vec<Card> = Vec::new();
                        let ghost g1 = self@;
                        let ghost dv = card@;
                        self.trigger_event_in(GameEvent::CreatureDied(card), &mut none, Player::Us, depth);
                        proof {
                            assert(cards_view(Seq::<Card>::empty()) =~= Seq::<CardV>::empty());
                            assert(batch_of(Seq::<CardV>::empty(), Trigger::OnDeath { filter: TargetFilter::SelfCard }) =~= Seq::empty());
                            assert(self@ == (GreV { passes: 0, ..deaths_after(g1, dv, depth as nat) }));
                        }
                    }
                }
            },
            TargetFilter::Artifact => {
                if let Some(i) = first_of_kind(self, false) {
                    let aid = self.battlefield_creatures.key_at(i);
                    proof {
                        lemma_index_of(g.battlefield, aid, i as int);
                    }
                    self.battlefield_creatures.remove(aid);
                }
            },
            _ => {},
        }
    }

    /// Carries out the effect for the condition's truth, if there is one.
    fn conditional_in(&mut self, condition: Condition, if_true: Effect, if_false: Option<Box<Effect>>, depth: u32)
        requires
            old(self).wf(),
        ensures
            final(self).wf(),
            follows(old(self)@, final(self)@),
            depth == 0 ==> final(self)@ == old(self)@,
            depth > 0 && condition_holds(old(self)@, condition) ==> final(self)@ == handle_result(old(self)@, if_true@, (depth - 1) as nat),
            depth > 0 && !condition_holds(old(self)@, condition) ==> match if_false {
                Some(f) => final(self)@ == handle_result(old(self)@, (*f)@, (depth - 1) as nat),
                None => final(self)@ == old(self)@,
            },
        decreases depth, 4int,
    {
        let cond_met = match condition {
            Condition::OpponentLostLifeThisTurn => self.opponent_lost_life_this_turn,
            Condition::FirstTimeThisTurn => true,
            Condition::SpellWasNonCreature => false,
            Condition::Tap => false,
            Condition::SacrificeSelf => false,
            Condition::Always => true,
            Condition::SpellWasKicked => false,
            Condition::HasCreaturePower4OrMore => self.some_creature_with_power(4),
            Condition::ExiledCardWasCreature => self.last_exiled_card_was_creature,
        };
        if depth == 0 {
            return;
        }
        if cond_met {
            self.handle_effect_in(if_true, depth - 1);
        } else if let Some(f) = if_false {
            self.handle_effect_in(*f, depth - 1);
        }
    }

    /// Whether some tracked creature has at least `p` current power.
    fn some_creature_with_power(&self, p: i32) -> (r: bool)
        ensures
            r == exists|i: int|
                0 <= i < self@.battlefield.len() && is_creature(#[trigger] self@.battlefield[i].1) && power_now(
                    self@.battlefield[i].1,
                ) >= p,
    {
        let ghost s = self@.battlefield;
        let n = self.battlefield_creatures.len();
        let mut i: usize = 0;
        while i < n
            invariant
                n == s.len(),
                s == self@.battlefield,
                i <= n,
                forall|j: int| 0 <= j < i ==> !(is_creature(#[trigger] s[j].1) && power_now(s[j].1) >= p),
            decreases n - i,
        {
            if let CardType::Creature(cr) = &self.battlefield_creatures.card_at(i).card_type {
                if cr.power.wrapping_add(cr.ephemeral_power) >= p {
                    return true;
                }
            }
            i += 1;
        }
        false
    }

    /// Carries out each effect of a group aimed at the target of the spell on top of the stack.
    fn targeted_effects_in(&mut self, sub_effects: Vec<Effect>, depth: u32)
        requires
            old(self).wf(),
        ensures
            final(self).wf(),
            follows(old(self)@, final(self)@),
            depth == 0 || stack_target(old(self)@) is None ==> final(self)@ == old(self)@,
            depth > 0 ==> match stack_target(old(self)@) {
                Some(t) => final(self)@ == handle_all_result(old(self)@, retarget_all(effects_view(sub_effects@), t.card_id), (depth - 1) as nat),
                None => true,
            },
        decreases depth, 4int,
    {
        if depth == 0 {
            return;
        }
        if let Some(target_card) = Gre::current_stack_target(self) {
            let ghost g0 = self@;
            let ghost es = retarget_all(effects_view(sub_effects@), target_card.card_id);
            proof {
                lemma_effects_view(sub_effects@);
                lemma_retarget_all(effects_view(sub_effects@), target_card.card_id);
                assert(es.take(0) =~= Seq::<EffectV>::empty());
            }
            let mut i: usize = 0;
            while i < sub_effects.len()
                invariant
                    self.wf(),
                    follows(g0, self@),
                    depth > 0,
                    i <= sub_effects@.len(),
                    es.len() == sub_effects@.len(),
                    forall|j: int| 0 <= j < sub_effects@.len() ==> #[trigger] es[j] == retarget(sub_effects@[j]@, target_card.card_id),
                    self@ == handle_all_result(g0, es.take(i as int), (depth - 1) as nat),
                decreases sub_effects.len() - i,
            {
                let sub = clone_effect(&sub_effects[i]);
                let replaced = replace_targeted_filter_with_exact(self, sub, &target_card);
                let ghost m = self@;
                self.handle_effect_in(replaced, depth - 1);
                proof {
                    assert(es.take(i as int + 1).drop_last() =~= es.take(i as int));
                }
                i += 1;
            }
            proof {
                assert(es.take(i as int) =~= es);
            }
        }
    }

    /// Puts a 1/1 token copy of the source card onto the battlefield.
    fn offspring_in(&mut self, depth: u32)
        requires
            old(self).wf(),
        ensures
            final(self).wf(),
            follows(old(self)@, final(self)@),
            old(self)@.current_source_card is None ==> final(self)@ == old(self)@,
            old(self)@.current_source_card matches Some(src) ==> crate::app::gre::entered_then(
                old(self)@,
                crate::app::gre::as_new(cloned_card(src, Some(1i32), Some(1i32), Some(CardTypeFlags { bits: FLAG_TOKEN }))),
                depth,
                final(self)@,
            ),
        decreases depth, 4int,
    {
        let cloned = match &self.current_source_card {
            Some(src) => Some(Card::clone_card(src, Some(1), Some(1), Some(CardTypeFlags::token()))),
            None => None,
        };
        if let Some(c) = cloned {
            self.create_clone_card_in(c, depth);
        }
    }

    /// Carries out the chosen option: the option at position `choose` (the last one where there
    /// are fewer); nothing where nothing is chosen.
    fn choose_some_in(&mut self, choose: usize, options: Vec<Effect>, depth: u32)
        requires
            old(self).wf(),
        ensures
            final(self).wf(),
            follows(old(self)@, final(self)@),
            choose == 0 || options@.len() == 0 || depth == 0 ==> final(self)@ == old(self)@,
            choose > 0 && options@.len() > 0 && depth > 0 ==> final(self)@ == handle_result(
                old(self)@,
                options@[(if choose < options@.len() { choose as int } else { options@.len() as int }) - 1]@,
                (depth - 1) as nat,
            ),
        decreases depth, 4int,
    {
        if choose == 0 || options.len() == 0 || depth == 0 {
            return;
        }
        let idx = if choose < options.len() { choose } else { options.len() };
        let chosen = clone_effect(&options[idx - 1]);
        self.handle_effect_in(chosen, depth - 1);
    }
}

} // verus!
