use vstd::prelude::*;

use std::collections::HashMap;

use crate::app::bot::{texts_view, Bot};
use crate::app::card_attribute::{clone_effect, effects_view, lemma_effects_view, Effect, EffectV, TargetFilter, Trigger};
use crate::app::card_library::{
    card_after, card_answers, card_named, has_name, kept_where, lemma_name_index, name_index, CardLibrary, CardType, CardTypeV,
    CardV, Creature, CreatureV,
};
use crate::app::combat_engine::{
    combat_end, combat_fits, combat_inputs_valid, combatants, groups_of, lemma_no_attackers, lifelink_upto, CombatEngine,
};
use crate::app::game_state::GamePhase;
use crate::app::game_state_updater::GameStateUpdater;
use crate::app::gre::effect_resolution::{follows, handle_all_result};
use crate::app::gre::{GreV, EFFECT_DEPTH};
use crate::app::state::second_main_phase_state::SecondMainPhaseState;
use crate::app::state::{AppState, State};

verus! {

broadcast use vstd::std_specs::hash::group_hash_axioms;

/// Combat damage: the attackers' damage triggers fire, the combat is resolved, and its outcome
/// is applied to both battlefields and both life totals.
pub struct CombatDamageState;

/// The trigger of a creature dealing combat damage.
pub open spec fn combat_damage_trigger() -> Trigger {
    Trigger::OnCombatDamage { filter: TargetFilter::SelfCard }
}

/// A battlefield after the combat-damage trigger of each named attacker, in order; names not on
/// the battlefield are passed over.
pub open spec fn combat_triggered(s: Seq<(Seq<char>, CardV)>, names: Seq<Seq<char>>) -> Seq<(Seq<char>, CardV)>
    decreases names.len(),
{
    if names.len() == 0 {
        s
    } else {
        let b = combat_triggered(s, names.drop_last());
        let n = names.last();
        if has_name(b, n) {
            b.update(name_index(b, n), (n, card_after(card_named(b, n), combat_damage_trigger())))
        } else {
            b
        }
    }
}

/// The engine after the combat-damage triggers of the named attackers fired, in order, from
/// engine `g` and battlefield `s`: each attacker on the battlefield answers (see `card_answers`)
/// and its answers are carried out one after the other, as `handle_effect` carries them out.
pub open spec fn combat_trigger_gre(g: GreV, s: Seq<(Seq<char>, CardV)>, names: Seq<Seq<char>>) -> GreV
    decreases names.len(),
{
    if names.len() == 0 {
        g
    } else {
        let g1 = combat_trigger_gre(g, s, names.drop_last());
        let b = combat_triggered(s, names.drop_last());
        let n = names.last();
        if has_name(b, n) {
            handle_all_result(g1, card_answers(card_named(b, n), combat_damage_trigger()), EFFECT_DEPTH as nat)
        } else {
            g1
        }
    }
}

/// The creatures of a battlefield, in order.
pub open spec fn creatures_in(s: Seq<(Seq<char>, CardV)>) -> Seq<CreatureV>
    decreases s.len(),
{
    if s.len() == 0 {
        Seq::empty()
    } else {
        let r = creatures_in(s.drop_last());
        match s.last().1.card_type {
            CardTypeV::Creature(cr) => r.push(cr),
            _ => r,
        }
    }
}

/// Battlefields with the same card kinds at the same places hold the same creatures.
proof fn lemma_creatures_same_kinds(s: Seq<(Seq<char>, CardV)>, t: Seq<(Seq<char>, CardV)>)
    requires
        s.len() == t.len(),
        forall|i: int| 0 <= i < s.len() ==> (#[trigger] s[i]).1.card_type == t[i].1.card_type,
    ensures
        creatures_in(s) == creatures_in(t),
    decreases s.len(),
{
    if s.len() > 0 {
        lemma_creatures_same_kinds(s.drop_last(), t.drop_last());
    }
}

/// The combat-damage triggers keep every name and card kind in place.
proof fn lemma_triggered_keeps(s: Seq<(Seq<char>, CardV)>, names: Seq<Seq<char>>)
    ensures
        combat_triggered(s, names).len() == s.len(),
        forall|i: int| 0 <= i < s.len() ==> (#[trigger] combat_triggered(s, names)[i]).0 == s[i].0
            && combat_triggered(s, names)[i].1.card_type == s[i].1.card_type,
    decreases names.len(),
{
    if names.len() > 0 {
        lemma_triggered_keeps(s, names.drop_last());
        let b = combat_triggered(s, names.drop_last());
        let n = names.last();
        if has_name(b, n) {
            let k = name_index(b, n);
            assert(0 <= k < b.len() && b[k].0 == n);
        }
    }
}

/// The combatants of a bot's combat: our creatures, then the opponent's.
pub open spec fn combat_creatures(bot: Bot) -> Seq<CreatureV> {
    creatures_in(bot.battlefield_creatures.view()) + creatures_in(bot.battlefield_opponent_creatures.view())
}

/// The combat groups of a bot's combat.
pub open spec fn combat_groups(bot: Bot) -> Seq<(int, Seq<int>)> {
    groups_of(bot.combat_attackers@, bot.combat_blocks@, creatures_in(bot.battlefield_creatures.view()).len() as int)
}

/// Whether the combat can be resolved: the declared attackers and blockers name creatures,
/// no value computed during the combat leaves `i32`, and the life gained from lifelink fits.
pub open spec fn combat_can_resolve(bot: Bot) -> bool {
    let cs = combat_creatures(bot);
    let gain = lifelink_upto(cs, combat_end(cs, combat_groups(bot)).dealt, cs.len()).0;
    &&& combat_inputs_valid(
        bot.combat_attackers@,
        creatures_in(bot.battlefield_creatures.view()).len() as int,
        creatures_in(bot.battlefield_opponent_creatures.view()).len() as int,
        bot.combat_blocks@,
    )
    &&& combat_fits(cs, combat_groups(bot))
    &&& (gain > 0 ==> bot.updater.state.life_total + gain <= i32::MAX)
}

/// With no attackers declared, the combat can always be resolved (as far as the two sides'
/// creature counts fit in `usize` together).
pub proof fn lemma_unattacked_combat_resolves(bot: Bot)
    requires
        bot.combat_attackers@.len() == 0,
        creatures_in(bot.battlefield_creatures.view()).len() + creatures_in(bot.battlefield_opponent_creatures.view()).len()
            <= usize::MAX,
    ensures
        combat_can_resolve(bot),
{
    let cs = combat_creatures(bot);
    assert(combat_groups(bot) =~= Seq::<(int, Seq<int>)>::empty());
    lemma_no_attackers(cs);
    assert(combat_end(cs, combat_groups(bot)).dmg =~= Seq::new(cs.len(), |i: int| 0int));
    assert(combat_end(cs, combat_groups(bot)).dealt =~= Seq::new(cs.len(), |i: int| 0int));
}

/// The survival flags of the first `n` combatants from `offset` on.
pub open spec fn survival(bot: Bot, offset: int, n: nat) -> Seq<bool> {
    let cs = combat_creatures(bot);
    let end = combat_end(cs, combat_groups(bot));
    Seq::new(n, |i: int| end.dmg[offset + i] < cs[offset + i].toughness)
}

/// `x - y` for a positive `y`, stopping at the least `i32`.
pub open spec fn life_after_damage(x: i32, y: i32) -> i32 {
    if x - y < i32::MIN { i32::MIN } else { (x - y) as i32 }
}

/// The creatures of a battlefield, by value, in order.
fn creatures_of(bf: &CardLibrary) -> (r: Vec<Creature>)
    ensures
        r@.map_values(|c: Creature| c@) == creatures_in(bf.view()),
{
    let ghost s = bf.view();
    let n = bf.len();
    let mut out: Vec<Creature> = Vec::new();
    let mut i: usize = 0;
    while i < n
        invariant
            s == bf.view(),
            n == s.len(),
            i <= n,
            out@.map_values(|c: Creature| c@) == creatures_in(s.subrange(0, i as int)),
        decreases n - i,
    {
        proof {
            assert(s.subrange(0, i + 1).drop_last() =~= s.subrange(0, i as int));
        }
        let ghost before = out@;
        match &bf.card_at(i).card_type {
            CardType::Creature(cr) => {
                out.push(cr.clone());
                assert(out@.map_values(|c: Creature| c@) =~= before.map_values(|c: Creature| c@).push(cr@));
            },
            _ => {},
        }
        i += 1;
    }
    assert(s.subrange(0, n as int) =~= s);
    out
}

impl CombatDamageState {
    pub fn new() -> (r: Self) {
        CombatDamageState
    }

    /// Fires the combat-damage trigger of each attacker, in order: the attacker's card is
    /// updated and the effects it answers with are handled.
    pub fn fire_combat_damage_triggers(&self, bot: &mut Bot)
        requires
            old(bot).wf(),
        ensures
            final(bot).wf(),
            final(bot).battlefield_creatures.view() == combat_triggered(
                old(bot).battlefield_creatures.view(),
                texts_view(old(bot).attacking@),
            ),
            follows(old(bot).gre@, final(bot).gre@),
            final(bot).gre@ == combat_trigger_gre(
                old(bot).gre@,
                old(bot).battlefield_creatures.view(),
                texts_view(old(bot).attacking@),
            ),
            *final(bot) == (Bot { battlefield_creatures: final(bot).battlefield_creatures, gre: final(bot).gre, ..*old(bot) }),
    {
        let ghost s0 = bot.battlefield_creatures.view();
        let ghost g0 = bot.gre@;
        let ghost names = texts_view(bot.attacking@);
        let ghost b0 = *bot;
        let n = bot.attacking.len();
        let mut k: usize = 0;
        while k < n
            invariant
                bot.wf(),
                n == names.len(),
                names == texts_view(bot.attacking@),
                k <= n,
                bot.battlefield_creatures.view() == combat_triggered(s0, names.subrange(0, k as int)),
                follows(g0, bot.gre@),
                bot.gre@ == combat_trigger_gre(g0, s0, names.subrange(0, k as int)),
                *bot == (Bot { battlefield_creatures: bot.battlefield_creatures, gre: bot.gre, ..b0 }),
            decreases n - k,
        {
            proof {
                assert(names.subrange(0, k + 1).drop_last() =~= names.subrange(0, k as int));
                assert(names.subrange(0, k + 1).last() == bot.attacking@[k as int]@);
            }
            let ghost b = bot.battlefield_creatures.view();
            let pos = bot.battlefield_creatures.position(bot.attacking[k].as_str());
            match pos {
                Some(i) => {
                    proof {
                        lemma_name_index(b, bot.attacking@[k as int]@, i as int);
                    }
                    let mut card = bot.battlefield_creatures.card_at(i).clone();
                    let effects = card.trigger_by(&Trigger::OnCombatDamage { filter: TargetFilter::SelfCard });
                    bot.battlefield_creatures.set_card_at(i, card);
                    let ghost gk = bot.gre@;
                    let ghost es = effects_view(effects@);
                    proof {
                        lemma_effects_view(effects@);
                        assert(es == card_answers(card_named(b, bot.attacking@[k as int]@), combat_damage_trigger()));
                        assert(es.take(0) =~= Seq::<EffectV>::empty());
                    }
                    let mut j: usize = 0;
                    while j < effects.len()
                        invariant
                            bot.wf(),
                            follows(g0, bot.gre@),
                            bot.battlefield_creatures.view() == combat_triggered(s0, names.subrange(0, k + 1)),
                            *bot == (Bot { battlefield_creatures: bot.battlefield_creatures, gre: bot.gre, ..b0 }),
                            j <= effects@.len(),
                            es == effects_view(effects@),
                            es.len() == effects@.len(),
                            forall|x: int| 0 <= x < effects@.len() ==> #[trigger] es[x] == effects@[x]@,
                            bot.gre@ == handle_all_result(gk, es.take(j as int), EFFECT_DEPTH as nat),
                        decreases effects.len() - j,
                    {
                        let e = clone_effect(&effects[j]);
                        bot.gre.handle_effect(e);
                        proof {
                            assert(es.take(j as int + 1).drop_last() =~= es.take(j as int));
                        }
                        j += 1;
                    }
                    proof {
                        assert(es.take(j as int) =~= es);
                    }
                },
                None => {},
            }
            k += 1;
        }
        proof {
            assert(names.subrange(0, n as int) =~= names);
        }
    }

    /// Resolves combat damage: the attackers' damage triggers fire, the combat engine resolves
    /// the declared attackers and blockers between our creatures and the opponent's, and its
    /// outcome is applied (see `apply_combat_outcome`). The lifelink gain comes to our life
    /// unless life gain is prevented when the combat is resolved.
    pub fn resolve_combat_damage(&self, bot: &mut Bot)
        requires
            old(bot).wf(),
            combat_can_resolve(*old(bot)),
        ensures
            final(bot).wf(),
            ({
                let b = *old(bot);
                let n_ours = creatures_in(b.battlefield_creatures.view()).len();
                let n_theirs = creatures_in(b.battlefield_opponent_creatures.view()).len();
                let cs = combat_creatures(b);
                let end = combat_end(cs, combat_groups(b));
                let gain = lifelink_upto(cs, end.dealt, cs.len()).0;
                &&& final(bot).battlefield_creatures.view() == kept_where(
                    combat_triggered(b.battlefield_creatures.view(), texts_view(b.attacking@)),
                    survival(b, 0, n_ours),
                )
                &&& final(bot).battlefield_opponent_creatures.view() == kept_where(
                    b.battlefield_opponent_creatures.view(),
                    survival(b, n_ours as int, n_theirs),
                )
                &&& final(bot).updater.state.opponent_life_total == if end.unblocked > 0 {
                    life_after_damage(b.updater.state.opponent_life_total, end.unblocked as i32)
                } else {
                    b.updater.state.opponent_life_total
                }
                &&& final(bot).updater.state.life_total == (if !combat_trigger_gre(
                    b.gre@,
                    b.battlefield_creatures.view(),
                    texts_view(b.attacking@),
                ).prevent_life_gain_opponent && gain > 0 {
                    b.updater.state.life_total + gain
                } else {
                    b.updater.state.life_total as int
                })
            }),
            final(bot).attacking@.len() == 0,
            final(bot).combat_attackers@.len() == 0,
            final(bot).combat_blocks@.len() == 0,
            final(bot).cards_texts == old(bot).cards_texts,
            final(bot).land_number == old(bot).land_number,
    {
        let ghost b = *bot;
        self.fire_combat_damage_triggers(bot);
        proof {
            let s0 = b.battlefield_creatures.view();
            let s1 = bot.battlefield_creatures.view();
            lemma_triggered_keeps(s0, texts_view(b.attacking@));
            lemma_creatures_same_kinds(s0, s1);
        }
        let ghost g1 = bot.gre@;
        let attack_vec = creatures_of(&bot.battlefield_creatures);
        let block_vec = creatures_of(&bot.battlefield_opponent_creatures);
        proof {
            assert(combatants(attack_vec@, block_vec@) == combat_creatures(b));
        }
        let (surv_att, surv_blk, unblocked, gain) = CombatEngine::resolve_combat(
            bot.combat_attackers.as_slice(),
            attack_vec.as_slice(),
            block_vec.as_slice(),
            &bot.combat_blocks,
            &mut bot.gre.prevent_life_gain_opponent,
        );
        proof {
            let cs = combat_creatures(b);
            let end = combat_end(cs, combat_groups(b));
            let n_ours = creatures_in(b.battlefield_creatures.view()).len();
            let n_theirs = creatures_in(b.battlefield_opponent_creatures.view()).len();
            assert(surv_att@ =~= survival(b, 0, n_ours));
            assert(surv_blk@ =~= survival(b, n_ours as int, n_theirs));
        }
        self.apply_combat_outcome(bot, &surv_att, &surv_blk, unblocked, gain);
        proof {
            assert(follows(b.gre@, g1));
        }
    }

    /// Applies the outcome of a combat: each side keeps the cards whose survival flag is set
    /// (flags and cards paired in battlefield order), unblocked damage comes off the opponent's
    /// life, lifelink gain goes to ours, the stack resolves, the effects due at combat damage
    /// run, and the combat's records are cleared.
    pub fn apply_combat_outcome(
        &self,
        bot: &mut Bot,
        surviving_attackers: &Vec<bool>,
        surviving_blockers: &Vec<bool>,
        unblocked_damage: i32,
        life_gain: i32,
    )
        requires
            old(bot).wf(),
            life_gain > 0 ==> old(bot).updater.state.life_total + life_gain <= i32::MAX,
        ensures
            final(bot).wf(),
            final(bot).battlefield_creatures.view() == kept_where(old(bot).battlefield_creatures.view(), surviving_attackers@),
            final(bot).battlefield_opponent_creatures.view() == kept_where(
                old(bot).battlefield_opponent_creatures.view(),
                surviving_blockers@,
            ),
            final(bot).updater.state.opponent_life_total == if unblocked_damage > 0 {
                life_after_damage(old(bot).updater.state.opponent_life_total, unblocked_damage)
            } else {
                old(bot).updater.state.opponent_life_total
            },
            final(bot).updater.state.life_total == if life_gain > 0 {
                (old(bot).updater.state.life_total + life_gain) as i32
            } else {
                old(bot).updater.state.life_total
            },
            final(bot).gre@.replacement_effects == old(bot).gre@.replacement_effects,
            final(bot).gre@.continuous_effects == old(bot).gre@.continuous_effects,
            final(bot).attacking@.len() == 0,
            final(bot).combat_attackers@.len() == 0,
            final(bot).combat_blocks@.len() == 0,
            *final(bot) == (Bot {
                battlefield_creatures: final(bot).battlefield_creatures,
                battlefield_opponent_creatures: final(bot).battlefield_opponent_creatures,
                gre: final(bot).gre,
                updater: GameStateUpdater {
                    state: crate::app::game_state::GameState {
                        life_total: final(bot).updater.state.life_total,
                        opponent_life_total: final(bot).updater.state.opponent_life_total,
                        ..old(bot).updater.state
                    },
                },
                attacking: final(bot).attacking,
                combat_attackers: final(bot).combat_attackers,
                combat_blocks: final(bot).combat_blocks,
                ..*old(bot)
            }),
    {
        let ours = bot.battlefield_creatures.keep_where(surviving_attackers);
        bot.battlefield_creatures = ours;
        let theirs = bot.battlefield_opponent_creatures.keep_where(surviving_blockers);
        bot.battlefield_opponent_creatures = theirs;
        if unblocked_damage > 0 {
            let life = bot.updater.state.opponent_life_total;
            bot.updater.state.opponent_life_total = if life >= i32::MIN + unblocked_damage {
                life - unblocked_damage
            } else {
                i32::MIN
            };
        }
        if life_gain > 0 {
            bot.updater.state.life_total = bot.updater.state.life_total + life_gain;
        }
        bot.gre.resolve_stack();
        bot.gre.dispatch_delayed(GamePhase::CombatDamage);
        bot.attacking = Vec::new();
        bot.combat_attackers = Vec::new();
        bot.combat_blocks = HashMap::new();
    }
}

impl State for CombatDamageState {
    /// The second main phase follows.
    fn next(&mut self) -> (r: AppState)
        ensures
            *final(self) == *old(self),
            r matches AppState::SecondMain(_),
    {
        AppState::SecondMain(SecondMainPhaseState::new())
    }

    fn phase(&self) -> (r: GamePhase)
        ensures
            r == GamePhase::CombatDamage,
    {
        GamePhase::CombatDamage
    }
}

} // verus!
