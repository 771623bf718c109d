use vstd::prelude::*;

use crate::app::card_attribute::{clone_effect, clone_effects, effects_view, Amount, Condition, Effect, EffectV};
use crate::app::card_library::ManaCost;
use crate::app::game_state::GamePhase;

verus! {

/// An activated ability of a permanent.
#[derive(Debug, PartialEq)]
pub struct ActivatedAbility {
    pub cost: ManaCost,
    pub condition: Condition,
    pub effect: Effect,
    pub activated_this_turn: bool,
    pub loyalty_change: i32,
}

/// The value of an activated ability.
pub struct ActivatedAbilityV {
    pub cost: ManaCost,
    pub condition: Condition,
    pub effect: EffectV,
    pub activated_this_turn: bool,
    pub loyalty_change: i32,
}

impl View for ActivatedAbility {
    type V = ActivatedAbilityV;

    open spec fn view(&self) -> ActivatedAbilityV {
        ActivatedAbilityV {
            cost: self.cost,
            condition: self.condition,
            effect: self.effect@,
            activated_this_turn: self.activated_this_turn,
            loyalty_change: self.loyalty_change,
        }
    }
}

impl Clone for ActivatedAbility {
    fn clone(&self) -> (r: Self)
        ensures
            r@ == self@,
    {
        ActivatedAbility {
            cost: self.cost,
            condition: self.condition,
            effect: clone_effect(&self.effect),
            activated_this_turn: self.activated_this_turn,
            loyalty_change: self.loyalty_change,
        }
    }
}

/// An effect waiting for a phase (and for other delayed effects it depends on).
#[derive(Debug)]
pub struct DelayedEffect {
    pub effect: Effect,
    pub execute_phase: GamePhase,
    pub id: usize,
    pub depends_on: Vec<usize>,
}

/// The value of a delayed effect.
pub struct DelayedEffectV {
    pub effect: EffectV,
    pub execute_phase: GamePhase,
    pub id: usize,
    pub depends_on: Seq<usize>,
}

impl View for DelayedEffect {
    type V = DelayedEffectV;

    open spec fn view(&self) -> DelayedEffectV {
        DelayedEffectV {
            effect: self.effect@,
            execute_phase: self.execute_phase,
            id: self.id,
            depends_on: self.depends_on@,
        }
    }
}

/// A rule that replaces an effect before it happens: every effect equal to `from` is replaced by
/// the effects `to`, in order.
#[derive(Debug)]
pub enum ReplacementRule {
    Substitute { from: Effect, to: Vec<Effect> },
}

/// A replacement effect with its priority (higher priorities apply first).
#[derive(Debug)]
pub struct ReplacementEffect {
    pub priority: u8,
    pub rule: ReplacementRule,
}

/// The value of a replacement effect.
pub struct ReplacementEffectV {
    pub priority: u8,
    pub from: EffectV,
    pub to: Seq<EffectV>,
}

impl View for ReplacementEffect {
    type V = ReplacementEffectV;

    open spec fn view(&self) -> ReplacementEffectV {
        match self.rule {
            ReplacementRule::Substitute { from, to } =>
                ReplacementEffectV { priority: self.priority, from: from@, to: effects_view(to@) },
        }
    }
}

impl Clone for ReplacementEffect {
    fn clone(&self) -> (r: Self)
        ensures
            r@ == self@,
    {
        match &self.rule {
            ReplacementRule::Substitute { from, to } => ReplacementEffect {
                priority: self.priority,
                rule: ReplacementRule::Substitute { from: clone_effect(from), to: clone_effects(to) },
            },
        }
    }
}

/// A rule that changes every effect while it is in force.
#[derive(Debug, Clone, Copy, PartialEq, Eq, Structural)]
pub enum ContinuousEffect {
    /// Every damage effect of a fixed amount deals `by` more (wrapping on `i32`).
    IncreaseFixedDamage(i32),
}

/// An effect after a continuous effect has changed it.
pub open spec fn continuous_apply(c: ContinuousEffect, e: EffectV) -> EffectV {
    match c {
        ContinuousEffect::IncreaseFixedDamage(by) => match e {
            EffectV::Damage { amount: Amount::Fixed(n), target } =>
                EffectV::Damage { amount: Amount::Fixed(vstd::wrapping::i32_specs::wrapping_add(n, by)), target },
            other => other,
        },
    }
}

/// Applies a continuous effect to an effect.
pub fn apply_continuous(c: &ContinuousEffect, e: &mut Effect)
    ensures
        final(e)@ == continuous_apply(*c, old(e)@),
{
    match c {
        ContinuousEffect::IncreaseFixedDamage(by) => {
            if let Effect::Damage { amount: Amount::Fixed(n), target } = e {
                let t = *target;
                let v = n.wrapping_add(*by);
                *e = Effect::Damage { amount: Amount::Fixed(v), target: t };
            }
        },
    }
}

} // verus!
