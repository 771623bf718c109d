//! What the engine's effects promise across calls.
use vstd::prelude::*;

use crate::app::card_attribute::{AttributeV, Duration, EffectV, PlayerSelector, TargetFilter, Trigger};
use crate::app::card_library::{
    aura_bonus, card_after, card_answers, current_power, current_toughness, monster_auras_upto, wrap_add, CardTypeV,
    CardV,
};
use crate::app::game_state::GamePhase;
use crate::app::gre::effect_resolution::{exec_result, handle_result, lemma_direct_modify_stats, lemma_direct_prevent_life_gain, plain, prevent_life_gain_result};
use crate::app::gre::{dispatched, dispatch_steps, due_now, sorted_by_id, waiting, EFFECT_DEPTH};
use crate::app::gre::card_map::{distinct_keys, has_key, index_of, lemma_index_of};
use crate::app::gre::effect_resolution::{card_of, lemma_retarget_all, modify_stats_result, negated, retarget, retarget_all, wadd};
use crate::app::gre::{abilities_reset, insertion_point, lemma_insertion_point_bounds, sorted_by_priority, DelayedEffectV, GreV, ReplacementEffectV};

verus! {

/// Adding a value and then its negation, in wrapping arithmetic, gives the sum back.
proof fn lemma_wrap_cancel(a: i32, e: i32, p: i32)
    ensures
        wrap_add(wadd(a, negated(p)), wadd(e, p)) == wrap_add(a, e),
{
}

/// In wrapping arithmetic, adding `p` to one term of a sum adds it to the sum.
proof fn lemma_wrap_shift(a: i32, e: i32, p: i32, c: i32, x: i32)
    ensures
        wrap_add(wrap_add(wrap_add(a, wadd(e, p)), c), x) == wadd(wrap_add(wrap_add(wrap_add(a, e), c), x), p),
{
}

/// Battlefields whose entries differ at most in the statistics of their cards hold the same
/// auras attached to the same permanents.
proof fn lemma_auras_same(s: Seq<(u64, CardV)>, t: Seq<(u64, CardV)>, id: u64, n: nat)
    requires
        s.len() == t.len(),
        n <= s.len(),
        forall|i: int| 0 <= i < s.len() ==> {
            &&& (#[trigger] t[i]).1.name == s[i].1.name
            &&& t[i].1.type_flags == s[i].1.type_flags
            &&& t[i].1.attached_to == s[i].1.attached_to
        },
    ensures
        monster_auras_upto(s, id, n) == monster_auras_upto(t, id, n),
    decreases n,
{
    if n > 0 {
        lemma_auras_same(s, t, id, (n - 1) as nat);
        assert(t[n - 1].1.name == s[n - 1].1.name);
    }
}

/// A change of statistics "until end of turn" to a tracked creature raises its current power
/// and toughness by the change while it lasts, schedules its own undoing for the end phase, and
/// once that undoing has run the creature's current power and toughness are what they were
/// before the change.
pub proof fn lemma_end_of_turn_change_undone(g: GreV, cid: u64, p: i32, t: i32)
    requires
        distinct_keys(g.battlefield),
        has_key(g.battlefield, cid),
        card_of(g, cid).card_type is Creature,
    ensures
        ({
            let g1 = modify_stats_result(g, p, t, Duration::EndOfTurn, TargetFilter::ExactCardID(cid));
            let g2 = modify_stats_result(g1, negated(p), negated(t), Duration::Permanent, TargetFilter::ExactCardID(cid));
            let c0 = card_of(g, cid);
            &&& g1.delayed == g.delayed.push(
                DelayedEffectV {
                    effect: EffectV::ModifyStats {
                        power_delta: negated(p),
                        toughness_delta: negated(t),
                        duration: Duration::Permanent,
                        target: TargetFilter::ExactCardID(cid),
                    },
                    execute_phase: GamePhase::End,
                    id: g.next_id,
                    depends_on: Seq::empty(),
                },
            )
            &&& current_power(card_of(g1, cid), g1.battlefield) == wadd(current_power(c0, g.battlefield), p)
            &&& current_toughness(card_of(g1, cid), g1.battlefield) == wadd(current_toughness(c0, g.battlefield), t)
            &&& current_power(card_of(g2, cid), g2.battlefield) == current_power(c0, g.battlefield)
            &&& current_toughness(card_of(g2, cid), g2.battlefield) == current_toughness(c0, g.battlefield)
            &&& card_of(g2, cid).card_type is Creature
            &&& wrap_add(card_of(g2, cid).card_type->Creature_0.power, card_of(g2, cid).card_type->Creature_0.ephemeral_power)
                == wrap_add(c0.card_type->Creature_0.power, c0.card_type->Creature_0.ephemeral_power)
            &&& wrap_add(
                card_of(g2, cid).card_type->Creature_0.toughness,
                card_of(g2, cid).card_type->Creature_0.ephemeral_toughness,
            ) == wrap_add(c0.card_type->Creature_0.toughness, c0.card_type->Creature_0.ephemeral_toughness)
            &&& g2.delayed == g1.delayed
        }),
{
    reveal(modify_stats_result);
    let i = index_of(g.battlefield, cid);
    lemma_index_of(g.battlefield, cid, i);
    assert(0 <= i < g.battlefield.len() && g.battlefield[i].0 == cid);
    let g1 = modify_stats_result(g, p, t, Duration::EndOfTurn, TargetFilter::ExactCardID(cid));
    let c0 = card_of(g, cid);
    let cr = c0.card_type->Creature_0;
    let b1 = g1.battlefield;
    assert(b1 == g.battlefield.update(i, (cid, card_of(g1, cid)))) by {
        assert(b1[i].0 == cid);
        lemma_index_of(b1, cid, i);
    }
    assert forall|x: int, y: int| 0 <= x < b1.len() && 0 <= y < b1.len() && x != y implies (#[trigger] b1[x]).0
        != (#[trigger] b1[y]).0 by {
        assert(b1[x].0 == g.battlefield[x].0);
        assert(b1[y].0 == g.battlefield[y].0);
    }
    lemma_index_of(b1, cid, i);
    let g2 = modify_stats_result(g1, negated(p), negated(t), Duration::Permanent, TargetFilter::ExactCardID(cid));
    let b2 = g2.battlefield;
    assert(b2[i].0 == cid);
    lemma_index_of(b2, cid, i);
    lemma_auras_same(g.battlefield, b1, c0.card_id, g.battlefield.len());
    lemma_auras_same(g.battlefield, b2, c0.card_id, g.battlefield.len());
    assert(aura_bonus(b1, c0.card_id) == aura_bonus(g.battlefield, c0.card_id));
    assert(aura_bonus(b2, c0.card_id) == aura_bonus(g.battlefield, c0.card_id));
    lemma_wrap_cancel(cr.power, cr.ephemeral_power, p);
    lemma_wrap_cancel(cr.toughness, cr.ephemeral_toughness, t);
    lemma_wrap_shift(cr.power, cr.ephemeral_power, p, crate::app::card_library::plus_counters(c0), aura_bonus(g.battlefield, c0.card_id));
    lemma_wrap_shift(
        cr.toughness,
        cr.ephemeral_toughness,
        t,
        crate::app::card_library::plus_counters(c0),
        aura_bonus(g.battlefield, c0.card_id),
    );
}

/// A first-time-each-turn ability (such as Valiant) answers its trigger the first time only:
/// the card answers with the ability's effect, then no more that turn, and once the turn has
/// ended (see `abilities_reset`) it answers again. (A first-time ability whose own trigger is
/// the end phase re-arms itself on it, and is left out.)
pub proof fn lemma_first_time_each_turn(c: CardV, base: Trigger, action: EffectV)
    requires
        !(base is AtPhase),
        c.triggers == seq![base],
        c.attributes == seq![AttributeV::FirstTimePerTurn(base, GamePhase::End, action, false)],
    ensures
        card_answers(c, base) == seq![action],
        card_answers(card_after(c, base), base) == Seq::<EffectV>::empty(),
        card_answers(card_after(card_after(c, base), base), base) == Seq::<EffectV>::empty(),
        abilities_reset(card_after(c, base)).attributes == c.attributes,
        card_answers(abilities_reset(card_after(c, base)), base) == seq![action],
{
    let c1 = card_after(c, base);
    assert(c1.attributes =~= seq![AttributeV::FirstTimePerTurn(base, GamePhase::End, action, true)]);
    let c2 = card_after(c1, base);
    assert(c2.attributes =~= c1.attributes);
    let c3 = abilities_reset(c1);
    assert(c3.attributes =~= c.attributes);
    assert(card_answers(c, base) =~= seq![action]) by {
        reveal_with_fuel(crate::app::card_library::trigger_answers, 2);
    }
    assert(card_answers(c1, base) =~= Seq::<EffectV>::empty()) by {
        reveal_with_fuel(crate::app::card_library::trigger_answers, 2);
    }
    assert(card_answers(c2, base) =~= Seq::<EffectV>::empty()) by {
        reveal_with_fuel(crate::app::card_library::trigger_answers, 2);
    }
    assert(card_answers(c3, base) =~= seq![action]) by {
        reveal_with_fuel(crate::app::card_library::trigger_answers, 2);
    }
}

/// Aiming an effect at a creature (see `retarget`) a second time at the same creature changes
/// nothing more, and only modifications of statistics, grants of abilities and targeted groups
/// are changed at all: every other effect comes back as it was.
pub proof fn lemma_retarget_idempotent(e: EffectV, id: u64)
    ensures
        retarget(retarget(e, id), id) == retarget(e, id),
        !(e is ModifyStats || e is GrantAbility || e is TargetedEffects) ==> retarget(e, id) == e,
    decreases e,
{
    if let EffectV::TargetedEffects { sub_effects } = e {
        let s1 = retarget_all(sub_effects, id);
        lemma_retarget_all(sub_effects, id);
        lemma_retarget_all(s1, id);
        assert forall|i: int| 0 <= i < sub_effects.len() implies #[trigger] retarget_all(s1, id)[i] == s1[i] by {
            lemma_retarget_idempotent(sub_effects[i], id);
        }
        assert(retarget_all(s1, id) =~= s1);
    }
}

/// The priorities of a list of replacement effects, in order.
pub open spec fn priorities(s: Seq<ReplacementEffectV>) -> Seq<u8> {
    s.map_values(|r: ReplacementEffectV| r.priority)
}

/// Adding a replacement effect (see `add_replacement_effect`) to a list ordered by decreasing
/// priority keeps it ordered, adds exactly the new priority to the priorities, and is stable:
/// the old effects keep their order, and the new one comes after every old one of its priority
/// and before every old one of lower priority.
pub proof fn lemma_add_replacement_ordered(s: Seq<ReplacementEffectV>, r: ReplacementEffectV)
    requires
        sorted_by_priority(s),
    ensures
        ({
            let k = insertion_point(s, r.priority);
            let t = s.insert(k, r);
            &&& t.len() == s.len() + 1
            &&& sorted_by_priority(t)
            &&& priorities(t).to_multiset() == priorities(s).to_multiset().insert(r.priority)
            &&& t.remove(k) == s
            &&& t[k] == r
            &&& forall|j: int| 0 <= j < k ==> (#[trigger] t[j]).priority >= r.priority
            &&& forall|j: int| k < j < t.len() ==> (#[trigger] t[j]).priority < r.priority
        }),
{
    let k = insertion_point(s, r.priority);
    lemma_insertion_point_bounds(s, r.priority);
    let t = s.insert(k, r);
    assert(t.remove(k) =~= s);
    assert forall|i: int, j: int| 0 <= i < j < t.len() implies (#[trigger] t[i]).priority >= (#[trigger] t[j]).priority by {
        if j < k {
            assert(t[i] == s[i] && t[j] == s[j]);
        } else if j == k {
            assert(t[i] == s[i]);
        } else if i < k {
            assert(t[i] == s[i] && t[j] == s[j - 1]);
        } else if i == k {
            assert(t[j] == s[j - 1]);
        } else {
            assert(t[i] == s[i - 1] && t[j] == s[j - 1]);
        }
    }
    assert forall|j: int| k < j < t.len() implies (#[trigger] t[j]).priority < r.priority by {
        assert(t[j] == s[j - 1]);
    }
    let pt = priorities(t);
    let ps = priorities(s);
    assert(pt.remove(k) =~= ps);
    pt.to_multiset_ensures();
    assert(pt[k] == r.priority);
    assert(pt.contains(r.priority));
    assert(pt.to_multiset() =~= ps.to_multiset().insert(r.priority)) by {
        assert(ps.to_multiset() == pt.to_multiset().remove(r.priority));
        assert(pt.to_multiset().count(r.priority) > 0);
    }
}

/// Executing a change of statistics "until end of turn" on a tracked creature (with no
/// replacement or continuous effect in force and nothing queued before), then running the
/// delayed effects due in the end phase (any outcome that `dispatch_delayed` allows), leaves
/// nothing queued and gives the creature back its power and toughness: its printed value plus
/// its temporary bonus, and its current value, are what they were before the change.
pub proof fn lemma_end_of_turn_change_dispatched(g: GreV, cid: u64, p: i32, t: i32, b: GreV)
    requires
        distinct_keys(g.battlefield),
        has_key(g.battlefield, cid),
        card_of(g, cid).card_type is Creature,
        plain(g),
        g.delayed.len() == 0,
        ({
            let g1 = exec_result(
                g,
                EffectV::ModifyStats {
                    power_delta: p,
                    toughness_delta: t,
                    duration: Duration::EndOfTurn,
                    target: TargetFilter::ExactCardID(cid),
                },
                EFFECT_DEPTH as nat,
            );
            exists|order: Seq<DelayedEffectV>|
                #[trigger] sorted_by_id(order) && order.to_multiset() == g1.delayed.filter(
                    due_now(g1.executed_delayed, GamePhase::End),
                ).to_multiset() && dispatched(
                    GreV { delayed: g1.delayed.filter(waiting(g1.executed_delayed, GamePhase::End)), ..g1 },
                    order,
                    b,
                )
        }),
    ensures
        b.delayed.len() == 0,
        card_of(b, cid).card_type is Creature,
        ({
            let c0 = card_of(g, cid).card_type->Creature_0;
            let c2 = card_of(b, cid).card_type->Creature_0;
            &&& wrap_add(c2.power, c2.ephemeral_power) == wrap_add(c0.power, c0.ephemeral_power)
            &&& wrap_add(c2.toughness, c2.ephemeral_toughness) == wrap_add(c0.toughness, c0.ephemeral_toughness)
        }),
        current_power(card_of(b, cid), b.battlefield) == current_power(card_of(g, cid), g.battlefield),
        current_toughness(card_of(b, cid), b.battlefield) == current_toughness(card_of(g, cid), g.battlefield),
{
    let target = TargetFilter::ExactCardID(cid);
    let e = EffectV::ModifyStats { power_delta: p, toughness_delta: t, duration: Duration::EndOfTurn, target };
    lemma_direct_modify_stats(g, p, t, Duration::EndOfTurn, target);
    let g1 = exec_result(g, e, EFFECT_DEPTH as nat);
    assert(g1 == modify_stats_result(g, p, t, Duration::EndOfTurn, target));
    assert(plain(g1)) by {
        reveal(modify_stats_result);
    }
    lemma_end_of_turn_change_undone(g, cid, p, t);
    let revert = EffectV::ModifyStats {
        power_delta: negated(p),
        toughness_delta: negated(t),
        duration: Duration::Permanent,
        target,
    };
    let d = DelayedEffectV { effect: revert, execute_phase: GamePhase::End, id: g.next_id, depends_on: Seq::empty() };
    assert(g1.delayed =~= seq![d]);
    let due = due_now(g1.executed_delayed, GamePhase::End);
    let wait = waiting(g1.executed_delayed, GamePhase::End);
    assert(due(d));
    assert(seq![d].filter(due) =~= seq![d]) by {
        reveal_with_fuel(Seq::filter, 2);
        assert(seq![d].drop_last() =~= Seq::<DelayedEffectV>::empty());
    }
    assert(seq![d].filter(wait) =~= Seq::<DelayedEffectV>::empty()) by {
        reveal_with_fuel(Seq::filter, 2);
        assert(seq![d].drop_last() =~= Seq::<DelayedEffectV>::empty());
    }
    let order = choose|order: Seq<DelayedEffectV>|
        #[trigger] sorted_by_id(order) && order.to_multiset() == g1.delayed.filter(due).to_multiset() && dispatched(
            GreV { delayed: g1.delayed.filter(wait), ..g1 },
            order,
            b,
        );
    let a1 = GreV { delayed: Seq::empty(), ..g1 };
    assert(a1 == (GreV { delayed: g1.delayed.filter(wait), ..g1 }));
    order.to_multiset_ensures();
    seq![d].to_multiset_ensures();
    vstd::seq_lib::to_multiset_len(order);
    vstd::seq_lib::to_multiset_len(seq![d]);
    assert(order.len() == 1);
    assert(order.contains(order[0]));
    assert(g1.delayed.filter(due) == seq![d]);
    assert(order.to_multiset() == seq![d].to_multiset());
    assert(order.to_multiset().count(order[0]) > 0);
    assert(seq![d].contains(order[0]));
    assert(order[0] == d);
    let ms = choose|ms: Seq<GreV>| #[trigger] dispatch_steps(ms, order) && ms[0] == a1 && ms[order.len() as int] == b;
    assert(dispatch_steps(ms, order));
    assert(crate::app::gre::dispatch_step(ms[0], order[0], ms[1]));
    let a2 = GreV { executed_delayed: a1.executed_delayed.insert(d.id), ..a1 };
    assert(b == handle_result(a2, revert, EFFECT_DEPTH as nat));
    assert(plain(a2));
    lemma_direct_modify_stats(a2, negated(p), negated(t), Duration::Permanent, target);
    let g2 = modify_stats_result(g1, negated(p), negated(t), Duration::Permanent, target);
    assert(b == modify_stats_result(a2, negated(p), negated(t), Duration::Permanent, target));
    assert(b.battlefield == g2.battlefield && b.delayed == a2.delayed) by {
        reveal(modify_stats_result);
    }
}


/// Whether life gain is prevented for `player` (ours for the controller, the opponent's for the
/// opponent).
pub open spec fn gain_prevented(g: GreV, player: PlayerSelector) -> bool {
    if player == PlayerSelector::Controller {
        g.prevent_life_gain_us
    } else {
        g.prevent_life_gain_opponent
    }
}

/// Preventing a player's life gain until end of turn (with no replacement or continuous effect
/// in force and nothing queued before) prevents it at once, and once the delayed effects due in
/// the end phase have run (any outcome that `dispatch_delayed` allows) the player can gain life
/// again and nothing is left queued.
pub proof fn lemma_prevention_lifted_at_end(g: GreV, player: PlayerSelector, b: GreV)
    requires
        player == PlayerSelector::Controller || player == PlayerSelector::Opponent,
        plain(g),
        g.delayed.len() == 0,
        ({
            let g1 = exec_result(g, EffectV::PreventLifeGain { player, duration: Duration::EndOfTurn }, EFFECT_DEPTH as nat);
            exists|order: Seq<DelayedEffectV>|
                #[trigger] sorted_by_id(order) && order.to_multiset() == g1.delayed.filter(
                    due_now(g1.executed_delayed, GamePhase::End),
                ).to_multiset() && dispatched(
                    GreV { delayed: g1.delayed.filter(waiting(g1.executed_delayed, GamePhase::End)), ..g1 },
                    order,
                    b,
                )
        }),
    ensures
        gain_prevented(
            exec_result(g, EffectV::PreventLifeGain { player, duration: Duration::EndOfTurn }, EFFECT_DEPTH as nat),
            player,
        ),
        !gain_prevented(b, player),
        b.delayed.len() == 0,
{
    let e = EffectV::PreventLifeGain { player, duration: Duration::EndOfTurn };
    lemma_direct_prevent_life_gain(g, player, Duration::EndOfTurn);
    let g1 = exec_result(g, e, EFFECT_DEPTH as nat);
    assert(g1 == prevent_life_gain_result(g, player, Duration::EndOfTurn));
    reveal(prevent_life_gain_result);
    assert(plain(g1));
    let lift = EffectV::PreventLifeGain { player, duration: Duration::Permanent };
    let d = DelayedEffectV { effect: lift, execute_phase: GamePhase::End, id: g.next_id, depends_on: Seq::empty() };
    assert(g1.delayed =~= seq![d]);
    lemma_single_due_dispatched(g1, d, b);
    let a2 = GreV { executed_delayed: g1.executed_delayed.insert(d.id), delayed: Seq::empty(), ..g1 };
    assert(plain(a2));
    lemma_direct_prevent_life_gain(a2, player, Duration::Permanent);
    assert(b == prevent_life_gain_result(a2, player, Duration::Permanent));
}

/// Where exactly one delayed effect is queued, due in the end phase with nothing to wait for,
/// every outcome that `dispatch_delayed` allows at the end phase is that effect carried out (see
/// `handle_result`) after its id was recorded, with nothing left queued.
proof fn lemma_single_due_dispatched(g1: GreV, d: DelayedEffectV, b: GreV)
    requires
        g1.delayed == seq![d],
        d.execute_phase == GamePhase::End,
        d.depends_on.len() == 0,
        exists|order: Seq<DelayedEffectV>|
            #[trigger] sorted_by_id(order) && order.to_multiset() == g1.delayed.filter(
                due_now(g1.executed_delayed, GamePhase::End),
            ).to_multiset() && dispatched(
                GreV { delayed: g1.delayed.filter(waiting(g1.executed_delayed, GamePhase::End)), ..g1 },
                order,
                b,
            ),
    ensures
        b == handle_result(
            GreV { executed_delayed: g1.executed_delayed.insert(d.id), delayed: Seq::empty(), ..g1 },
            d.effect,
            EFFECT_DEPTH as nat,
        ),
{
    let due = due_now(g1.executed_delayed, GamePhase::End);
    let wait = waiting(g1.executed_delayed, GamePhase::End);
    assert(due(d));
    assert(seq![d].filter(due) =~= seq![d]) by {
        reveal_with_fuel(Seq::filter, 2);
        assert(seq![d].drop_last() =~= Seq::<DelayedEffectV>::empty());
    }
    assert(seq![d].filter(wait) =~= Seq::<DelayedEffectV>::empty()) by {
        reveal_with_fuel(Seq::filter, 2);
        assert(seq![d].drop_last() =~= Seq::<DelayedEffectV>::empty());
    }
    let order = choose|order: Seq<DelayedEffectV>|
        #[trigger] sorted_by_id(order) && order.to_multiset() == g1.delayed.filter(due).to_multiset() && dispatched(
            GreV { delayed: g1.delayed.filter(wait), ..g1 },
            order,
            b,
        );
    let a1 = GreV { delayed: Seq::empty(), ..g1 };
    assert(a1 == (GreV { delayed: g1.delayed.filter(wait), ..g1 }));
    order.to_multiset_ensures();
    seq![d].to_multiset_ensures();
    vstd::seq_lib::to_multiset_len(order);
    vstd::seq_lib::to_multiset_len(seq![d]);
    assert(order.len() == 1);
    assert(order.contains(order[0]));
    assert(g1.delayed.filter(due) == seq![d]);
    assert(order.to_multiset() == seq![d].to_multiset());
    assert(order.to_multiset().count(order[0]) > 0);
    assert(seq![d].contains(order[0]));
    assert(order[0] == d);
    let ms = choose|ms: Seq<GreV>| #[trigger] dispatch_steps(ms, order) && ms[0] == a1 && ms[order.len() as int] == b;
    assert(dispatch_steps(ms, order));
    assert(crate::app::gre::dispatch_step(ms[0], order[0], ms[1]));
}

} // verus!
