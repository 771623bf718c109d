//! How events make permanents' triggers fire.
use vstd::prelude::*;

use crate::app::card_attribute::{
    clone_effect, effects_view, lemma_effects_view, lemma_effects_view_push, Effect, EffectV, PlayerSelector, TargetFilter, Trigger,
};
use crate::app::card_library::{card_after, card_answers, Card, CardV};
use crate::app::game_state::{GameEvent, GameEventV, GamePhase, Player};
use crate::app::gre::card_map::{has_key, lemma_index_of};
use crate::app::gre::effect_resolution::{card_of, deaths_after, follows, handle_all_result};
use crate::app::gre::stack::{PriorityEntryV, StackEntry, StackEntryV};
use crate::app::gre::{death_triggers_view, map_insert, pushed, scheduled, Gre, GreV, EFFECT_DEPTH};

verus! {

/// The trigger that an event fires on the cards handed to `trigger_event`, if any.
pub open spec fn event_trigger(ev: GameEventV) -> Option<Trigger> {
    match ev {
        GameEventV::SpellResolved(_) => Some(Trigger::OnCastResolved),
        GameEventV::CreatureDied(_) => Some(Trigger::OnDeath { filter: TargetFilter::SelfCard }),
        GameEventV::TurnEnded => Some(Trigger::AtPhase { phase: GamePhase::End, player: PlayerSelector::AnyPlayer }),
        GameEventV::PhaseChange(p) => Some(Trigger::AtPhase { phase: p, player: PlayerSelector::AnyPlayer }),
        _ => None,
    }
}

/// The values of a sequence of cards.
pub open spec fn cards_view(s: Seq<Card>) -> Seq<CardV> {
    s.map_values(|c: Card| c@)
}

/// The values of a sequence of (source card, effect) pairs.
pub open spec fn pairs_view(s: Seq<(Card, Effect)>) -> Seq<(CardV, EffectV)> {
    s.map_values(|p: (Card, Effect)| (p.0@, p.1@))
}

/// What one card answers to a trigger, each answer paired with the card as it is afterwards.
pub open spec fn answers_of(c: CardV, t: Trigger) -> Seq<(CardV, EffectV)> {
    card_answers(c, t).map_values(|e: EffectV| (card_after(c, t), e))
}

/// What a sequence of cards answers to a trigger, card by card.
pub open spec fn batch_of(cards: Seq<CardV>, t: Trigger) -> Seq<(CardV, EffectV)>
    decreases cards.len(),
{
    if cards.len() == 0 {
        Seq::empty()
    } else {
        batch_of(cards.drop_last(), t) + answers_of(cards.last(), t)
    }
}

/// The priority of a triggered ability: stat changes and proliferation go first.
pub open spec fn trigger_priority(e: EffectV) -> u8 {
    match e {
        EffectV::ModifyStats { .. } => 2,
        EffectV::Proliferate { .. } => 2,
        _ => 1,
    }
}

/// The engine after a triggered effect was queued: a delayed effect is scheduled, any other
/// goes on the stack as a triggered ability.
pub open spec fn enqueue_one(g: GreV, src: CardV, e: EffectV, controller: Player) -> GreV {
    match e {
        EffectV::Delayed { effect, phase, deps } => scheduled(g, *effect, phase, deps),
        _ => pushed(
            g,
            StackEntryV::TriggeredAbility { source: Some(src), effect: e, controller },
            trigger_priority(e),
        ),
    }
}

/// The engine after a batch of triggered effects was queued, in order.
pub open spec fn enqueue_all(g: GreV, batch: Seq<(CardV, EffectV)>, controller: Player) -> GreV
    decreases batch.len(),
{
    if batch.len() == 0 {
        g
    } else {
        let prev = enqueue_all(g, batch.drop_last(), controller);
        enqueue_one(prev, batch.last().0, batch.last().1, controller)
    }
}

/// What the tracked permanents with card identifier `tid` answer to a trigger, in order.
pub open spec fn map_batch(s: Seq<(u64, CardV)>, tid: u64, t: Trigger) -> Seq<(CardV, EffectV)>
    decreases s.len(),
{
    if s.len() == 0 {
        Seq::empty()
    } else {
        let prev = map_batch(s.drop_last(), tid, t);
        if s.last().1.card_id == tid {
            prev + answers_of(s.last().1, t)
        } else {
            prev
        }
    }
}

/// The tracked permanents after those with card identifier `tid` answered a trigger.
pub open spec fn map_after(s: Seq<(u64, CardV)>, tid: u64, t: Trigger) -> Seq<(u64, CardV)> {
    s.map_values(|p: (u64, CardV)| if p.1.card_id == tid { (p.0, card_after(p.1, t)) } else { p })
}

/// The engine after a batch of triggered abilities was put on the stack one by one, each
/// giving every player their pass back and priority to `controller`.
pub open spec fn stack_all(g: GreV, batch: Seq<(CardV, EffectV)>, controller: Player) -> GreV
    decreases batch.len(),
{
    if batch.len() == 0 {
        g
    } else {
        let prev = stack_all(g, batch.drop_last(), controller);
        GreV {
            passes: 0,
            priority: controller,
            ..pushed(
                prev,
                StackEntryV::TriggeredAbility { source: Some(batch.last().0), effect: batch.last().1, controller },
                1,
            )
        }
    }
}

/// The trigger that mana added by the permanent with card identifier `id` fires on a tracked
/// card: "when this adds mana" on the source itself, "when a creature you control adds mana" on
/// every other.
pub open spec fn mana_trigger(c: CardV, id: u64) -> Trigger {
    if c.card_id == id {
        Trigger::OnAddMana { filter: TargetFilter::SelfCard }
    } else {
        Trigger::OnAddMana { filter: TargetFilter::ControllerCreature }
    }
}

/// The tracked permanents after answering mana added by `id`.
pub open spec fn mana_after(s: Seq<(u64, CardV)>, id: u64) -> Seq<(u64, CardV)> {
    s.map_values(|p: (u64, CardV)| (p.0, card_after(p.1, mana_trigger(p.1, id))))
}

/// What the tracked permanents answer to mana added by `id`, in order.
pub open spec fn mana_batch(s: Seq<(u64, CardV)>, id: u64) -> Seq<(CardV, EffectV)>
    decreases s.len(),
{
    if s.len() == 0 {
        Seq::empty()
    } else {
        mana_batch(s.drop_last(), id) + answers_of(s.last().1, mana_trigger(s.last().1, id))
    }
}

/// The engine after the tracked permanents answered mana added by `id`: each one changed as it
/// answered, and the answers queued in order.
#[verifier::opaque]
pub open spec fn mana_added_result(g: GreV, id: u64, controller: Player) -> GreV {
    enqueue_all(GreV { battlefield: mana_after(g.battlefield, id), ..g }, mana_batch(g.battlefield, id), controller)
}

/// A tracked card after its own "when a counter is put on this" answered, where it is the card
/// with identifier `id`; any other card as it is.
pub open spec fn counter_self_after(c: CardV, id: u64) -> CardV {
    if c.card_id == id {
        card_after(c, Trigger::OnCounterAdded { filter: TargetFilter::SelfCard })
    } else {
        c
    }
}

/// A tracked card after answering a counter put on the permanent with identifier `id`: its own
/// trigger where it is that permanent, then, where `id` is tracked, "when a creature you control
/// gets a counter".
pub open spec fn counter_card_after(c: CardV, id: u64, known: bool) -> CardV {
    if known {
        card_after(counter_self_after(c, id), Trigger::OnCounterAdded { filter: TargetFilter::ControllerCreature })
    } else {
        counter_self_after(c, id)
    }
}

/// What a tracked card answers to a counter put on the permanent with identifier `id`, in the
/// order of `counter_card_after`.
pub open spec fn counter_card_answers(c: CardV, id: u64, known: bool) -> Seq<(CardV, EffectV)> {
    (if c.card_id == id {
        answers_of(c, Trigger::OnCounterAdded { filter: TargetFilter::SelfCard })
    } else {
        Seq::empty()
    }) + (if known {
        answers_of(counter_self_after(c, id), Trigger::OnCounterAdded { filter: TargetFilter::ControllerCreature })
    } else {
        Seq::empty()
    })
}

/// The tracked permanents after answering a counter put on `id`.
pub open spec fn counter_after(s: Seq<(u64, CardV)>, id: u64, known: bool) -> Seq<(u64, CardV)> {
    s.map_values(|p: (u64, CardV)| (p.0, counter_card_after(p.1, id, known)))
}

/// What the tracked permanents answer to a counter put on `id`, in order.
pub open spec fn counter_batch(s: Seq<(u64, CardV)>, id: u64, known: bool) -> Seq<(CardV, EffectV)>
    decreases s.len(),
{
    if s.len() == 0 {
        Seq::empty()
    } else {
        counter_batch(s.drop_last(), id, known) + counter_card_answers(s.last().1, id, known)
    }
}

/// An answer with "draw as many cards" made "draw `n` cards" for the controller.
pub open spec fn counted(e: EffectV, n: u32) -> EffectV {
    match e {
        EffectV::DrawCardsCounted => EffectV::DrawCards { count: n, player: PlayerSelector::Controller },
        other => other,
    }
}

/// A batch of answers with every "draw as many cards" made "draw `n` cards".
pub open spec fn counted_all(b: Seq<(CardV, EffectV)>, n: u32) -> Seq<(CardV, EffectV)> {
    b.map_values(|p: (CardV, EffectV)| (p.0, counted(p.1, n)))
}

/// The engine after the tracked permanents answered `n` counters put on the permanent with
/// identifier `id`: each changed as it answered, and the answers queued in order.
#[verifier::opaque]
pub open spec fn counter_added_result(g: GreV, id: u64, n: u32, controller: Player) -> GreV {
    enqueue_all(
        GreV { battlefield: counter_after(g.battlefield, id, has_key(g.battlefield, id)), ..g },
        counted_all(counter_batch(g.battlefield, id, has_key(g.battlefield, id)), n),
        controller,
    )
}

/// The trigger of a permanent that is targeted the first time in a turn.
pub open spec fn targeted_trigger() -> Trigger {
    Trigger::OnTargetedFirstTimeEachTurn { filter: TargetFilter::SelfCard }
}

/// What `trigger_event` does for an event that concerns only the cards handed to it: their
/// answers are queued, after every player got their pass back.
pub open spec fn handed_cards_result(g: GreV, cards: Seq<CardV>, t: Option<Trigger>, controller: Player) -> GreV {
    match t {
        Some(t) => enqueue_all(GreV { passes: 0, ..g }, batch_of(cards, t), controller),
        None => GreV { passes: 0, ..g },
    }
}

/// What `trigger_event` does when the permanent with card identifier `tid` is targeted: its
/// "targeted the first time this turn" answers go on the stack.
pub open spec fn targeted_result(g: GreV, tid: u64, controller: Player) -> GreV {
    GreV {
        passes: 0,
        ..stack_all(
            GreV { battlefield: map_after(g.battlefield, tid, targeted_trigger()), ..g },
            map_batch(g.battlefield, tid, targeted_trigger()),
            controller,
        )
    }
}

/// The battlefield cards after answering an event.
pub open spec fn cards_after(cards: Seq<CardV>, t: Option<Trigger>) -> Seq<CardV> {
    match t {
        Some(t) => cards.map_values(|c: CardV| card_after(c, t)),
        None => cards,
    }
}

/// The effects of the death triggers registered for a card that died (the permanent with the
/// same identifier, whatever happened to it since), in order.
pub open spec fn death_effects(dt: Seq<(CardV, EffectV)>, died: CardV) -> Seq<EffectV>
    decreases dt.len(),
{
    if dt.len() == 0 {
        Seq::empty()
    } else if dt.last().0.card_id == died.card_id {
        death_effects(dt.drop_last(), died).push(dt.last().1)
    } else {
        death_effects(dt.drop_last(), died)
    }
}

/// The positions of the death triggers registered for a card that died, in order.
pub open spec fn death_positions(dt: Seq<(CardV, EffectV)>, died: CardV) -> Seq<int>
    decreases dt.len(),
{
    if dt.len() == 0 {
        Seq::empty()
    } else if dt.last().0.card_id == died.card_id {
        death_positions(dt.drop_last(), died).push(dt.len() - 1)
    } else {
        death_positions(dt.drop_last(), died)
    }
}

/// A sequence without the entries at the given positions, the last position taken out first;
/// a position past the end is passed over.
pub open spec fn without_positions(s: Seq<(CardV, EffectV)>, ps: Seq<int>) -> Seq<(CardV, EffectV)>
    decreases ps.len(),
{
    if ps.len() == 0 {
        s
    } else {
        let k = ps.last();
        without_positions(if 0 <= k < s.len() { s.remove(k) } else { s }, ps.drop_last())
    }
}

/// The trigger that an event fires on a tracked card as the trigger tree is walked: a
/// creature's death fires only on that creature; other events fire as `event_trigger` says.
pub open spec fn tree_trigger(ev: GameEventV, c: CardV) -> Option<Trigger> {
    match ev {
        GameEventV::CreatureDied(d) => if d.card_id == c.card_id {
            event_trigger(ev)
        } else {
            None
        },
        _ => event_trigger(ev),
    }
}

/// A tracked card after it answered an event in the trigger tree.
pub open spec fn tree_card_after(ev: GameEventV, c: CardV) -> CardV {
    match tree_trigger(ev, c) {
        Some(t) => card_after(c, t),
        None => c,
    }
}

/// What a tracked card answers to an event in the trigger tree, in order.
pub open spec fn tree_answers(ev: GameEventV, c: CardV) -> Seq<EffectV> {
    match tree_trigger(ev, c) {
        Some(t) => card_answers(c, t),
        None => Seq::empty(),
    }
}

/// The engine after one answer in the trigger tree was queued: a delayed effect is scheduled,
/// any other goes on the stack with priority 1.
pub open spec fn tree_queue_one(g: GreV, src: CardV, e: EffectV, controller: Player) -> GreV {
    match e {
        EffectV::Delayed { effect, phase, deps } => scheduled(g, *effect, phase, deps),
        _ => pushed(g, StackEntryV::TriggeredAbility { source: Some(src), effect: e, controller }, 1),
    }
}

/// The engine after the answers `es` of card `src` were queued in order (see `tree_queue_one`).
pub open spec fn tree_queue_all(g: GreV, src: CardV, es: Seq<EffectV>, controller: Player) -> GreV
    decreases es.len(),
{
    if es.len() == 0 {
        g
    } else {
        tree_queue_one(tree_queue_all(g, src, es.drop_last(), controller), src, es.last(), controller)
    }
}

/// Queueing answers in the trigger tree leaves the tracked permanents as they are.
pub proof fn lemma_tree_queue_frame(g: GreV, src: CardV, es: Seq<EffectV>, controller: Player)
    ensures
        tree_queue_all(g, src, es, controller).battlefield == g.battlefield,
        follows(g, tree_queue_all(g, src, es, controller)),
    decreases es.len(),
{
    if es.len() > 0 {
        lemma_tree_queue_frame(g, src, es.drop_last(), controller);
    }
}

/// The engine after the tracked permanent with identifier `card_id` (which is tracked) answered
/// an event: its answers are queued, and it is kept as it is afterwards.
#[verifier::opaque]
pub open spec fn tree_node(g: GreV, card_id: u64, ev: GameEventV, controller: Player) -> GreV {
    let c = card_of(g, card_id);
    let q = tree_queue_all(g, tree_card_after(ev, c), tree_answers(ev, c), controller);
    GreV { battlefield: map_insert(q.battlefield, card_id, tree_card_after(ev, c)), ..q }
}

/// The identifiers, as the cards carry them, of the tracked cards attached to `card_id`, in
/// order.
pub open spec fn attached_ids(s: Seq<(u64, CardV)>, card_id: u64) -> Seq<u64>
    decreases s.len(),
{
    if s.len() == 0 {
        Seq::empty()
    } else if s.last().1.attached_to == Some(card_id) {
        attached_ids(s.drop_last(), card_id).push(s.last().1.card_id)
    } else {
        attached_ids(s.drop_last(), card_id)
    }
}

/// The identifiers, as the cards carry them, of the tracked cards attached to nothing, in order.
pub open spec fn root_ids(s: Seq<(u64, CardV)>) -> Seq<u64>
    decreases s.len(),
{
    if s.len() == 0 {
        Seq::empty()
    } else if s.last().1.attached_to is None {
        root_ids(s.drop_last()).push(s.last().1.card_id)
    } else {
        root_ids(s.drop_last())
    }
}

/// The engine after an event was made known to the tracked permanent `card_id` and then, at
/// most `depth` attachments deep, to what is attached to it, depth first; nothing changes where
/// `card_id` is not tracked.
pub open spec fn tree_result(g: GreV, card_id: u64, ev: GameEventV, controller: Player, depth: nat) -> GreV
    decreases depth, 0nat,
{
    if !has_key(g.battlefield, card_id) {
        g
    } else {
        let g1 = tree_node(g, card_id, ev, controller);
        if depth == 0 {
            g1
        } else {
            forest_result(g1, attached_ids(g1.battlefield, card_id), ev, controller, (depth - 1) as nat)
        }
    }
}

/// The engine after `tree_result` for each identifier of `ids`, in order.
pub open spec fn forest_result(g: GreV, ids: Seq<u64>, ev: GameEventV, controller: Player, depth: nat) -> GreV
    decreases depth, ids.len() + 1,
{
    if ids.len() == 0 {
        g
    } else {
        tree_result(forest_result(g, ids.drop_last(), ev, controller, depth), ids.last(), ev, controller, depth)
    }
}

/// Whether two battlefields have the same shape: the same identifiers in the same places, on
/// cards that carry the same card identifiers and are attached to the same permanents.
pub open spec fn same_shape(s: Seq<(u64, CardV)>, t: Seq<(u64, CardV)>) -> bool {
    &&& s.len() == t.len()
    &&& forall|i: int|
        0 <= i < s.len() ==> (#[trigger] s[i]).0 == t[i].0 && s[i].1.card_id == t[i].1.card_id && s[i].1.attached_to
            == t[i].1.attached_to
}

/// Whether every chain of attachments that starts at a card of `ids` is at most `d` long: the
/// cards attached to each of them are, with `d - 1`, and a card may have cards attached to it
/// only where `d` is positive.
pub open spec fn chains_within(s: Seq<(u64, CardV)>, ids: Seq<u64>, d: nat) -> bool
    decreases d, ids.len(),
{
    if ids.len() == 0 {
        true
    } else {
        &&& chains_within(s, ids.drop_last(), d)
        &&& (attached_ids(s, ids.last()).len() == 0 || (d > 0 && chains_within(
            s,
            attached_ids(s, ids.last()),
            (d - 1) as nat,
        )))
    }
}

/// Answering an event keeps the shape of the battlefield.
proof fn lemma_node_shape(g: GreV, card_id: u64, ev: GameEventV, controller: Player)
    requires
        has_key(g.battlefield, card_id),
    ensures
        same_shape(g.battlefield, tree_node(g, card_id, ev, controller).battlefield),
{
    reveal(tree_node);
    let c = card_of(g, card_id);
    lemma_tree_queue_frame(g, tree_card_after(ev, c), tree_answers(ev, c), controller);
}

/// Walking a trigger tree keeps the shape of the battlefield.
proof fn lemma_tree_shape(g: GreV, card_id: u64, ev: GameEventV, controller: Player, d: nat)
    ensures
        same_shape(g.battlefield, tree_result(g, card_id, ev, controller, d).battlefield),
    decreases d, 0nat,
{
    if has_key(g.battlefield, card_id) {
        let g1 = tree_node(g, card_id, ev, controller);
        lemma_node_shape(g, card_id, ev, controller);
        if d > 0 {
            lemma_forest_shape(g1, attached_ids(g1.battlefield, card_id), ev, controller, (d - 1) as nat);
        }
    }
}

/// Walking trigger trees one after the other keeps the shape of the battlefield.
proof fn lemma_forest_shape(g: GreV, ids: Seq<u64>, ev: GameEventV, controller: Player, d: nat)
    ensures
        same_shape(g.battlefield, forest_result(g, ids, ev, controller, d).battlefield),
    decreases d, ids.len() + 1,
{
    if ids.len() > 0 {
        lemma_forest_shape(g, ids.drop_last(), ev, controller, d);
        lemma_tree_shape(forest_result(g, ids.drop_last(), ev, controller, d), ids.last(), ev, controller, d);
    }
}

/// Battlefields of the same shape have the same cards attached to each permanent.
proof fn lemma_attached_shape(s: Seq<(u64, CardV)>, t: Seq<(u64, CardV)>, card_id: u64)
    requires
        same_shape(s, t),
    ensures
        attached_ids(s, card_id) == attached_ids(t, card_id),
    decreases s.len(),
{
    if s.len() > 0 {
        assert(s.last() == s[s.len() - 1] && t.last() == t[t.len() - 1]);
        lemma_attached_shape(s.drop_last(), t.drop_last(), card_id);
    }
}

/// Battlefields of the same shape have the same chains of attachments.
proof fn lemma_chains_shape(s: Seq<(u64, CardV)>, t: Seq<(u64, CardV)>, ids: Seq<u64>, d: nat)
    requires
        same_shape(s, t),
    ensures
        chains_within(s, ids, d) == chains_within(t, ids, d),
    decreases d, ids.len(),
{
    if ids.len() > 0 {
        lemma_chains_shape(s, t, ids.drop_last(), d);
        lemma_attached_shape(s, t, ids.last());
        if d > 0 {
            lemma_chains_shape(s, t, attached_ids(s, ids.last()), (d - 1) as nat);
        }
    }
}

/// The chains from one card, as `chains_within` of the one-card sequence.
proof fn lemma_chains_one(s: Seq<(u64, CardV)>, card_id: u64, d: nat)
    ensures
        chains_within(s, seq![card_id], d) == (attached_ids(s, card_id).len() == 0 || (d > 0 && chains_within(
            s,
            attached_ids(s, card_id),
            (d - 1) as nat,
        ))),
{
    let one = seq![card_id];
    assert(one.drop_last() =~= Seq::<u64>::empty());
    assert(one.last() == card_id);
    assert(chains_within(s, one.drop_last(), d));
    assert(one.len() == 1);
}

/// Walking a trigger tree deeper than its longest chain of attachments changes nothing: where
/// every chain from `card_id` is at most `d` long, the walk at depth `d` is the walk at every
/// greater depth, so every card reachable from `card_id` answers (see `tree_result`).
pub proof fn lemma_tree_deep_enough(g: GreV, card_id: u64, ev: GameEventV, controller: Player, d: nat, d2: nat)
    requires
        chains_within(g.battlefield, seq![card_id], d),
        d <= d2,
    ensures
        tree_result(g, card_id, ev, controller, d) == tree_result(g, card_id, ev, controller, d2),
    decreases d, 0nat,
{
    if has_key(g.battlefield, card_id) {
        let g1 = tree_node(g, card_id, ev, controller);
        lemma_node_shape(g, card_id, ev, controller);
        lemma_attached_shape(g.battlefield, g1.battlefield, card_id);
        lemma_chains_one(g.battlefield, card_id, d);
        let a = attached_ids(g1.battlefield, card_id);
        if a.len() > 0 {
            lemma_chains_shape(g.battlefield, g1.battlefield, a, (d - 1) as nat);
            lemma_forest_deep_enough(g1, a, ev, controller, (d - 1) as nat, (d2 - 1) as nat);
        }
    }
}

/// Walking trigger trees one after the other deeper than their longest chain of attachments
/// changes nothing: where every chain from the cards of `ids` is at most `d` long, the walk at
/// depth `d` is the walk at every greater depth.
pub proof fn lemma_forest_deep_enough(g: GreV, ids: Seq<u64>, ev: GameEventV, controller: Player, d: nat, d2: nat)
    requires
        chains_within(g.battlefield, ids, d),
        d <= d2,
    ensures
        forest_result(g, ids, ev, controller, d) == forest_result(g, ids, ev, controller, d2),
    decreases d, ids.len() + 1,
{
    if ids.len() > 0 {
        lemma_forest_deep_enough(g, ids.drop_last(), ev, controller, d, d2);
        let m = forest_result(g, ids.drop_last(), ev, controller, d);
        lemma_forest_shape(g, ids.drop_last(), ev, controller, d);
        lemma_chains_one(g.battlefield, ids.last(), d);
        lemma_chains_shape(g.battlefield, m.battlefield, seq![ids.last()], d);
        lemma_tree_deep_enough(m, ids.last(), ev, controller, d, d2);
    }
}

/// Queueing changes only the stack, the delayed effects and the counters.
pub proof fn lemma_enqueue_all_frame(g: GreV, b: Seq<(CardV, EffectV)>, c: Player)
    ensures
        follows(g, enqueue_all(g, b, c)),
        enqueue_all(g, b, c).battlefield == g.battlefield,
        enqueue_all(g, b, c).passes == g.passes,
    decreases b.len(),
{
    if b.len() > 0 {
        lemma_enqueue_all_frame(g, b.drop_last(), c);
    }
}

/// Stacking changes only the stack, the counters and the passes.
pub proof fn lemma_stack_all_frame(g: GreV, b: Seq<(CardV, EffectV)>, c: Player)
    ensures
        follows(g, stack_all(g, b, c)),
        stack_all(g, b, c).battlefield == g.battlefield,
    decreases b.len(),
{
    if b.len() > 0 {
        lemma_stack_all_frame(g, b.drop_last(), c);
    }
}

/// Appending answers to a batch extends its value.
proof fn lemma_pairs_view_push(s: Seq<(Card, Effect)>, c: Card, e: Effect)
    ensures
        pairs_view(s.push((c, e))) == pairs_view(s).push((c@, e@)),
{
    assert(pairs_view(s.push((c, e))) =~= pairs_view(s).push((c@, e@)));
}

impl Gre {
    /// Makes an event known: death triggers registered this turn for a creature that died run;
    /// a targeted permanent's "first time targeted" triggers go on the stack; mana and counter
    /// triggers of the tracked permanents are queued; and the answers of the cards handed in are
    /// queued after every player got their pass back.
    pub fn trigger_event(&mut self, event: GameEvent, battlefield: &mut Vec<Card>, controller: Player)
        requires
            old(self).wf(),
        ensures
            final(self).wf(),
            follows(old(self)@, final(self)@),
            cards_view(final(battlefield)@) == cards_after(cards_view(old(battlefield)@), event_trigger(event@)),
            !(event@ is CreatureDied || event@ is Targeted || event@ is ManaAdded || event@ is CounterAdded)
                ==> final(self)@ == handed_cards_result(old(self)@, cards_view(old(battlefield)@), event_trigger(event@), controller),
            event@ matches GameEventV::Targeted(tid) ==> final(self)@ == targeted_result(old(self)@, tid, controller),
            event@ matches GameEventV::CreatureDied(d) ==> final(self)@ == handed_cards_result(
                deaths_after(old(self)@, d, EFFECT_DEPTH as nat),
                cards_view(old(battlefield)@),
                event_trigger(event@),
                controller,
            ),
            event@ matches GameEventV::ManaAdded(id) ==> final(self)@ == handed_cards_result(
                mana_added_result(old(self)@, id, controller),
                cards_view(old(battlefield)@),
                event_trigger(event@),
                controller,
            ),
            event@ matches GameEventV::CounterAdded(id, n) ==> final(self)@ == handed_cards_result(
                counter_added_result(old(self)@, id, n, controller),
                cards_view(old(battlefield)@),
                event_trigger(event@),
                controller,
            ),
    {
        self.trigger_event_in(event, battlefield, controller, EFFECT_DEPTH)
    }

    /// `trigger_event`, following further effects at most `depth` deep.
    #[verifier::rlimit(60)]
    #[verifier::spinoff_prover]
    pub(crate) fn trigger_event_in(&mut self, event: GameEvent, battlefield: &mut Vec<Card>, controller: Player, depth: u32)
        requires
            old(self).wf(),
        ensures
            final(self).wf(),
            follows(old(self)@, final(self)@),
            cards_view(final(battlefield)@) == cards_after(cards_view(old(battlefield)@), event_trigger(event@)),
            !(event@ is CreatureDied || event@ is Targeted || event@ is ManaAdded || event@ is CounterAdded)
                ==> final(self)@ == handed_cards_result(old(self)@, cards_view(old(battlefield)@), event_trigger(event@), controller),
            event@ matches GameEventV::Targeted(tid) ==> final(self)@ == targeted_result(old(self)@, tid, controller),
            event@ matches GameEventV::CreatureDied(d) ==> final(self)@ == handed_cards_result(
                deaths_after(old(self)@, d, depth as nat),
                cards_view(old(battlefield)@),
                event_trigger(event@),
                controller,
            ),
            event@ matches GameEventV::ManaAdded(id) ==> final(self)@ == handed_cards_result(
                mana_added_result(old(self)@, id, controller),
                cards_view(old(battlefield)@),
                event_trigger(event@),
                controller,
            ),
            event@ matches GameEventV::CounterAdded(id, n) ==> final(self)@ == handed_cards_result(
                counter_added_result(old(self)@, id, n, controller),
                cards_view(old(battlefield)@),
                event_trigger(event@),
                controller,
            ),
        decreases depth, 1int,
    {
        let ghost g0 = self@;
        match &event {
            GameEvent::CreatureDied(died) => {
                self.run_death_triggers_in(died, depth);
            },
            GameEvent::Targeted(tid) => {
                self.fire_targeted(*tid, controller);
                proof {
                    lemma_stack_all_frame(
                        GreV { battlefield: map_after(g0.battlefield, *tid, targeted_trigger()), ..g0 },
                        map_batch(g0.battlefield, *tid, targeted_trigger()),
                        controller,
                    );
                }
            },
            GameEvent::ManaAdded(id) => {
                self.fire_mana_added(*id, controller);
            },
            GameEvent::CounterAdded(id, count) => {
                self.fire_counter_added(*id, *count, controller);
            },
            _ => {},
        }
        let ghost g1 = self@;
        proof {
            match event@ {
                GameEventV::CreatureDied(d) => {
                    assert(g1 == deaths_after(g0, d, depth as nat));
                },
                _ => {},
            }
        }
        let trig: Option<Trigger> = match &event {
            GameEvent::SpellResolved(_) => Some(Trigger::OnCastResolved),
            GameEvent::CreatureDied(_) => Some(Trigger::OnDeath { filter: TargetFilter::SelfCard }),
            GameEvent::TurnEnded => Some(Trigger::AtPhase { phase: GamePhase::End, player: PlayerSelector::AnyPlayer }),
            GameEvent::PhaseChange(p) => Some(Trigger::AtPhase { phase: *p, player: PlayerSelector::AnyPlayer }),
            _ => None,
        };
        let batch = answers_of_cards(battlefield, trig);
        self.reset_priority();
        let ghost g2 = self@;
        let ghost bv = pairs_view(batch@);
        self.enqueue_batch(batch, controller);
        proof {
            lemma_enqueue_all_frame(g2, bv, controller);
            if event@ matches GameEventV::Targeted(tid) {
                assert(trig is None);
                assert(batch_of(Seq::empty(), targeted_trigger()) =~= Seq::empty());
            }
        }
    }

    /// Runs the death triggers registered this turn for a creature that died, then forgets them.
    fn run_death_triggers_in(&mut self, died: &Card, depth: u32)
        requires
            old(self).wf(),
        ensures
            final(self).wf(),
            follows(old(self)@, final(self)@),
            final(self)@ == deaths_after(old(self)@, died@, depth as nat),
        decreases depth, 0int,
    {
        let ghost g_start = self@;
        let ghost dt0 = g_start.death_triggers;
        let mut to_trigger: Vec<Effect> = Vec::new();
        let mut indices: Vec<usize> = Vec::new();
        proof {
            assert(dt0.take(0) =~= Seq::<(CardV, EffectV)>::empty());
            assert(effects_view(to_trigger@) =~= Seq::<EffectV>::empty());
            assert(indices@.map_values(|x: usize| x as int) =~= Seq::<int>::empty());
        }
        let mut i: usize = 0;
        while i < self.death_triggers_this_turn.len()
            invariant
                i <= self.death_triggers_this_turn@.len(),
                self@ == g_start,
                dt0 == g_start.death_triggers,
                self.wf(),
                effects_view(to_trigger@) == death_effects(dt0.take(i as int), died@),
                indices@.map_values(|x: usize| x as int) == death_positions(dt0.take(i as int), died@),
            decreases self.death_triggers_this_turn.len() - i,
        {
            proof {
                assert(dt0.take(i as int + 1).drop_last() =~= dt0.take(i as int));
                assert(dt0.take(i as int + 1).last() == dt0[i as int]);
                assert(dt0[i as int] == (self.death_triggers_this_turn@[i as int].0@, self.death_triggers_this_turn@[i as int].1@));
            }
            if self.death_triggers_this_turn[i].0.card_id == died.card_id {
                let e = clone_effect(&self.death_triggers_this_turn[i].1);
                proof {
                    lemma_effects_view_push(to_trigger@, e);
                    assert(indices@.push(i).map_values(|x: usize| x as int) =~= indices@.map_values(|x: usize| x as int).push(i as int));
                }
                to_trigger.push(e);
                indices.push(i);
            }
            i += 1;
        }
        proof {
            assert(dt0.take(i as int) =~= dt0);
        }
        let ghost es = death_effects(dt0, died@);
        if depth > 0 {
            let ghost g0 = self@;
            proof {
                lemma_effects_view(to_trigger@);
                assert(es.take(0) =~= Seq::<EffectV>::empty());
            }
            let mut k: usize = 0;
            while k < to_trigger.len()
                invariant
                    self.wf(),
                    follows(g0, self@),
                    g0 == g_start,
                    depth > 0,
                    k <= to_trigger@.len(),
                    es == effects_view(to_trigger@),
                    es.len() == to_trigger@.len(),
                    forall|j: int| 0 <= j < to_trigger@.len() ==> #[trigger] es[j] == to_trigger@[j]@,
                    self@ == handle_all_result(g0, es.take(k as int), (depth - 1) as nat),
                decreases to_trigger.len() - k,
            {
                let e = clone_effect(&to_trigger[k]);
                let ghost m = self@;
                self.handle_effect_in(e, depth - 1);
                proof {
                    assert(es.take(k as int + 1).drop_last() =~= es.take(k as int));
                }
                k += 1;
            }
            proof {
                assert(es.take(k as int) =~= es);
            }
        }
        let ghost g2 = self@;
        let ghost ps = indices@.map_values(|x: usize| x as int);
        proof {
            if depth > 0 {
                assert(g2 == handle_all_result(g_start, es, (depth - 1) as nat));
            } else {
                assert(g2 == g_start);
            }
            assert(ps.take(indices@.len() as int) =~= ps);
        }
        let mut k: usize = indices.len();
        while k > 0
            invariant
                k <= indices@.len(),
                ps == indices@.map_values(|x: usize| x as int),
                self.wf(),
                follows(g_start, self@),
                self@ == (GreV { death_triggers: self@.death_triggers, ..g2 }),
                without_positions(self@.death_triggers, ps.take(k as int)) == without_positions(g2.death_triggers, ps),
            decreases k,
        {
            k -= 1;
            let idx = indices[k];
            let ghost before = self@.death_triggers;
            proof {
                assert(ps.take(k as int + 1).drop_last() =~= ps.take(k as int));
                assert(ps.take(k as int + 1).last() == idx as int);
            }
            if idx < self.death_triggers_this_turn.len() {
                let ghost v0 = self.death_triggers_this_turn@;
                self.death_triggers_this_turn.remove(idx);
                proof {
                    assert(death_triggers_view(self.death_triggers_this_turn@) =~= death_triggers_view(v0).remove(idx as int));
                }
            }
        }
        proof {
            assert(ps.take(0) =~= Seq::<int>::empty());
            assert(self@ =~= (GreV { death_triggers: without_positions(g2.death_triggers, death_positions(dt0, died@)), ..g2 }));
        }
    }

    /// Puts the "targeted the first time this turn" answers of the permanents with card
    /// identifier `tid` on the stack (see `targeted_result`).
    fn fire_targeted(&mut self, tid: u64, controller: Player)
        requires
            old(self).wf(),
        ensures
            final(self).wf(),
            final(self)@ == stack_all(
                GreV { battlefield: map_after(old(self)@.battlefield, tid, targeted_trigger()), ..old(self)@ },
                map_batch(old(self)@.battlefield, tid, targeted_trigger()),
                controller,
            ),
    {
        let ghost g0 = self@;
        let ghost s0 = g0.battlefield;
        let t = Trigger::OnTargetedFirstTimeEachTurn { filter: TargetFilter::SelfCard };
        let mut batch: Vec<(Card, Effect)> = Vec::new();
        let n = self.battlefield_creatures.len();
        let mut i: usize = 0;
        while i < n
            invariant
                n == s0.len(),
                i <= n,
                t == targeted_trigger(),
                self.wf(),
                self@ == (GreV { battlefield: self@.battlefield, ..g0 }),
                self@.battlefield.len() == n,
                forall|j: int| 0 <= j < i ==> #[trigger] self@.battlefield[j] == map_after(s0, tid, t)[j],
                forall|j: int| i <= j < n ==> #[trigger] self@.battlefield[j] == s0[j],
                pairs_view(batch@) == map_batch(s0.take(i as int), tid, t),
            decreases n - i,
        {
            let mut c = self.battlefield_creatures.card_at(i).clone();
            let ghost cv = c@;
            proof {
                assert(s0.take(i as int + 1).drop_last() =~= s0.take(i as int));
                assert(s0.take(i as int + 1).last() == s0[i as int]);
            }
            if c.card_id == tid {
                let effects = c.trigger_by(&t);
                proof {
                    lemma_effects_view(effects@);
                }
                let ghost before = batch@;
                let mut k: usize = 0;
                while k < effects.len()
                    invariant
                        k <= effects@.len(),
                        crate::app::card_attribute::effects_view(effects@) == card_answers(cv, t),
                        effects@.len() == card_answers(cv, t).len(),
                        forall|j: int| 0 <= j < effects@.len() ==> #[trigger] effects@[j]@ == card_answers(cv, t)[j],
                        c@ == card_after(cv, t),
                        pairs_view(batch@) == pairs_view(before) + answers_of(cv, t).take(k as int),
                    decreases effects.len() - k,
                {
                    let e = clone_effect(&effects[k]);
                    let cc = c.clone();
                    proof {
                        lemma_pairs_view_push(batch@, cc, e);
                        assert(answers_of(cv, t).take(k as int + 1) =~= answers_of(cv, t).take(k as int).push((cc@, e@)));
                    }
                    batch.push((cc, e));
                    k += 1;
                }
                proof {
                    assert(answers_of(cv, t).take(k as int) =~= answers_of(cv, t));
                }
                self.battlefield_creatures.set_at(i, c);
            }
            i += 1;
        }
        proof {
            assert(s0.take(n as int) =~= s0);
            assert(self@.battlefield =~= map_after(s0, tid, t));
        }
        let ghost g1 = self@;
        let ghost bv = pairs_view(batch@);
        let mut k: usize = 0;
        while k < batch.len()
            invariant
                k <= batch@.len(),
                bv == pairs_view(batch@),
                bv.len() == batch@.len(),
                self.wf(),
                self@ == stack_all(g1, bv.take(k as int), controller),
            decreases batch.len() - k,
        {
            let src = batch[k].0.clone();
            let e = clone_effect(&batch[k].1);
            proof {
                assert(bv.take(k as int + 1).drop_last() =~= bv.take(k as int));
                assert(bv[k as int] == (batch@[k as int].0@, batch@[k as int].1@));
            }
            self.push_to_stack(StackEntry::TriggeredAbility { source: Some(src), effect: e, controller });
            k += 1;
        }
        proof {
            assert(bv.take(k as int) =~= bv);
        }
    }

    /// Queues the "mana added" answers of the tracked permanents: the source's own, and every
    /// other permanent's "a creature you control added mana".
    fn fire_mana_added(&mut self, id: u64, controller: Player)
        requires
            old(self).wf(),
        ensures
            final(self).wf(),
            follows(old(self)@, final(self)@),
            final(self)@ == mana_added_result(old(self)@, id, controller),
    {
        proof {
            reveal(mana_added_result);
        }
        let ghost g0 = self@;
        let ghost s0 = g0.battlefield;
        let mut batch: Vec<(Card, Effect)> = Vec::new();
        let n = self.battlefield_creatures.len();
        proof {
            assert(pairs_view(batch@) =~= Seq::empty());
            assert(s0.take(0) =~= Seq::<(u64, CardV)>::empty());
        }
        let mut i: usize = 0;
        while i < n
            invariant
                self.wf(),
                n == s0.len(),
                self@.battlefield.len() == n,
                i <= n,
                self@ == (GreV { battlefield: self@.battlefield, ..g0 }),
                forall|j: int| 0 <= j < i ==> #[trigger] self@.battlefield[j] == mana_after(s0, id)[j],
                forall|j: int| i <= j < n ==> #[trigger] self@.battlefield[j] == s0[j],
                pairs_view(batch@) == mana_batch(s0.take(i as int), id),
            decreases n - i,
        {
            let mut c = self.battlefield_creatures.card_at(i).clone();
            let ghost cv = c@;
            let ghost t = mana_trigger(cv, id);
            proof {
                assert(s0.take(i as int + 1).drop_last() =~= s0.take(i as int));
                assert(s0.take(i as int + 1).last() == s0[i as int]);
            }
            if c.card_id == id {
                let effects = c.trigger_by(&Trigger::OnAddMana { filter: TargetFilter::SelfCard });
                push_answers(&mut batch, &c, &effects);
                proof {
                    lemma_effects_view(effects@);
                    assert(Seq::new(effects@.len(), |j: int| (c@, effects@[j]@)) =~= answers_of(cv, t));
                }
            }
            if c.card_id != id {
                let effects = c.trigger_by(&Trigger::OnAddMana { filter: TargetFilter::ControllerCreature });
                push_answers(&mut batch, &c, &effects);
                proof {
                    lemma_effects_view(effects@);
                    assert(Seq::new(effects@.len(), |j: int| (c@, effects@[j]@)) =~= answers_of(cv, t));
                }
            }
            proof {
                assert(c@ == card_after(cv, t));
            }
            self.battlefield_creatures.set_at(i, c);
            i += 1;
        }
        proof {
            assert(s0.take(n as int) =~= s0);
            assert(self@.battlefield =~= mana_after(s0, id));
        }
        let ghost g1 = self@;
        self.enqueue_batch(batch, controller);
        proof {
            lemma_enqueue_all_frame(g1, pairs_view(batch@), controller);
        }
    }

    /// Queues the "counter added" answers of the tracked permanents: the permanent's own, and,
    /// where it is tracked, every permanent's "a creature you control got a counter"; a
    /// "draw as many cards" answer draws `count` cards.
    fn fire_counter_added(&mut self, id: u64, count: u32, controller: Player)
        requires
            old(self).wf(),
        ensures
            final(self).wf(),
            follows(old(self)@, final(self)@),
            final(self)@ == counter_added_result(old(self)@, id, count, controller),
    {
        proof {
            reveal(counter_added_result);
        }
        let ghost g0 = self@;
        let ghost s0 = g0.battlefield;
        let tracked_id = self.battlefield_creatures.contains_key(id);
        let mut batch: Vec<(Card, Effect)> = Vec::new();
        let n = self.battlefield_creatures.len();
        proof {
            assert(pairs_view(batch@) =~= Seq::empty());
            assert(s0.take(0) =~= Seq::<(u64, CardV)>::empty());
        }
        let mut i: usize = 0;
        while i < n
            invariant
                self.wf(),
                n == s0.len(),
                tracked_id == has_key(s0, id),
                self@.battlefield.len() == n,
                i <= n,
                self@ == (GreV { battlefield: self@.battlefield, ..g0 }),
                forall|j: int| 0 <= j < i ==> #[trigger] self@.battlefield[j] == counter_after(s0, id, tracked_id)[j],
                forall|j: int| i <= j < n ==> #[trigger] self@.battlefield[j] == s0[j],
                pairs_view(batch@) == counter_batch(s0.take(i as int), id, tracked_id),
            decreases n - i,
        {
            let mut c = self.battlefield_creatures.card_at(i).clone();
            let ghost cv = c@;
            let ghost b0 = pairs_view(batch@);
            proof {
                assert(s0.take(i as int + 1).drop_last() =~= s0.take(i as int));
                assert(s0.take(i as int + 1).last() == s0[i as int]);
            }
            if c.card_id == id {
                let effects = c.trigger_by(&Trigger::OnCounterAdded { filter: TargetFilter::SelfCard });
                push_answers(&mut batch, &c, &effects);
                proof {
                    lemma_effects_view(effects@);
                    assert(Seq::new(effects@.len(), |j: int| (c@, effects@[j]@)) =~= answers_of(
                        cv,
                        Trigger::OnCounterAdded { filter: TargetFilter::SelfCard },
                    ));
                }
            }
            let ghost b1 = pairs_view(batch@);
            let ghost cv1 = c@;
            proof {
                assert(cv1 == counter_self_after(cv, id));
                assert(b1 == b0 + (if cv.card_id == id {
                    answers_of(cv, Trigger::OnCounterAdded { filter: TargetFilter::SelfCard })
                } else {
                    Seq::empty()
                })) by {
                    if cv.card_id != id {
                        assert(b1 =~= b0 + Seq::<(CardV, EffectV)>::empty());
                    }
                }
            }
            if tracked_id {
                let effects = c.trigger_by(&Trigger::OnCounterAdded { filter: TargetFilter::ControllerCreature });
                push_answers(&mut batch, &c, &effects);
                proof {
                    lemma_effects_view(effects@);
                    assert(Seq::new(effects@.len(), |j: int| (c@, effects@[j]@)) =~= answers_of(
                        cv1,
                        Trigger::OnCounterAdded { filter: TargetFilter::ControllerCreature },
                    ));
                }
            }
            proof {
                assert(c@ == counter_card_after(cv, id, tracked_id));
                if !tracked_id {
                    assert(pairs_view(batch@) =~= b1 + Seq::<(CardV, EffectV)>::empty());
                }
                assert(pairs_view(batch@) =~= b0 + counter_card_answers(cv, id, tracked_id));
            }
            self.battlefield_creatures.set_at(i, c);
            i += 1;
        }
        proof {
            assert(s0.take(n as int) =~= s0);
            assert(self@.battlefield =~= counter_after(s0, id, tracked_id));
        }
        let ghost bv = pairs_view(batch@);
        let mut converted: Vec<(Card, Effect)> = Vec::new();
        proof {
            assert(pairs_view(converted@) =~= counted_all(bv, count).take(0));
        }
        let mut k: usize = 0;
        while k < batch.len()
            invariant
                k <= batch@.len(),
                bv == pairs_view(batch@),
                bv.len() == batch@.len(),
                pairs_view(converted@) == counted_all(bv, count).take(k as int),
            decreases batch.len() - k,
        {
            let src = batch[k].0.clone();
            let e = match &batch[k].1 {
                Effect::DrawCardsCounted => Effect::DrawCards { count, player: PlayerSelector::Controller },
                other => clone_effect(other),
            };
            proof {
                assert(bv[k as int] == (batch@[k as int].0@, batch@[k as int].1@));
                assert(e@ == counted(batch@[k as int].1@, count));
                lemma_pairs_view_push(converted@, src, e);
                assert(counted_all(bv, count).take(k as int + 1) =~= counted_all(bv, count).take(k as int).push((src@, e@)));
            }
            converted.push((src, e));
            k += 1;
        }
        proof {
            assert(counted_all(bv, count).take(k as int) =~= counted_all(bv, count));
        }
        let ghost g1 = self@;
        let ghost cv = pairs_view(converted@);
        self.enqueue_batch(converted, controller);
        proof {
            lemma_enqueue_all_frame(g1, cv, controller);
        }
    }

    /// Queues a batch of triggered effects in order (see `enqueue_all`).
    fn enqueue_batch(&mut self, batch: Vec<(Card, Effect)>, controller: Player)
        requires
            old(self).wf(),
        ensures
            final(self).wf(),
            final(self)@ == enqueue_all(old(self)@, pairs_view(batch@), controller),
    {
        let ghost g0 = self@;
        let ghost bv = pairs_view(batch@);
        let mut k: usize = 0;
        while k < batch.len()
            invariant
                k <= batch@.len(),
                bv == pairs_view(batch@),
                bv.len() == batch@.len(),
                self.wf(),
                self@ == enqueue_all(g0, bv.take(k as int), controller),
            decreases batch.len() - k,
        {
            let src = batch[k].0.clone();
            let e = clone_effect(&batch[k].1);
            proof {
                assert(bv.take(k as int + 1).drop_last() =~= bv.take(k as int));
                assert(bv[k as int] == (batch@[k as int].0@, batch@[k as int].1@));
            }
            self.enqueue(src, e, controller);
            k += 1;
        }
        proof {
            assert(bv.take(k as int) =~= bv);
        }
    }

    /// Queues one triggered effect (see `enqueue_one`).
    fn enqueue(&mut self, source: Card, eff: Effect, controller: Player)
        requires
            old(self).wf(),
        ensures
            final(self).wf(),
            final(self)@ == enqueue_one(old(self)@, source@, eff@, controller),
    {
        match eff {
            Effect::Delayed { effect, phase, deps } => {
                self.schedule_delayed(*effect, phase, deps);
            },
            e => {
                let prio: u8 = match &e {
                    Effect::ModifyStats { .. } => 2,
                    Effect::Proliferate { .. } => 2,
                    _ => 1,
                };
                self.push(StackEntry::TriggeredAbility { source: Some(source), effect: e, controller }, prio);
            },
        }
    }
}

/// Appends a card's answers to a batch, each paired with a copy of the card.
fn push_answers(batch: &mut Vec<(Card, Effect)>, c: &Card, effects: &Vec<Effect>)
    ensures
        pairs_view(final(batch)@) == pairs_view(old(batch)@) + Seq::new(
            effects@.len(),
            |j: int| (c@, effects@[j]@),
        ),
{
    let ghost b0 = batch@;
    let mut k: usize = 0;
    while k < effects.len()
        invariant
            k <= effects@.len(),
            pairs_view(batch@) == pairs_view(b0) + Seq::new(k as nat, |j: int| (c@, effects@[j]@)),
        decreases effects.len() - k,
    {
        let cc = c.clone();
        let e = clone_effect(&effects[k]);
        proof {
            lemma_pairs_view_push(batch@, cc, e);
            assert(pairs_view(b0) + Seq::new((k + 1) as nat, |j: int| (c@, effects@[j]@)) =~= (
            pairs_view(b0) + Seq::new(k as nat, |j: int| (c@, effects@[j]@))).push((cc@, e@)));
        }
        batch.push((cc, e));
        k += 1;
    }
}

/// Runs the handed cards against a trigger, collecting each answer with the card as it is
/// afterwards (see `batch_of`); without a trigger nothing answers.
fn answers_of_cards(cards: &mut Vec<Card>, t: Option<Trigger>) -> (r: Vec<(Card, Effect)>)
    ensures
        cards_view(final(cards)@) == cards_after(cards_view(old(cards)@), t),
        pairs_view(r@) == match t {
            Some(t) => batch_of(cards_view(old(cards)@), t),
            None => Seq::empty(),
        },
{
    let mut batch: Vec<(Card, Effect)> = Vec::new();
    match t {
        None => {
            proof {
                assert(pairs_view(batch@) =~= Seq::empty());
            }
            batch
        },
        Some(t) => {
            let ghost s0 = cards_view(cards@);
            let n = cards.len();
            proof {
                assert(pairs_view(batch@) =~= Seq::empty());
                assert(s0.take(0) =~= Seq::empty());
            }
            let mut i: usize = 0;
            while i < n
                invariant
                    n == s0.len(),
                    i <= n,
                    cards@.len() == n,
                    forall|j: int| 0 <= j < i ==> #[trigger] cards@[j]@ == card_after(s0[j], t),
                    forall|j: int| i <= j < n ==> #[trigger] cards@[j]@ == s0[j],
                    pairs_view(batch@) == batch_of(s0.take(i as int), t),
                decreases n - i,
            {
                let mut c = cards[i].clone();
                let ghost cv = c@;
                let effects = c.trigger_by(&t);
                proof {
                    lemma_effects_view(effects@);
                    assert(s0.take(i as int + 1).drop_last() =~= s0.take(i as int));
                    assert(s0.take(i as int + 1).last() == cv);
                }
                let ghost before = batch@;
                let mut k: usize = 0;
                while k < effects.len()
                    invariant
                        k <= effects@.len(),
                        effects@.len() == card_answers(cv, t).len(),
                        forall|j: int| 0 <= j < effects@.len() ==> #[trigger] effects@[j]@ == card_answers(cv, t)[j],
                        c@ == card_after(cv, t),
                        pairs_view(batch@) == pairs_view(before) + answers_of(cv, t).take(k as int),
                    decreases effects.len() - k,
                {
                    let e = clone_effect(&effects[k]);
                    let cc = c.clone();
                    proof {
                        lemma_pairs_view_push(batch@, cc, e);
                        assert(answers_of(cv, t).take(k as int + 1) =~= answers_of(cv, t).take(k as int).push((cc@, e@)));
                    }
                    batch.push((cc, e));
                    k += 1;
                }
                proof {
                    assert(answers_of(cv, t).take(k as int) =~= answers_of(cv, t));
                }
                cards.set(i, c);
                i += 1;
            }
            proof {
                assert(s0.take(n as int) =~= s0);
                assert(cards_view(cards@) =~= cards_after(s0, Some(t)));
            }
            batch
        },
    }
}

impl Gre {
    /// Makes an event known to the tracked permanents, tree by tree: each permanent attached to
    /// nothing, then what is attached to it, and so on; then every player gets their pass back.
    /// Where no chain of attachments is longer than `EFFECT_DEPTH`, every permanent reachable
    /// from a root answers: the walk is the walk at any depth that covers every chain.
    pub fn trigger_event_tree(&mut self, event: GameEvent, controller: Player)
        requires
            old(self).wf(),
        ensures
            final(self).wf(),
            follows(old(self)@, final(self)@),
            final(self).passes == 0,
            final(self)@ == (GreV {
                passes: 0,
                ..forest_result(old(self)@, root_ids(old(self)@.battlefield), event@, controller, EFFECT_DEPTH as nat)
            }),
            forall|d: nat|
                d <= EFFECT_DEPTH && #[trigger] chains_within(old(self)@.battlefield, root_ids(old(self)@.battlefield), d)
                    ==> final(self)@ == (GreV {
                    passes: 0,
                    ..forest_result(old(self)@, root_ids(old(self)@.battlefield), event@, controller, d)
                }),
    {
        let ghost g0 = self@;
        let n = self.battlefield_creatures.len();
        let mut roots: Vec<u64> = Vec::new();
        proof {
            assert(g0.battlefield.take(0) =~= Seq::<(u64, CardV)>::empty());
        }
        let mut i: usize = 0;
        while i < n
            invariant
                i <= n,
                n == self@.battlefield.len(),
                self@ == g0,
                roots@ == root_ids(g0.battlefield.take(i as int)),
            decreases n - i,
        {
            let c = self.battlefield_creatures.card_at(i);
            proof {
                assert(g0.battlefield.take(i as int + 1).drop_last() =~= g0.battlefield.take(i as int));
                assert(g0.battlefield.take(i as int + 1).last() == g0.battlefield[i as int]);
            }
            if c.attached_to.is_none() {
                roots.push(c.card_id);
            }
            i += 1;
        }
        let ghost ids = roots@;
        proof {
            assert(g0.battlefield.take(n as int) =~= g0.battlefield);
            assert(ids.take(0) =~= Seq::<u64>::empty());
        }
        let mut k: usize = 0;
        while k < roots.len()
            invariant
                self.wf(),
                follows(g0, self@),
                k <= ids.len(),
                ids == roots@,
                self@ == forest_result(g0, ids.take(k as int), event@, controller, EFFECT_DEPTH as nat),
            decreases roots.len() - k,
        {
            proof {
                assert(ids.take(k as int + 1).drop_last() =~= ids.take(k as int));
                assert(ids.take(k as int + 1).last() == ids[k as int]);
            }
            self.traverse_trigger_tree_in(roots[k], &event, controller, EFFECT_DEPTH);
            k += 1;
        }
        proof {
            assert(ids.take(k as int) =~= ids);
            assert forall|d: nat|
                d <= EFFECT_DEPTH && #[trigger] chains_within(g0.battlefield, root_ids(g0.battlefield), d) implies forest_result(
                g0,
                root_ids(g0.battlefield),
                event@,
                controller,
                d,
            ) == forest_result(g0, root_ids(g0.battlefield), event@, controller, EFFECT_DEPTH as nat) by {
                lemma_forest_deep_enough(g0, root_ids(g0.battlefield), event@, controller, d, EFFECT_DEPTH as nat);
            }
        }
        self.reset_priority();
    }

    /// Makes an event known to the tracked permanent with card identifier `card_id` and then to
    /// everything attached to it, depth first.
    pub fn traverse_trigger_tree(&mut self, card_id: u64, event: &GameEvent, controller: Player)
        requires
            old(self).wf(),
        ensures
            final(self).wf(),
            follows(old(self)@, final(self)@),
            final(self)@ == tree_result(old(self)@, card_id, event@, controller, EFFECT_DEPTH as nat),
    {
        self.traverse_trigger_tree_in(card_id, event, controller, EFFECT_DEPTH)
    }

    /// `traverse_trigger_tree`, going at most `depth` attachments deep.
    #[verifier::spinoff_prover]
    #[verifier::rlimit(60)]
    fn traverse_trigger_tree_in(&mut self, card_id: u64, event: &GameEvent, controller: Player, depth: u32)
        requires
            old(self).wf(),
        ensures
            final(self).wf(),
            follows(old(self)@, final(self)@),
            final(self)@ == tree_result(old(self)@, card_id, event@, controller, depth as nat),
        decreases depth,
    {
        let ghost g = self@;
        let pos = self.battlefield_creatures.position(card_id);
        let i = match pos {
            Some(i) => i,
            None => {
                return;
            },
        };
        proof {
            lemma_index_of(g.battlefield, card_id, i as int);
        }
        let mut card = self.battlefield_creatures.card_at(i).clone();
        let ghost c0 = card@;
        let triggered = Gre::event_to_triggers(event, &mut card);
        let ghost c2 = card@;
        let ghost es = effects_view(triggered@);
        proof {
            lemma_effects_view(triggered@);
            assert(c0 == card_of(g, card_id));
            assert(c2 == tree_card_after(event@, c0));
            if tree_trigger(event@, c0) is None {
                assert(es =~= Seq::<EffectV>::empty());
            }
            assert(es == tree_answers(event@, c0));
            assert(es.take(0) =~= Seq::<EffectV>::empty());
        }
        let mut k: usize = 0;
        let ghost g0 = self@;
        while k < triggered.len()
            invariant
                self.wf(),
                follows(g0, self@),
                g0 == g,
                k <= triggered@.len(),
                es == effects_view(triggered@),
                es.len() == triggered@.len(),
                forall|j: int| 0 <= j < triggered@.len() ==> #[trigger] es[j] == triggered@[j]@,
                card@ == c2,
                self@ == tree_queue_all(g, c2, es.take(k as int), controller),
            decreases triggered.len() - k,
        {
            let e = clone_effect(&triggered[k]);
            proof {
                assert(es.take(k as int + 1).drop_last() =~= es.take(k as int));
                assert(es.take(k as int + 1).last() == e@);
            }
            match e {
                Effect::Delayed { effect, phase, deps } => {
                    self.schedule_delayed(*effect, phase, deps);
                },
                other => {
                    let src = card.clone();
                    self.push(StackEntry::TriggeredAbility { source: Some(src), effect: other, controller }, 1);
                },
            }
            k += 1;
        }
        proof {
            assert(es.take(k as int) =~= es);
            lemma_tree_queue_frame(g, c2, es, controller);
        }
        let ghost q = self@;
        let old_card = self.battlefield_creatures.insert(card_id, card);
        assert(self@ == tree_node(g, card_id, event@, controller)) by {
            reveal(tree_node);
            match old_card {
                Some(_) => {
                    let r = choose|r: int| 0 <= r < q.battlefield.len() && q.battlefield[r].0 == card_id
                        && self@.battlefield == q.battlefield.update(r, (card_id, c2));
                    lemma_index_of(q.battlefield, card_id, r);
                },
                None => {},
            }
        }
        let ghost g1 = self@;
        let n = self.battlefield_creatures.len();
        let mut child_ids: Vec<u64> = Vec::new();
        proof {
            assert(g1.battlefield.take(0) =~= Seq::<(u64, CardV)>::empty());
        }
        let mut j: usize = 0;
        while j < n
            invariant
                j <= n,
                n == self@.battlefield.len(),
                self@ == g1,
                child_ids@ == attached_ids(g1.battlefield.take(j as int), card_id),
            decreases n - j,
        {
            let c = self.battlefield_creatures.card_at(j);
            proof {
                assert(g1.battlefield.take(j as int + 1).drop_last() =~= g1.battlefield.take(j as int));
                assert(g1.battlefield.take(j as int + 1).last() == g1.battlefield[j as int]);
            }
            if c.attached_to == Some(card_id) {
                child_ids.push(c.card_id);
            }
            j += 1;
        }
        proof {
            assert(g1.battlefield.take(n as int) =~= g1.battlefield);
        }
        if depth == 0 {
            return;
        }
        let ghost ids = child_ids@;
        proof {
            assert(ids.take(0) =~= Seq::<u64>::empty());
        }
        let mut k: usize = 0;
        while k < child_ids.len()
            invariant
                self.wf(),
                follows(g1, self@),
                depth > 0,
                k <= ids.len(),
                ids == child_ids@,
                self@ == forest_result(g1, ids.take(k as int), event@, controller, (depth - 1) as nat),
            decreases child_ids.len() - k,
        {
            proof {
                assert(ids.take(k as int + 1).drop_last() =~= ids.take(k as int));
                assert(ids.take(k as int + 1).last() == ids[k as int]);
            }
            self.traverse_trigger_tree_in(child_ids[k], event, controller, depth - 1);
            k += 1;
        }
        proof {
            assert(ids.take(k as int) =~= ids);
        }
    }

    /// What a card answers to an event: cast resolutions, its own death, the end of the turn
    /// and phase changes fire its triggers; other events fire nothing.
    fn event_to_triggers(event: &GameEvent, card: &mut Card) -> (r: Vec<Effect>)
        ensures
            ({
                let t = match event@ {
                    GameEventV::CreatureDied(d) => if d.card_id == old(card)@.card_id { event_trigger(event@) } else { None },
                    _ => event_trigger(event@),
                };
                match t {
                    Some(t) => crate::app::card_attribute::effects_view(r@) == card_answers(old(card)@, t) && final(card)@
                        == card_after(old(card)@, t),
                    None => r@.len() == 0 && final(card)@ == old(card)@,
                }
            }),
    {
        match event {
            GameEvent::SpellResolved(_) => card.trigger_by(&Trigger::OnCastResolved),
            GameEvent::CreatureDied(died) => {
                if died.card_id == card.card_id {
                    card.trigger_by(&Trigger::OnDeath { filter: TargetFilter::SelfCard })
                } else {
                    Vec::new()
                }
            },
            GameEvent::TurnEnded => card.trigger_by(
                &Trigger::AtPhase { phase: GamePhase::End, player: PlayerSelector::AnyPlayer },
            ),
            GameEvent::PhaseChange(p) => card.trigger_by(&Trigger::AtPhase { phase: *p, player: PlayerSelector::AnyPlayer }),
            _ => Vec::new(),
        }
    }
}


/// A queued triggered ability goes on the stack with priority 2 when its effect changes
/// statistics or proliferates, and with priority 1 otherwise; it takes the next sequence number
/// and nothing else on the stack changes. A delayed effect is scheduled instead, leaving the
/// stack as it is.
pub proof fn lemma_enqueue_priority(g: GreV, src: CardV, e: EffectV, controller: Player)
    ensures
        !(e is Delayed) ==> enqueue_one(g, src, e, controller).stack == g.stack.push(
            PriorityEntryV {
                priority: if e is ModifyStats || e is Proliferate { 2u8 } else { 1u8 },
                sequence: g.sequence,
                entry: StackEntryV::TriggeredAbility { source: Some(src), effect: e, controller },
            },
        ),
        e is Delayed ==> enqueue_one(g, src, e, controller).stack == g.stack,
{
}

} // verus!
