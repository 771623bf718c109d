use vstd::prelude::*;

use std::collections::HashMap;

use crate::app::card_attribute::{KeywordAbility, PlayerSelector};
use crate::app::card_library::{clone_abilities, Creature, CreatureV};

verus! {

broadcast use vstd::std_specs::hash::group_hash_axioms;

/// Whether a value is an `i32`.
pub open spec fn in_i32(x: int) -> bool {
    i32::MIN <= x <= i32::MAX
}

/// The running state of a combat: damage taken by each creature, damage dealt by each
/// creature, damage that reached the defending player, and whether every intermediate value so
/// far was an `i32`.
pub struct CombatState {
    pub dmg: Seq<int>,
    pub dealt: Seq<int>,
    pub unblocked: int,
    pub ok: bool,
}

/// Whether creature `i` has keyword `k`.
pub open spec fn has_kw(cs: Seq<CreatureV>, i: int, k: KeywordAbility) -> bool {
    cs[i].abilities.contains(k)
}

/// Whether creature `i` deals first-strike damage (first strike or double strike).
pub open spec fn strikes_first(cs: Seq<CreatureV>, i: int) -> bool {
    has_kw(cs, i, KeywordAbility::FirstStrike) || has_kw(cs, i, KeywordAbility::DoubleStrike)
}

/// Whether creature `i` deals only first-strike damage.
pub open spec fn first_strike_only(cs: Seq<CreatureV>, i: int) -> bool {
    has_kw(cs, i, KeywordAbility::FirstStrike) && !has_kw(cs, i, KeywordAbility::DoubleStrike)
}

pub open spec fn min_i(a: int, b: int) -> int {
    if a <= b { a } else { b }
}

/// An attacker with `rem0` damage to assign, after the first `k` of its blockers: each blocker in
/// order takes what it still needs to die (1 with deathtouch), until the damage runs out.
pub open spec fn assign_upto(
    cs: Seq<CreatureV>,
    st: CombatState,
    atk: int,
    blockers: Seq<int>,
    rem0: int,
    k: nat,
) -> (CombatState, int)
    decreases k,
{
    if k == 0 {
        (st, rem0)
    } else {
        let (s, rem) = assign_upto(cs, st, atk, blockers, rem0, (k - 1) as nat);
        if rem <= 0 {
            (s, rem)
        } else {
            let blk = blockers[k - 1];
            let needed = if has_kw(cs, atk, KeywordAbility::Deathtouch) {
                1
            } else {
                cs[blk].toughness - s.dmg[blk]
            };
            let d = min_i(rem, needed);
            let nd = s.dmg[blk] + d;
            let na = s.dealt[atk] + d;
            let nrem = rem - d;
            (
                CombatState {
                    dmg: s.dmg.update(blk, nd),
                    dealt: s.dealt.update(atk, na),
                    unblocked: s.unblocked,
                    ok: s.ok && in_i32(needed) && in_i32(nd) && in_i32(na) && in_i32(nrem),
                },
                nrem,
            )
        }
    }
}

/// Whether blocker `blk` strikes back in the first-strike step (`first`) or in the regular step.
pub open spec fn blocker_strikes(cs: Seq<CreatureV>, blk: int, first: bool) -> bool {
    if first { strikes_first(cs, blk) } else { !first_strike_only(cs, blk) }
}

/// The attacker after the first `k` of its blockers that strike in this step have hit it.
pub open spec fn hit_upto(
    cs: Seq<CreatureV>,
    st: CombatState,
    atk: int,
    blockers: Seq<int>,
    first: bool,
    k: nat,
) -> CombatState
    decreases k,
{
    if k == 0 {
        st
    } else {
        let s = hit_upto(cs, st, atk, blockers, first, (k - 1) as nat);
        let blk = blockers[k - 1];
        if blocker_strikes(cs, blk, first) {
            let nd = s.dmg[atk] + cs[blk].power;
            let nb = s.dealt[blk] + cs[blk].power;
            CombatState {
                dmg: s.dmg.update(atk, nd),
                dealt: s.dealt.update(blk, nb),
                unblocked: s.unblocked,
                ok: s.ok && in_i32(nd) && in_i32(nb),
            }
        } else {
            s
        }
    }
}

/// Whether the attacker deals damage in this step.
pub open spec fn attacker_strikes(cs: Seq<CreatureV>, atk: int, first: bool) -> bool {
    if first { strikes_first(cs, atk) } else { !first_strike_only(cs, atk) }
}

/// One combat group (an attacker and its blockers) in one damage step.
pub open spec fn group_step(cs: Seq<CreatureV>, st: CombatState, atk: int, blockers: Seq<int>, first: bool) -> CombatState {
    let st1 = if attacker_strikes(cs, atk, first) {
        if blockers.len() == 0 {
            let nu = st.unblocked + cs[atk].power;
            let na = st.dealt[atk] + cs[atk].power;
            CombatState { dmg: st.dmg, dealt: st.dealt.update(atk, na), unblocked: nu, ok: st.ok && in_i32(nu) && in_i32(na) }
        } else {
            assign_upto(cs, st, atk, blockers, cs[atk].power as int, blockers.len()).0
        }
    } else {
        st
    };
    hit_upto(cs, st1, atk, blockers, first, blockers.len())
}

/// The state after the first `n` groups of one damage step.
pub open spec fn step_upto(
    cs: Seq<CreatureV>,
    st: CombatState,
    groups: Seq<(int, Seq<int>)>,
    first: bool,
    n: nat,
) -> CombatState
    decreases n,
{
    if n == 0 {
        st
    } else {
        let s = step_upto(cs, st, groups, first, (n - 1) as nat);
        group_step(cs, s, groups[n - 1].0, groups[n - 1].1, first)
    }
}

/// The blockers of an attacker: those the block map gives it, shifted past the attacking side.
pub open spec fn blockers_of(blocks: Map<usize, Vec<usize>>, atk: usize, offset: int) -> Seq<int> {
    if blocks.contains_key(atk) {
        blocks[atk]@.map_values(|b: usize| offset + b)
    } else {
        Seq::empty()
    }
}

/// The combat groups: each attacker in order, with its blockers.
pub open spec fn groups_of(attackers: Seq<usize>, blocks: Map<usize, Vec<usize>>, offset: int) -> Seq<(int, Seq<int>)> {
    attackers.map_values(|a: usize| (a as int, blockers_of(blocks, a, offset)))
}

/// Damage taken after both damage steps, starting from no damage.
pub open spec fn combat_end(cs: Seq<CreatureV>, groups: Seq<(int, Seq<int>)>) -> CombatState {
    let start = CombatState { dmg: Seq::new(cs.len(), |i: int| 0), dealt: Seq::new(cs.len(), |i: int| 0), unblocked: 0, ok: true };
    let s1 = step_upto(cs, start, groups, true, groups.len());
    step_upto(cs, s1, groups, false, groups.len())
}

/// Damage dealt by lifelink creatures among the first `n` (`dealt` holds each creature's damage
/// dealt), and whether every partial sum is an `i32`.
pub open spec fn lifelink_upto(cs: Seq<CreatureV>, dmg: Seq<int>, n: nat) -> (int, bool)
    decreases n,
{
    if n == 0 {
        (0, true)
    } else {
        let (s, ok) = lifelink_upto(cs, dmg, (n - 1) as nat);
        if has_kw(cs, n - 1, KeywordAbility::Lifelink) {
            (s + dmg[n - 1], ok && in_i32(s + dmg[n - 1]))
        } else {
            (s, ok)
        }
    }
}

/// With no attackers declared, no creature takes damage, no damage reaches the defending player,
/// every value stays an `i32`, and lifelink gains nothing.
pub proof fn lemma_no_attackers(cs: Seq<CreatureV>)
    ensures
        combat_end(cs, Seq::empty()).dmg == Seq::new(cs.len(), |i: int| 0int),
        combat_end(cs, Seq::empty()).dealt == Seq::new(cs.len(), |i: int| 0int),
        combat_end(cs, Seq::empty()).unblocked == 0,
        combat_fits(cs, Seq::empty()),
        lifelink_upto(cs, Seq::new(cs.len(), |i: int| 0int), cs.len()) == (0int, true),
{
    let zeros = Seq::new(cs.len(), |i: int| 0int);
    lemma_lifelink_of_zeros(cs, zeros, cs.len());
}

/// Lifelink over no damage gains nothing, and every partial sum is an `i32`.
proof fn lemma_lifelink_of_zeros(cs: Seq<CreatureV>, dmg: Seq<int>, n: nat)
    requires
        n <= dmg.len(),
        forall|i: int| 0 <= i < dmg.len() ==> dmg[i] == 0,
    ensures
        lifelink_upto(cs, dmg, n) == (0int, true),
    decreases n,
{
    if n > 0 {
        lemma_lifelink_of_zeros(cs, dmg, (n - 1) as nat);
    }
}

/// The creatures of both sides, attackers first.
pub open spec fn combatants(attack_side: Seq<Creature>, block_side: Seq<Creature>) -> Seq<CreatureV> {
    attack_side.map_values(|c: Creature| c@) + block_side.map_values(|c: Creature| c@)
}

/// Whether the inputs are ones the combat can be resolved on: every attacker index names a
/// creature, every blocker index of an attacker names a blocking creature.
pub open spec fn combat_inputs_valid(
    attackers: Seq<usize>,
    attack_len: int,
    block_len: int,
    blocks: Map<usize, Vec<usize>>,
) -> bool {
    &&& attack_len + block_len <= usize::MAX
    &&& forall|i: int| 0 <= i < attackers.len() ==> (#[trigger] attackers[i]) < attack_len + block_len
    &&& forall|i: int, j: int|
        0 <= i < attackers.len() && blocks.contains_key(attackers[i]) && 0 <= j < blocks[attackers[i]]@.len()
            ==> #[trigger] blocks[attackers[i]]@[j] < block_len
}

/// Whether no value computed during the combat leaves `i32`.
pub open spec fn combat_fits(cs: Seq<CreatureV>, groups: Seq<(int, Seq<int>)>) -> bool {
    let end = combat_end(cs, groups);
    end.ok && lifelink_upto(cs, end.dealt, cs.len()).1
}

/// Internal representation of a creature in combat.
struct CombatCreature {
    pub power: i32,
    pub toughness: i32,
    pub damage_taken: i32,
    pub damage_dealt: i32,
    pub abilities: Vec<KeywordAbility>,
    pub controller: PlayerSelector,
}

/// Central engine for combat resolution.
pub struct CombatEngine;

/// Whether a list of abilities holds `k`.
pub(crate) fn has_ability(v: &Vec<KeywordAbility>, k: KeywordAbility) -> (r: bool)
    ensures
        r == v@.contains(k),
{
    let mut i: usize = 0;
    while i < v.len()
        invariant
            i <= v.len(),
            forall|j: int| 0 <= j < i ==> v@[j] != k,
        decreases v.len() - i,
    {
        if v[i] == k {
            assert(v@[i as int] == k);
            return true;
        }
        i += 1;
    }
    false
}

/// Whether the combat creatures mirror `cs`, with damage `dmg`.
spec fn mirrors(cr: Seq<CombatCreature>, cs: Seq<CreatureV>, st: CombatState) -> bool {
    &&& cr.len() == cs.len()
    &&& st.dmg.len() == cs.len()
    &&& st.dealt.len() == cs.len()
    &&& forall|i: int|
        0 <= i < cs.len() ==> {
            &&& (#[trigger] cr[i]).power == cs[i].power
            &&& cr[i].toughness == cs[i].toughness
            &&& cr[i].abilities@ == cs[i].abilities
            &&& cr[i].damage_taken as int == st.dmg[i]
            &&& cr[i].damage_dealt as int == st.dealt[i]
        }
}

proof fn lemma_assign_ok_mono(cs: Seq<CreatureV>, st: CombatState, atk: int, blockers: Seq<int>, rem0: int, j: nat, k: nat)
    requires
        j <= k,
        assign_upto(cs, st, atk, blockers, rem0, k).0.ok,
    ensures
        assign_upto(cs, st, atk, blockers, rem0, j).0.ok,
    decreases k,
{
    if j < k {
        lemma_assign_ok_mono(cs, st, atk, blockers, rem0, j, (k - 1) as nat);
    }
}

proof fn lemma_assign_len(cs: Seq<CreatureV>, st: CombatState, atk: int, blockers: Seq<int>, rem0: int, k: nat)
    requires
        forall|i: int| 0 <= i < k ==> 0 <= #[trigger] blockers[i] < st.dmg.len(),
        k <= blockers.len(),
        0 <= atk < st.dealt.len(),
    ensures
        assign_upto(cs, st, atk, blockers, rem0, k).0.dmg.len() == st.dmg.len(),
        assign_upto(cs, st, atk, blockers, rem0, k).0.dealt.len() == st.dealt.len(),
        assign_upto(cs, st, atk, blockers, rem0, k).0.unblocked == st.unblocked,
        assign_upto(cs, st, atk, blockers, rem0, k).0.ok ==> st.ok,
    decreases k,
{
    if k > 0 {
        lemma_assign_len(cs, st, atk, blockers, rem0, (k - 1) as nat);
    }
}

proof fn lemma_hit_ok_mono(cs: Seq<CreatureV>, st: CombatState, atk: int, blockers: Seq<int>, first: bool, j: nat, k: nat)
    requires
        j <= k,
        hit_upto(cs, st, atk, blockers, first, k).ok,
    ensures
        hit_upto(cs, st, atk, blockers, first, j).ok,
    decreases k,
{
    if j < k {
        lemma_hit_ok_mono(cs, st, atk, blockers, first, j, (k - 1) as nat);
    }
}

proof fn lemma_hit_len(cs: Seq<CreatureV>, st: CombatState, atk: int, blockers: Seq<int>, first: bool, k: nat)
    requires
        0 <= atk < st.dmg.len(),
        k <= blockers.len(),
        forall|i: int| 0 <= i < k ==> 0 <= #[trigger] blockers[i] < st.dealt.len(),
    ensures
        hit_upto(cs, st, atk, blockers, first, k).dmg.len() == st.dmg.len(),
        hit_upto(cs, st, atk, blockers, first, k).dealt.len() == st.dealt.len(),
        hit_upto(cs, st, atk, blockers, first, k).unblocked == st.unblocked,
        hit_upto(cs, st, atk, blockers, first, k).ok ==> st.ok,
    decreases k,
{
    if k > 0 {
        lemma_hit_len(cs, st, atk, blockers, first, (k - 1) as nat);
    }
}

/// Facts about one group step: lengths kept, and its `ok` implies the input's.
proof fn lemma_group_step(cs: Seq<CreatureV>, st: CombatState, atk: int, blockers: Seq<int>, first: bool)
    requires
        0 <= atk < st.dmg.len(),
        st.dmg.len() == cs.len(),
        st.dealt.len() == cs.len(),
        forall|i: int| 0 <= i < blockers.len() ==> 0 <= #[trigger] blockers[i] < st.dmg.len(),
    ensures
        group_step(cs, st, atk, blockers, first).dmg.len() == st.dmg.len(),
        group_step(cs, st, atk, blockers, first).dealt.len() == st.dealt.len(),
        group_step(cs, st, atk, blockers, first).ok ==> st.ok,
{
    let st1 = if attacker_strikes(cs, atk, first) {
        if blockers.len() == 0 {
            let nu = st.unblocked + cs[atk].power;
            let na = st.dealt[atk] + cs[atk].power;
            CombatState { dmg: st.dmg, dealt: st.dealt.update(atk, na), unblocked: nu, ok: st.ok && in_i32(nu) && in_i32(na) }
        } else {
            assign_upto(cs, st, atk, blockers, cs[atk].power as int, blockers.len()).0
        }
    } else {
        st
    };
    lemma_assign_len(cs, st, atk, blockers, cs[atk].power as int, blockers.len());
    lemma_hit_len(cs, st1, atk, blockers, first, blockers.len());
}

/// Whether the groups index creatures of `cs`.
spec fn groups_in_range(groups: Seq<(int, Seq<int>)>, len: int) -> bool {
    forall|g: int| 0 <= g < groups.len() ==> {
        &&& 0 <= (#[trigger] groups[g]).0 < len
        &&& forall|i: int| 0 <= i < groups[g].1.len() ==> 0 <= #[trigger] groups[g].1[i] < len
    }
}

proof fn lemma_step_upto(cs: Seq<CreatureV>, st: CombatState, groups: Seq<(int, Seq<int>)>, first: bool, j: nat, k: nat)
    requires
        j <= k <= groups.len(),
        st.dmg.len() == cs.len(),
        st.dealt.len() == cs.len(),
        groups_in_range(groups, cs.len() as int),
    ensures
        step_upto(cs, st, groups, first, k).dmg.len() == cs.len(),
        step_upto(cs, st, groups, first, k).dealt.len() == cs.len(),
        step_upto(cs, st, groups, first, k).ok ==> step_upto(cs, st, groups, first, j).ok,
    decreases k,
{
    if k > 0 {
        if j < k {
            lemma_step_upto(cs, st, groups, first, j, (k - 1) as nat);
        }
        lemma_step_upto(cs, st, groups, first, (k - 1) as nat, (k - 1) as nat);
        let s = step_upto(cs, st, groups, first, (k - 1) as nat);
        assert(0 <= groups[k - 1].0 < cs.len());
        lemma_group_step(cs, s, groups[k - 1].0, groups[k - 1].1, first);
    }
}

proof fn lemma_lifelink_mono(cs: Seq<CreatureV>, dmg: Seq<int>, j: nat, k: nat)
    requires
        j <= k,
        lifelink_upto(cs, dmg, k).1,
    ensures
        lifelink_upto(cs, dmg, j).1,
    decreases k,
{
    if j < k {
        lemma_lifelink_mono(cs, dmg, j, (k - 1) as nat);
    }
}

/// The attacker's damage assignment to its blockers.
fn assign_damage(creatures: &mut Vec<CombatCreature>, atk: usize, blockers: &Vec<usize>, Ghost(cs): Ghost<Seq<CreatureV>>, Ghost(st): Ghost<CombatState>)
    requires
        mirrors(old(creatures)@, cs, st),
        atk < cs.len(),
        forall|i: int| 0 <= i < blockers@.len() ==> #[trigger] blockers@[i] < cs.len(),
        assign_upto(cs, st, atk as int, blockers@.map_values(|b: usize| b as int), cs[atk as int].power as int, blockers@.len()).0.ok,
    ensures
        mirrors(
            final(creatures)@,
            cs,
            assign_upto(cs, st, atk as int, blockers@.map_values(|b: usize| b as int), cs[atk as int].power as int, blockers@.len()).0,
        ),
{
    let ghost bl = blockers@.map_values(|b: usize| b as int);
    let ghost rem0 = cs[atk as int].power as int;
    let deathtouch = has_ability(&creatures[atk].abilities, KeywordAbility::Deathtouch);
    let mut rem: i32 = creatures[atk].power;
    let mut k: usize = 0;
    while k < blockers.len() && rem > 0
        invariant
            k <= blockers@.len(),
            bl == blockers@.map_values(|b: usize| b as int),
            atk < cs.len(),
            forall|i: int| 0 <= i < blockers@.len() ==> #[trigger] blockers@[i] < cs.len(),
            deathtouch == has_kw(cs, atk as int, KeywordAbility::Deathtouch),
            mirrors(creatures@, cs, assign_upto(cs, st, atk as int, bl, rem0, k as nat).0),
            rem as int == assign_upto(cs, st, atk as int, bl, rem0, k as nat).1,
            assign_upto(cs, st, atk as int, bl, rem0, blockers@.len()).0.ok,
        decreases blockers.len() - k,
    {
        proof {
            lemma_assign_ok_mono(cs, st, atk as int, bl, rem0, (k + 1) as nat, blockers@.len());
        }
        let blk = blockers[k];
        let needed: i32 = if deathtouch {
            1
        } else {
            creatures[blk].toughness - creatures[blk].damage_taken
        };
        let dmg = if rem <= needed { rem } else { needed };
        let nd = creatures[blk].damage_taken + dmg;
        creatures[blk].damage_taken = nd;
        let na = creatures[atk].damage_dealt + dmg;
        creatures[atk].damage_dealt = na;
        rem = rem - dmg;
        k += 1;
    }
    proof {
        if k < blockers@.len() {
            assert forall|j: nat| k <= j <= blockers@.len() implies assign_upto(cs, st, atk as int, bl, rem0, j)
                == assign_upto(cs, st, atk as int, bl, rem0, k as nat) by {
                lemma_assign_stuck(cs, st, atk as int, bl, rem0, k as nat, j);
            }
        }
    }
}

proof fn lemma_assign_stuck(cs: Seq<CreatureV>, st: CombatState, atk: int, bl: Seq<int>, rem0: int, k: nat, j: nat)
    requires
        k <= j,
        assign_upto(cs, st, atk, bl, rem0, k).1 <= 0,
    ensures
        assign_upto(cs, st, atk, bl, rem0, j) == assign_upto(cs, st, atk, bl, rem0, k),
    decreases j,
{
    if k < j {
        lemma_assign_stuck(cs, st, atk, bl, rem0, k, (j - 1) as nat);
    }
}

/// The blockers that strike in this step hit the attacker.
fn blockers_hit(creatures: &mut Vec<CombatCreature>, atk: usize, blockers: &Vec<usize>, first: bool, Ghost(cs): Ghost<Seq<CreatureV>>, Ghost(st): Ghost<CombatState>)
    requires
        mirrors(old(creatures)@, cs, st),
        atk < cs.len(),
        forall|i: int| 0 <= i < blockers@.len() ==> #[trigger] blockers@[i] < cs.len(),
        hit_upto(cs, st, atk as int, blockers@.map_values(|b: usize| b as int), first, blockers@.len()).ok,
    ensures
        mirrors(
            final(creatures)@,
            cs,
            hit_upto(cs, st, atk as int, blockers@.map_values(|b: usize| b as int), first, blockers@.len()),
        ),
{
    let ghost bl = blockers@.map_values(|b: usize| b as int);
    let mut k: usize = 0;
    while k < blockers.len()
        invariant
            k <= blockers@.len(),
            bl == blockers@.map_values(|b: usize| b as int),
            atk < cs.len(),
            forall|i: int| 0 <= i < blockers@.len() ==> #[trigger] blockers@[i] < cs.len(),
            mirrors(creatures@, cs, hit_upto(cs, st, atk as int, bl, first, k as nat)),
            hit_upto(cs, st, atk as int, bl, first, blockers@.len()).ok,
        decreases blockers.len() - k,
    {
        proof {
            lemma_hit_ok_mono(cs, st, atk as int, bl, first, (k + 1) as nat, blockers@.len());
        }
        let blk = blockers[k];
        let fs = has_ability(&creatures[blk].abilities, KeywordAbility::FirstStrike);
        let ds = has_ability(&creatures[blk].abilities, KeywordAbility::DoubleStrike);
        let strikes = if first { fs || ds } else { !(fs && !ds) };
        if strikes {
            let p = creatures[blk].power;
            let nd = creatures[atk].damage_taken + p;
            creatures[atk].damage_taken = nd;
            let nb = creatures[blk].damage_dealt + p;
            creatures[blk].damage_dealt = nb;
        }
        k += 1;
    }
}

impl CombatEngine {
    /// Resolves combat given attackers, attacker creatures, blockers, and the prevent-lifegain flag.
    /// Returns (surviving_attackers, surviving_blockers, unblocked_damage, life_gain).
    pub fn resolve_combat(
        attackers: &[usize],
        attack_side: &[Creature],
        block_side: &[Creature],
        blocks: &HashMap<usize, Vec<usize>>,
        prevent_lifegain: &mut bool,
    ) -> (r: (Vec<bool>, Vec<bool>, i32, i32))
        requires
            combat_inputs_valid(attackers@, attack_side@.len() as int, block_side@.len() as int, blocks@),
            combat_fits(
                combatants(attack_side@, block_side@),
                groups_of(attackers@, blocks@, attack_side@.len() as int),
            ),
        ensures
            ({
                let cs = combatants(attack_side@, block_side@);
                let end = combat_end(cs, groups_of(attackers@, blocks@, attack_side@.len() as int));
                let offset = attack_side@.len() as int;
                &&& r.0@.len() == attack_side@.len()
                &&& r.1@.len() == block_side@.len()
                &&& forall|i: int| 0 <= i < offset ==> #[trigger] r.0@[i] == (end.dmg[i] < cs[i].toughness)
                &&& forall|i: int| 0 <= i < block_side@.len() ==> #[trigger] r.1@[i]
                    == (end.dmg[offset + i] < cs[offset + i].toughness)
                &&& r.2 as int == end.unblocked
                &&& r.3 as int == (if *old(prevent_lifegain) { 0 } else { lifelink_upto(cs, end.dealt, cs.len()).0 })
                &&& *final(prevent_lifegain) == false
            }),
    {
        let ghost cs = combatants(attack_side@, block_side@);
        let ghost groups = groups_of(attackers@, blocks@, attack_side@.len() as int);
        // 1) Build internal creature list
        let mut creatures: Vec<CombatCreature> = Vec::new();
        let mut i: usize = 0;
        while i < attack_side.len()
            invariant
                i <= attack_side@.len(),
                creatures@.len() == i,
                cs == combatants(attack_side@, block_side@),
                forall|j: int| 0 <= j < i ==> {
                    &&& (#[trigger] creatures@[j]).power == cs[j].power
                    &&& creatures@[j].toughness == cs[j].toughness
                    &&& creatures@[j].abilities@ == cs[j].abilities
                    &&& creatures@[j].damage_taken == 0
                    &&& creatures@[j].damage_dealt == 0
                },
            decreases attack_side.len() - i,
        {
            let cr = &attack_side[i];
            creatures.push(CombatCreature {
                power: cr.power,
                toughness: cr.toughness,
                damage_taken: 0,
                damage_dealt: 0,
                abilities: clone_abilities(&cr.abilities),
                controller: PlayerSelector::Controller,
            });
            i += 1;
        }
        let offset = creatures.len();
        let mut i: usize = 0;
        while i < block_side.len()
            invariant
                i <= block_side@.len(),
                offset == attack_side@.len(),
                attack_side@.len() + block_side@.len() <= usize::MAX,
                creatures@.len() == offset + i,
                cs == combatants(attack_side@, block_side@),
                forall|j: int| 0 <= j < offset + i ==> {
                    &&& (#[trigger] creatures@[j]).power == cs[j].power
                    &&& creatures@[j].toughness == cs[j].toughness
                    &&& creatures@[j].abilities@ == cs[j].abilities
                    &&& creatures@[j].damage_taken == 0
                    &&& creatures@[j].damage_dealt == 0
                },
            decreases block_side.len() - i,
        {
            let cr = &block_side[i];
            creatures.push(CombatCreature {
                power: cr.power,
                toughness: cr.toughness,
                damage_taken: 0,
                damage_dealt: 0,
                abilities: clone_abilities(&cr.abilities),
                controller: PlayerSelector::Opponent,
            });
            i += 1;
        }
        let ghost start = CombatState { dmg: Seq::new(cs.len(), |i: int| 0), dealt: Seq::new(cs.len(), |i: int| 0), unblocked: 0, ok: true };
        proof {
            assert(mirrors(creatures@, cs, start));
        }
        // 2) Build groups of attacker + its blockers
        let mut group_atk: Vec<usize> = Vec::new();
        let mut group_blk: Vec<Vec<usize>> = Vec::new();
        let mut g: usize = 0;
        while g < attackers.len()
            invariant
                g <= attackers@.len(),
                offset == attack_side@.len(),
                cs.len() == attack_side@.len() + block_side@.len(),
                combat_inputs_valid(attackers@, attack_side@.len() as int, block_side@.len() as int, blocks@),
                groups == groups_of(attackers@, blocks@, attack_side@.len() as int),
                group_atk@.len() == g,
                group_blk@.len() == g,
                forall|j: int| 0 <= j < g ==> (#[trigger] group_atk@[j]) as int == groups[j].0,
                forall|j: int| 0 <= j < g ==> (#[trigger] group_blk@[j])@.map_values(|b: usize| b as int) == groups[j].1,
                forall|j: int, l: int| 0 <= j < g && 0 <= l < group_blk@[j]@.len() ==> #[trigger] group_blk@[j]@[l] < cs.len(),
            decreases attackers.len() - g,
        {
            let atk = attackers[g];
            let mut blk_idxs: Vec<usize> = Vec::new();
            match blocks.get(&atk) {
                Some(bs) => {
                    let mut l: usize = 0;
                    while l < bs.len()
                        invariant
                            l <= bs@.len(),
                            blocks@.contains_key(atk),
                            bs@ == blocks@[atk]@,
                            g < attackers@.len(),
                            atk == attackers@[g as int],
                            offset == attack_side@.len(),
                            cs.len() == attack_side@.len() + block_side@.len(),
                            combat_inputs_valid(attackers@, attack_side@.len() as int, block_side@.len() as int, blocks@),
                            blk_idxs@.len() == l,
                            forall|m: int| 0 <= m < l ==> (#[trigger] blk_idxs@[m]) == offset + bs@[m],
                        decreases bs.len() - l,
                    {
                        assert(bs@[l as int] < block_side@.len());
                        blk_idxs.push(offset + bs[l]);
                        l += 1;
                    }
                },
                None => {},
            }
            proof {
                assert(blk_idxs@.map_values(|b: usize| b as int) =~= groups[g as int].1);
            }
            group_atk.push(atk);
            group_blk.push(blk_idxs);
            g += 1;
        }
        proof {
            assert(groups_in_range(groups, cs.len() as int)) by {
                assert forall|j: int| 0 <= j < groups.len() implies {
                    &&& 0 <= (#[trigger] groups[j]).0 < cs.len()
                    &&& forall|i: int| 0 <= i < groups[j].1.len() ==> 0 <= #[trigger] groups[j].1[i] < cs.len()
                } by {
                    assert(group_atk@[j] as int == groups[j].0);
                    assert(group_blk@[j]@.map_values(|b: usize| b as int) == groups[j].1);
                }
            }
        }
        // 3) and 4) the first-strike step, then the regular step
        let mut unblocked_dmg: i32 = 0;
        let ghost s1 = step_upto(cs, start, groups, true, groups.len());
        let ghost s2 = step_upto(cs, s1, groups, false, groups.len());
        proof {
            lemma_step_upto(cs, start, groups, true, 0, groups.len());
            lemma_step_upto(cs, s1, groups, false, 0, groups.len());
        }
        let mut pass: usize = 0;
        while pass < 2
            invariant
                pass <= 2,
                group_atk@.len() == groups.len(),
                group_blk@.len() == groups.len(),
                forall|j: int| 0 <= j < groups.len() ==> (#[trigger] group_atk@[j]) as int == groups[j].0,
                forall|j: int| 0 <= j < groups.len() ==> (#[trigger] group_blk@[j])@.map_values(|b: usize| b as int) == groups[j].1,
                forall|j: int, l: int| 0 <= j < groups.len() && 0 <= l < group_blk@[j]@.len() ==> #[trigger] group_blk@[j]@[l] < cs.len(),
                groups_in_range(groups, cs.len() as int),
                start.dmg.len() == cs.len(),
                start.dealt.len() == cs.len(),
                s1 == step_upto(cs, start, groups, true, groups.len()),
                s2 == step_upto(cs, s1, groups, false, groups.len()),
                s2.ok,
                s1.ok,
                pass == 0 ==> mirrors(creatures@, cs, start) && unblocked_dmg == start.unblocked,
                pass == 1 ==> mirrors(creatures@, cs, s1) && unblocked_dmg == s1.unblocked,
                pass == 2 ==> mirrors(creatures@, cs, s2) && unblocked_dmg == s2.unblocked,
            decreases 2 - pass,
        {
            let first = pass == 0;
            let ghost base = if first { start } else { s1 };
            proof {
                lemma_step_upto(cs, base, groups, first, 0, groups.len());
            }
            let mut g: usize = 0;
            while g < group_atk.len()
                invariant
                    g <= groups.len(),
                    pass < 2,
                    first == (pass == 0),
                    base == (if first { start } else { s1 }),
                    group_atk@.len() == groups.len(),
                    group_blk@.len() == groups.len(),
                    forall|j: int| 0 <= j < groups.len() ==> (#[trigger] group_atk@[j]) as int == groups[j].0,
                    forall|j: int| 0 <= j < groups.len() ==> (#[trigger] group_blk@[j])@.map_values(|b: usize| b as int) == groups[j].1,
                    forall|j: int, l: int| 0 <= j < groups.len() && 0 <= l < group_blk@[j]@.len() ==> #[trigger] group_blk@[j]@[l] < cs.len(),
                    groups_in_range(groups, cs.len() as int),
                    base.dmg.len() == cs.len(),
                    base.dealt.len() == cs.len(),
                    step_upto(cs, base, groups, first, groups.len()).ok,
                    mirrors(creatures@, cs, step_upto(cs, base, groups, first, g as nat)),
                    unblocked_dmg as int == step_upto(cs, base, groups, first, g as nat).unblocked,
                decreases groups.len() - g,
            {
                let ghost sg = step_upto(cs, base, groups, first, g as nat);
                proof {
                    lemma_step_upto(cs, base, groups, first, (g + 1) as nat, groups.len());
                    lemma_step_upto(cs, base, groups, first, g as nat, g as nat);
                }
                let atk = group_atk[g];
                let blockers = &group_blk[g];
                let ghost bl = groups[g as int].1;
                let fs = has_ability(&creatures[atk].abilities, KeywordAbility::FirstStrike);
                let ds = has_ability(&creatures[atk].abilities, KeywordAbility::DoubleStrike);
                let strikes = if first { fs || ds } else { !(fs && !ds) };
                let ghost st1 = if attacker_strikes(cs, atk as int, first) {
                    if bl.len() == 0 {
                        let nu = sg.unblocked + cs[atk as int].power;
                        let na = sg.dealt[atk as int] + cs[atk as int].power;
                        CombatState { dmg: sg.dmg, dealt: sg.dealt.update(atk as int, na), unblocked: nu, ok: sg.ok && in_i32(nu) && in_i32(na) }
                    } else {
                        assign_upto(cs, sg, atk as int, bl, cs[atk as int].power as int, bl.len()).0
                    }
                } else {
                    sg
                };
                proof {
                    lemma_assign_len(cs, sg, atk as int, bl, cs[atk as int].power as int, bl.len());
                    lemma_hit_len(cs, st1, atk as int, bl, first, bl.len());
                    assert(blockers@.map_values(|b: usize| b as int) == bl);
                    assert forall|i: int| 0 <= i < blockers@.len() implies #[trigger] blockers@[i] < cs.len() by {
                        assert(group_blk@[g as int]@[i] < cs.len());
                    }
                }
                if strikes {
                    if blockers.len() == 0 {
                        unblocked_dmg = unblocked_dmg + creatures[atk].power;
                        let na = creatures[atk].damage_dealt + creatures[atk].power;
                        creatures[atk].damage_dealt = na;
                    } else {
                        assign_damage(&mut creatures, atk, blockers, Ghost(cs), Ghost(sg));
                    }
                }
                blockers_hit(&mut creatures, atk, blockers, first, Ghost(cs), Ghost(st1));
                g += 1;
            }
            pass += 1;
        }
        // 5) Determine survivors and total lifegain
        let mut survives_att: Vec<bool> = Vec::new();
        let mut survives_blk: Vec<bool> = Vec::new();
        let mut life_gain: i32 = 0;
        let mut i: usize = 0;
        proof {
            lemma_lifelink_mono(cs, s2.dealt, 0, cs.len());
        }
        while i < creatures.len()
            invariant
                i <= cs.len(),
                offset == attack_side@.len(),
                cs.len() == attack_side@.len() + block_side@.len(),
                mirrors(creatures@, cs, s2),
                lifelink_upto(cs, s2.dealt, cs.len()).1,
                life_gain as int == lifelink_upto(cs, s2.dealt, i as nat).0,
                i <= offset ==> survives_att@.len() == i && survives_blk@.len() == 0,
                i > offset ==> survives_att@.len() == offset && survives_blk@.len() == i - offset,
                forall|j: int| 0 <= j < survives_att@.len() ==> #[trigger] survives_att@[j] == (s2.dmg[j] < cs[j].toughness),
                forall|j: int| 0 <= j < survives_blk@.len() ==> #[trigger] survives_blk@[j]
                    == (s2.dmg[offset + j] < cs[offset + j].toughness),
            decreases creatures.len() - i,
        {
            proof {
                lemma_lifelink_mono(cs, s2.dealt, (i + 1) as nat, cs.len());
            }
            let alive = creatures[i].damage_taken < creatures[i].toughness;
            if i < offset {
                survives_att.push(alive);
            } else {
                survives_blk.push(alive);
            }
            if has_ability(&creatures[i].abilities, KeywordAbility::Lifelink) {
                life_gain = life_gain + creatures[i].damage_dealt;
            }
            i += 1;
        }
        // 6) Apply prevent lifegain
        let actual_gain = if *prevent_lifegain {
            *prevent_lifegain = false;
            0
        } else {
            life_gain
        };
        (survives_att, survives_blk, unblocked_dmg, actual_gain)
    }
}


/// An unblocked attacker deals its power to the defending player once in each damage step it
/// strikes in: twice its power with double strike, its power once otherwise (first strike alone
/// hits in the first-strike step only, no first strike in the regular step only); and that is
/// also the damage it is counted as having dealt.
pub proof fn lemma_unblocked_attacker_damage(cs: Seq<CreatureV>, atk: int)
    requires
        0 <= atk < cs.len(),
    ensures
        combat_end(cs, seq![(atk, Seq::<int>::empty())]).unblocked == (if cs[atk].abilities.contains(
            KeywordAbility::DoubleStrike,
        ) {
            2 * cs[atk].power
        } else {
            cs[atk].power as int
        }),
        combat_end(cs, seq![(atk, Seq::<int>::empty())]).dealt[atk] == combat_end(
            cs,
            seq![(atk, Seq::<int>::empty())],
        ).unblocked,
{
    let groups = seq![(atk, Seq::<int>::empty())];
    let start = CombatState { dmg: Seq::new(cs.len(), |i: int| 0), dealt: Seq::new(cs.len(), |i: int| 0), unblocked: 0, ok: true };
    let s1 = step_upto(cs, start, groups, true, 1);
    assert(step_upto(cs, start, groups, true, 0) == start);
    assert(s1 == group_step(cs, start, atk, Seq::<int>::empty(), true));
    let s2 = step_upto(cs, s1, groups, false, 1);
    assert(step_upto(cs, s1, groups, false, 0) == s1);
    assert(s2 == group_step(cs, s1, atk, Seq::<int>::empty(), false));
    assert(combat_end(cs, groups) == s2);
    assert(s1.dealt.len() == cs.len());
}


/// Lifelink over damage dealt by one creature alone is that creature's damage where it has
/// lifelink, and nothing otherwise.
proof fn lemma_lifelink_single(cs: Seq<CreatureV>, dealt: Seq<int>, atk: int, n: nat)
    requires
        dealt.len() == cs.len(),
        n <= cs.len(),
        0 <= atk < cs.len(),
        forall|i: int| 0 <= i < dealt.len() && i != atk ==> dealt[i] == 0,
    ensures
        lifelink_upto(cs, dealt, n).0 == (if atk < n && cs[atk].abilities.contains(KeywordAbility::Lifelink) {
            dealt[atk]
        } else {
            0
        }),
    decreases n,
{
    if n > 0 {
        lemma_lifelink_single(cs, dealt, atk, (n - 1) as nat);
    }
}

/// A lone unblocked attacker with lifelink gains its controller exactly the damage it dealt to
/// the defending player; without lifelink nothing is gained.
pub proof fn lemma_unblocked_lifelink_gain(cs: Seq<CreatureV>, atk: int)
    requires
        0 <= atk < cs.len(),
    ensures
        ({
            let end = combat_end(cs, seq![(atk, Seq::<int>::empty())]);
            lifelink_upto(cs, end.dealt, cs.len()).0 == (if cs[atk].abilities.contains(KeywordAbility::Lifelink) {
                end.unblocked
            } else {
                0
            })
        }),
{
    let groups = seq![(atk, Seq::<int>::empty())];
    let start = CombatState { dmg: Seq::new(cs.len(), |i: int| 0), dealt: Seq::new(cs.len(), |i: int| 0), unblocked: 0, ok: true };
    let s1 = step_upto(cs, start, groups, true, 1);
    assert(step_upto(cs, start, groups, true, 0) == start);
    assert(s1 == group_step(cs, start, atk, Seq::<int>::empty(), true));
    let s2 = step_upto(cs, s1, groups, false, 1);
    assert(step_upto(cs, s1, groups, false, 0) == s1);
    assert(s2 == group_step(cs, s1, atk, Seq::<int>::empty(), false));
    assert(combat_end(cs, groups) == s2);
    assert forall|i: int| 0 <= i < s2.dealt.len() && i != atk implies s2.dealt[i] == 0 by {
        assert(s1.dealt[i] == 0);
    }
    lemma_lifelink_single(cs, s2.dealt, atk, cs.len());
    lemma_unblocked_attacker_damage(cs, atk);
}

} // verus!
