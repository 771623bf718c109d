use mtga_me::app::card_attribute::{Amount, CounterType, Effect, KeywordAbility, TargetFilter, Trigger};
use mtga_me::app::card_library::{build_card_library, CardType};
use mtga_me::app::game_state::{GameEvent, GamePhase, Player};
use mtga_me::app::gre::Gre;

/// Puts a copy of a library card onto the engine's battlefield and returns its identifier.
fn put_on_battlefield(gre: &mut Gre, name: &str) -> u64 {
    let lib = build_card_library();
    let mut card = lib.get(name).unwrap().clone();
    gre.enter_battlefield(&mut card);
    card.card_id
}

/// Targets the permanent `id` (as a spell or ability would) and lets the stack resolve.
fn target(gre: &mut Gre, id: u64) {
    let mut none = Vec::new();
    gre.trigger_event(GameEvent::Targeted(id), &mut none, Player::Us);
    gre.resolve_stack();
}

/// Casts a library spell at the permanent `id` and lets the stack resolve.
fn cast_at(gre: &mut Gre, spell: &str, id: u64) {
    let lib = build_card_library();
    let card = lib.get(spell).unwrap().clone();
    let tgt = gre.battlefield_creatures.get(id).unwrap().clone();
    gre.cast_spell_with_target(card, Player::Us, tgt);
    gre.resolve_stack();
}

/// The current power and toughness of the permanent `id`.
fn pt(gre: &Gre, id: u64) -> (i32, i32) {
    gre.battlefield_creatures.get(id).unwrap().current_power_toughness(gre)
}

/// Whether the permanent `id` has a keyword: printed or granted on it, or granted by a Monster
/// role attached to it (the role gives trample).
fn has_keyword(gre: &Gre, id: u64, k: KeywordAbility) -> bool {
    let card = gre.battlefield_creatures.get(id).unwrap();
    if let CardType::Creature(cr) = &card.card_type {
        if cr.abilities.contains(&k) {
            return true;
        }
    }
    k == KeywordAbility::Trample
        && gre.battlefield_creatures.values().iter().any(|c| c.name == "Monster" && c.attached_to == Some(id))
}

/// The end of the turn: the delayed "until end of turn" reverts run and the engine readies the
/// permanents for the next turn.
fn end_of_turn(gre: &mut Gre) {
    gre.dispatch_delayed(GamePhase::End);
    gre.on_turn_end();
}

#[test]
fn monst_rage_then_end_of_turn_clears_temporary() {
    let mut gre = Gre::new(Player::Us);
    let c = put_on_battlefield(&mut gre, "Heartfire Hero");
    let _opp = 20;

    // Monstrous Rage on a fresh 1/1 Heartfire Hero: targeting it triggers Valiant first.
    cast_at(&mut gre, "Monstrous Rage", c);
    // base 1/1 + Valiant counter 1/1 + Monster role 1/1 = 3/3 permanent, +2/0 temporary = 5/3
    assert_eq!(pt(&gre, c), (5, 3));
    assert!(has_keyword(&gre, c, KeywordAbility::Trample));

    // end of turn: temporary buffs drop, the 3/3 stays
    end_of_turn(&mut gre);
    assert_eq!(pt(&gre, c), (3, 3));
}

#[test]
fn double_monst_rage_same_turn() {
    let mut gre = Gre::new(Player::Us);
    let c = put_on_battlefield(&mut gre, "Heartfire Hero");

    cast_at(&mut gre, "Monstrous Rage", c);
    assert_eq!(pt(&gre, c), (5, 3));

    // second: Valiant no longer triggers, the new Monster role replaces the old one
    cast_at(&mut gre, "Monstrous Rage", c);
    assert_eq!(pt(&gre, c), (7, 3));

    end_of_turn(&mut gre);
    assert_eq!(pt(&gre, c), (3, 3));
}

#[test]
fn valiant_only_first_target_each_turn() {
    let mut gre = Gre::new(Player::Us);
    let c = put_on_battlefield(&mut gre, "Heartfire Hero");
    // a +1/+1 counter raises the 1/1's statistics by one each
    let counters = |gre: &Gre| pt(gre, c).0 - 1;

    // first target this turn
    target(&mut gre, c);
    assert_eq!(counters(&gre), 1);

    // targeting again the same turn: no extra counter
    target(&mut gre, c);
    assert_eq!(counters(&gre), 1);

    // new turn
    end_of_turn(&mut gre);
    target(&mut gre, c);
    assert_eq!(counters(&gre), 2);
    assert_eq!(pt(&gre, c), (3, 3));
}

#[test]
fn felonious_rage_gives_two_power_until_end_of_turn() {
    let mut gre = Gre::new(Player::Us);
    let c = put_on_battlefield(&mut gre, "Heartfire Hero");
    cast_at(&mut gre, "Felonious Rage", c);
    // 1/1 + Valiant counter + 2/0 until end of turn
    assert_eq!(pt(&gre, c), (4, 2));
    end_of_turn(&mut gre);
    assert_eq!(pt(&gre, c), (2, 2));
}

#[test]
fn monster_role_alone_gives_one_one() {
    let mut gre = Gre::new(Player::Us);
    let c = put_on_battlefield(&mut gre, "Heartfire Hero");
    // Valiant has fired once this turn already
    target(&mut gre, c);
    cast_at(&mut gre, "Monstrous Rage", c);
    // 1/1 + counter + role + 2/0
    assert_eq!(pt(&gre, c), (5, 3));
    let roles = gre
        .battlefield_creatures
        .values()
        .iter()
        .filter(|x| x.name == "Monster" && x.attached_to == Some(c))
        .count();
    assert_eq!(roles, 1);
}

#[test]
fn felonious_rage_on_monst_twice() {
    let mut gre = Gre::new(Player::Us);
    let c = put_on_battlefield(&mut gre, "Heartfire Hero");
    let _opp = 20;

    // two Monstrous Rage: Valiant on the first targeting, one Monster role
    cast_at(&mut gre, "Monstrous Rage", c);
    cast_at(&mut gre, "Monstrous Rage", c);
    assert_eq!(pt(&gre, c), (7, 3));
    assert!(has_keyword(&gre, c, KeywordAbility::Trample));

    // then Felonious Rage on it: +2/+0 until end of turn, and haste
    cast_at(&mut gre, "Felonious Rage", c);
    assert_eq!(pt(&gre, c), (9, 3));
    assert!(has_keyword(&gre, c, KeywordAbility::Haste));

    // combat against a 3/1 blocker: the excess tramples over
    let damage_to_blocker = 3.min(9);
    let trample_over = 9 - damage_to_blocker;
    let mut opp_life = 20;
    opp_life -= trample_over as i32;
    assert_eq!(opp_life, 20 - trample_over);

    // now the creature dies: its death deals its full current power to the opponent
    let mut hero = gre.battlefield_creatures.get(c).unwrap().clone();
    let power = pt(&gre, c).0;
    for e in hero.trigger_by(&Trigger::OnDeath { filter: TargetFilter::SelfCard }) {
        if let Effect::Damage { amount: Amount::SourcePower, .. } = e {
            opp_life -= power;
        }
    }
    assert_eq!(opp_life, 20 - trample_over - 9);
    gre.execute(Effect::Destroy { target: TargetFilter::ExactCardID(c) });

    // and the 2/2 Detective token comes
    assert!(gre.battlefield_creatures.values().iter().any(|d| d.name == "Detective"
        && matches!(&d.card_type, CardType::Creature(cr) if cr.power == 2 && cr.toughness == 2)));
}

#[test]
fn monstrous_first_vs_felonious_first_ordering() {
    // Felonious Rage before any Monstrous Rage: Valiant's counter, +2/+0 until end of turn, and
    // no Monster role
    let mut gre = Gre::new(Player::Us);
    let c = put_on_battlefield(&mut gre, "Heartfire Hero");
    cast_at(&mut gre, "Felonious Rage", c);
    assert_eq!(pt(&gre, c), (4, 2));
}

#[test]
fn cacophony_scamp_and_felonious_rage_combo() {
    let lib = build_card_library();
    let mut scamp = lib.get("Cacophony Scamp").unwrap().clone();
    let mut rage = lib.get("Felonious Rage").unwrap().clone();

    // Scamp answers nothing on resolution
    let effects = scamp.trigger_by(&Trigger::OnCastResolved);
    assert!(effects.is_empty(), "Scamp should not get anything on cast-resolve");

    // Felonious Rage on resolution: +2/+0 and haste for its target
    let rage_effects = rage.trigger_by(&Trigger::OnCastResolved);
    let subs = match &rage_effects[0] {
        Effect::TargetedEffects { sub_effects } => sub_effects,
        other => panic!("expected a targeted group, got {:?}", other),
    };
    assert!(subs.iter().any(|e| matches!(e, Effect::ModifyStats { power_delta: 2, toughness_delta: 0, .. })));
    assert!(subs.iter().any(|e| matches!(e, Effect::GrantAbility { ability: KeywordAbility::Haste, .. })),
        "Felonious Rage should grant Haste");

    // cast it at the Scamp in the engine
    let mut gre = Gre::new(Player::Us);
    let s = put_on_battlefield(&mut gre, "Cacophony Scamp");
    cast_at(&mut gre, "Felonious Rage", s);
    assert!(has_keyword(&gre, s, KeywordAbility::Haste));
    let mut on_field = gre.battlefield_creatures.get(s).unwrap().clone();
    if let CardType::Creature(ref mut cr) = on_field.card_type {
        cr.summoning_sickness = false; // haste lets it attack
    } else {
        panic!("Scamp is not a Creature!");
    }
    assert_eq!(pt(&gre, s), (3, 1));
    if let CardType::Creature(ref cr) = on_field.card_type {
        assert_eq!(cr.summoning_sickness, false);
    }

    // combat damage to a player: it is sacrificed and counters proliferate
    let combat_effects = on_field.trigger_by(&Trigger::OnCombatDamage { filter: TargetFilter::SelfCard });
    assert!(combat_effects.iter().any(|e| matches!(e, Effect::Destroy { .. })), "Should prompt destroy/sacrifice itself");
    assert!(combat_effects.iter().any(|e| matches!(e, Effect::Proliferate { counter_type: CounterType::PlusOnePlusOne, .. })),
        "Should proliferate");

    // its death: damage equal to its power, and Felonious Rage's Detective
    let death_effects = on_field.trigger_by(&Trigger::OnDeath { filter: TargetFilter::SelfCard });
    assert!(death_effects.iter().any(|e| matches!(e, Effect::Damage { amount: Amount::SourcePower, .. })),
        "Should deal damage equal to its power");
    gre.execute(Effect::Destroy { target: TargetFilter::ExactCardID(s) });
    assert!(gre.battlefield_creatures.values().iter().any(|d| d.name == "Detective"), "Should spawn the 2/2 detective");
}

#[test]
fn resolving_the_stack_resolves_what_resolution_pushes() {
    let mut gre = Gre::new(Player::Us);
    let c = put_on_battlefield(&mut gre, "Heartfire Hero");
    // targeting the hero puts its Valiant trigger on the stack above the spell
    cast_at(&mut gre, "Monstrous Rage", c);
    assert!(gre.stack.is_empty());
    assert!(gre.current_source_card.is_none());
    let counters_and_role = gre.battlefield_creatures.values().iter().filter(|x| x.name == "Monster").count();
    assert_eq!(counters_and_role, 1);
}
