use std::collections::HashMap;

use mtga_me::app::card_attribute::{Amount, Condition, Duration, Effect, KeywordAbility, PlayerSelector, TargetFilter};
use mtga_me::app::card_library::{build_card_library, Card, CardType, Creature, ManaCost};
use mtga_me::app::combat_engine::CombatEngine;
use mtga_me::app::game_state::{GameAction, GameState, Player, SimpleHeuristic, Strategy};
use mtga_me::app::game_state_updater::GameStateUpdater;
use mtga_me::app::gre::gre_structs::ReplacementRule;
use mtga_me::app::gre::{ActivatedAbility, Gre, StackEntry};

fn bear() -> Card {
    Card::new(
        "Bear",
        CardType::Creature(Creature {
            power: 2,
            toughness: 2,
            summoning_sickness: true,
            abilities: vec![],
            types: vec![],
            ephemeral_power: 0,
            ephemeral_toughness: 0,
        }),
        ManaCost::free(),
    )
}

#[test]
fn mana_cost_computation_colored_and_total() {
    let lib = build_card_library();
    let strike = lib.get("Lightning Strike").unwrap();
    let cost = &strike.mana_cost;
    assert_eq!(cost.colorless, 1);
    assert_eq!(cost.colored(), 1);
    assert_eq!(cost.total(), 2);
}

#[test]
fn invalid_phase_transition_handled_gracefully() {
    let mut updater = GameStateUpdater::new();
    updater.update_mana_and_land(u32::MAX, true);
    assert!(updater.state.mana_available < u32::MAX);
    assert!(updater.state.land_played_this_turn);
}

#[test]
fn lifelink_gains_the_damage_dealt() {
    let lifelinker = Creature {
        power: 2,
        toughness: 2,
        summoning_sickness: false,
        abilities: vec![KeywordAbility::Lifelink],
        types: vec![],
        ephemeral_power: 0,
        ephemeral_toughness: 0,
    };
    let mut prevent = false;
    let r = CombatEngine::resolve_combat(&[0], &[lifelinker], &[], &HashMap::new(), &mut prevent);
    assert_eq!(r, (vec![true], vec![], 2, 2));
}

#[test]
fn test_push_to_stack_resets_passes_and_priority() {
    let mut gre = Gre::default();
    gre.passes = 5;
    gre.priority = Player::Opponent;
    let card = build_card_library().get("Lightning Strike").unwrap().clone();
    gre.push_to_stack(StackEntry::ActivatedAbility {
        source: card,
        ability: ActivatedAbility {
            cost: ManaCost::free(),
            condition: Condition::Always,
            effect: Effect::DrawCardsCounted,
            activated_this_turn: false,
            loyalty_change: 0,
        },
        controller: Player::Us,
    });
    assert_eq!(gre.passes, 0);
    assert_eq!(gre.priority, Player::Us);
    assert_eq!(gre.stack.len(), 1);
    assert_eq!(gre.stack[0].priority, 3);
}

#[test]
fn heuristic_plays_a_land_whatever_the_costs() {
    let lib = build_card_library();
    let mut state = GameState::default();
    let mut pricey = lib.get("Lightning Strike").unwrap().clone();
    pricey.mana_cost = ManaCost::new(u32::MAX, u32::MAX, 0, 0, 0, 0);
    state.hand = vec![pricey, lib.get("Mountain").unwrap().clone()];
    let mut strat = SimpleHeuristic;
    assert!(matches!(strat.decide(&state), GameAction::PlayLand(1)));
    state.land_played_this_turn = true;
    state.mana_available = 5;
    // the land costs nothing, so it is the first card the mana pays for
    assert!(matches!(strat.decide(&state), GameAction::CastSpell(1)));
}

#[test]
fn lethal_damage_removes_the_creature() {
    let mut gre = Gre::new(Player::Us);
    let mut c = bear();
    gre.enter_battlefield(&mut c);
    let id = c.card_id;
    gre.execute(Effect::Damage { amount: Amount::Fixed(2), target: TargetFilter::ExactCardID(id) });
    assert!(!gre.battlefield_creatures.contains_key(id));
    assert!(gre.stack.is_empty());
}

#[test]
fn a_choice_runs_only_the_chosen_option() {
    let mut gre = Gre::new(Player::Us);
    gre.execute(Effect::ChooseSome {
        choose: 5,
        options: vec![
            Effect::PreventLifeGain { player: PlayerSelector::Controller, duration: Duration::EndOfTurn },
            Effect::PreventLifeGain { player: PlayerSelector::Opponent, duration: Duration::EndOfTurn },
        ],
    });
    assert!(gre.prevent_life_gain_opponent);
    assert!(!gre.prevent_life_gain_us);
}

#[test]
fn felonious_rage_grants_haste_until_end_of_turn() {
    let lib = build_card_library();
    let mut gre = Gre::new(Player::Us);
    let mut c = bear();
    gre.enter_battlefield(&mut c);
    let target = gre.battlefield_creatures.get(c.card_id).unwrap().clone();
    gre.cast_spell_with_target(lib.get("Felonious Rage").unwrap().clone(), Player::Us, target);
    gre.resolve_stack();
    let has_haste = |gre: &Gre| match &gre.battlefield_creatures.get(c.card_id).unwrap().card_type {
        CardType::Creature(cr) => cr.abilities.contains(&KeywordAbility::Haste),
        _ => false,
    };
    assert!(has_haste(&gre));
    gre.dispatch_delayed(mtga_me::app::game_state::GamePhase::End);
    assert!(!has_haste(&gre));
}

#[test]
fn a_clone_enters_under_a_new_identifier() {
    let mut gre = Gre::new(Player::Us);
    let mut c = bear();
    gre.enter_battlefield(&mut c);
    let copy = gre.battlefield_creatures.get(c.card_id).unwrap().clone();
    Gre::create_clone_card(&mut gre, copy);
    assert_eq!(gre.battlefield_creatures.len(), 2);
}

#[test]
fn ocr_white_space_is_std_white_space() {
    // every character up to the last white-space code point is kept as white space exactly
    // when std calls it white space (letters and digits aside)
    for u in 0u32..=0x3000 {
        if let Some(c) = char::from_u32(u) {
            if c.is_alphanumeric() || "-,.'".contains(c) {
                continue;
            }
            let kept = mtga_me::app::ocr::sanitize_ocr_text(&c.to_string()) == c.to_string();
            assert_eq!(kept, c.is_whitespace(), "character {:#x}", u);
        }
    }
}

#[test]
fn retargeting_twice_changes_nothing_more() {
    let gre = Gre::new(Player::Us);
    let mut target = bear();
    target.card_id = 7;
    let buff = Effect::ModifyStats {
        power_delta: 2,
        toughness_delta: 0,
        duration: Duration::EndOfTurn,
        target: TargetFilter::Creature,
    };
    let once = mtga_me::app::gre::effect_resolution::replace_targeted_filter_with_exact(&gre, buff, &target);
    assert_eq!(
        once,
        Effect::ModifyStats { power_delta: 2, toughness_delta: 0, duration: Duration::EndOfTurn, target: TargetFilter::ExactCardID(7) }
    );
    let twice = mtga_me::app::gre::effect_resolution::replace_targeted_filter_with_exact(&gre, once.clone(), &target);
    assert_eq!(twice, once);
    let damage = Effect::Damage { amount: Amount::Fixed(3), target: TargetFilter::Creature };
    let same = mtga_me::app::gre::effect_resolution::replace_targeted_filter_with_exact(&gre, damage, &target);
    assert_eq!(same, Effect::Damage { amount: Amount::Fixed(3), target: TargetFilter::Creature });
}

#[test]
fn replacement_effects_stay_ordered_and_stable() {
    let mut gre = Gre::new(Player::Us);
    let rule = |n: u32| ReplacementRule::Substitute { from: Effect::DrawCards { count: n, player: PlayerSelector::Controller }, to: vec![] };
    gre.add_replacement_effect(1, rule(1));
    gre.add_replacement_effect(3, rule(2));
    gre.add_replacement_effect(2, rule(3));
    gre.add_replacement_effect(3, rule(4));
    let priorities: Vec<u8> = gre.replacement_effects.iter().map(|r| r.priority).collect();
    assert_eq!(priorities, vec![3, 3, 2, 1]);
    let froms: Vec<Effect> = gre
        .replacement_effects
        .iter()
        .map(|r| match &r.rule {
            ReplacementRule::Substitute { from, .. } => from.clone(),
        })
        .collect();
    assert_eq!(
        froms,
        vec![
            Effect::DrawCards { count: 2, player: PlayerSelector::Controller },
            Effect::DrawCards { count: 4, player: PlayerSelector::Controller },
            Effect::DrawCards { count: 3, player: PlayerSelector::Controller },
            Effect::DrawCards { count: 1, player: PlayerSelector::Controller },
        ]
    );
}

#[test]
fn end_of_turn_buff_is_undone_at_the_end_phase() {
    let mut gre = Gre::new(Player::Us);
    let mut card = bear();
    gre.enter_battlefield(&mut card);
    let id = card.card_id;
    gre.execute(Effect::ModifyStats {
        power_delta: 3,
        toughness_delta: 1,
        duration: Duration::EndOfTurn,
        target: TargetFilter::ExactCardID(id),
    });
    assert_eq!(gre.battlefield_creatures.get(id).unwrap().current_power_toughness(&gre), (5, 3));
    assert_eq!(gre.delayed.len(), 1);
    gre.dispatch_delayed(mtga_me::app::game_state::GamePhase::End);
    assert!(gre.delayed.is_empty());
    match &gre.battlefield_creatures.get(id).unwrap().card_type {
        CardType::Creature(cr) => {
            assert_eq!(cr.power + cr.ephemeral_power, 2);
            assert_eq!(cr.toughness + cr.ephemeral_toughness, 2);
        },
        _ => panic!("the bear is a creature"),
    }
}
