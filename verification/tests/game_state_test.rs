use mtga_me::app::bot::Bot;
use mtga_me::app::card_library::{build_card_library, CardType};
use mtga_me::app::game_state::{GameAction, GameResult, GameState, Player, SimpleHeuristic, Strategy};
use mtga_me::app::gre::{PriorityEntry, StackEntry};

#[test]
fn test_player_opponent() {
    assert_eq!(Player::Us.opponent(), Player::Opponent);
    assert_eq!(Player::Opponent.opponent(), Player::Us);
}

#[test]
fn test_update_from_bot() {
    let lib = build_card_library();
    let lightning = lib.get("Lightning Strike").unwrap().clone();
    let swiftspear = lib.get("Monastery Swiftspear").unwrap().clone();

    let mut bot = Bot::new(1920, 1080);
    // what was read off the hand
    bot.cards_texts = vec!["Lightning Strike".to_string(), "Unknown Card".to_string()];
    bot.battlefield_creatures.insert("Monastery Swiftspear".to_string(), swiftspear.clone());
    bot.land_number = 3;
    bot.land_played_this_turn = true;
    let entry = PriorityEntry {
        priority: 1,
        sequence: 0,
        entry: StackEntry::Spell { card: lightning.clone(), controller: Player::Us, target_creature: None },
    };
    bot.gre.stack.clear();
    bot.gre.stack.push(entry.clone());

    let mut state = GameState::default();
    state.update_from_bot(&bot);

    // hand: only Lightning Strike is recognised
    assert_eq!(state.hand, vec![lightning.clone()]);
    assert_eq!(state.battlefield, vec![swiftspear.clone()]);
    assert!(state.opponent_battlefield.is_empty());
    assert_eq!(state.mana_available, 3);
    assert_eq!(state.land_played_this_turn, true);
    // stack snapshot
    assert_eq!(state.stack, vec![entry.entry.clone()]);
}

#[test]
fn test_simple_heuristic_play_land() {
    let mut state = GameState::default();
    state.land_played_this_turn = false;
    let land_card = build_card_library()
        .values()
        .into_iter()
        .find(|c| matches!(c.card_type, CardType::Land))
        .unwrap();
    state.hand = vec![land_card];
    state.mana_available = 0;

    let mut strat = SimpleHeuristic;
    match strat.decide(&state) {
        GameAction::PlayLand(i) => assert_eq!(i, 0),
        other => panic!("Expected PlayLand, got {:?}", other),
    }
}

#[test]
fn test_simple_heuristic_cast_spell() {
    let mut state = GameState::default();
    state.land_played_this_turn = true;
    let strike = build_card_library().get("Lightning Strike").unwrap().clone();
    state.mana_available = strike.mana_cost.total();
    state.hand = vec![strike];

    let mut strat = SimpleHeuristic;
    match strat.decide(&state) {
        GameAction::CastSpell(i) => assert_eq!(i, 0),
        other => panic!("Expected CastSpell, got {:?}", other),
    }
}

#[test]
fn test_simple_heuristic_pass_priority() {
    let mut state = GameState::default();
    state.land_played_this_turn = true;
    state.hand = vec![];
    state.mana_available = 0;

    let mut strat = SimpleHeuristic;
    match strat.decide(&state) {
        GameAction::PassPriority => (),
        other => panic!("Expected PassPriority, got {:?}", other),
    }
}

#[test]
fn heuristic_does_not_cast_what_it_cannot_pay() {
    let mut state = GameState::default();
    state.land_played_this_turn = true;
    let strike = build_card_library().get("Lightning Strike").unwrap().clone();
    state.mana_available = strike.mana_cost.total() - 1;
    state.hand = vec![strike];
    let mut strat = SimpleHeuristic;
    assert!(matches!(strat.decide(&state), GameAction::PassPriority));
}

#[test]
fn game_result_follows_life_totals() {
    let mut state = GameState::default();
    state.life_total = 5;
    state.opponent_life_total = 0;
    assert!(state.is_game_over());
    assert_eq!(state.result(), GameResult::Win);
    state.life_total = 0;
    state.opponent_life_total = 3;
    assert_eq!(state.result(), GameResult::Loss);
    state.opponent_life_total = 0;
    assert_eq!(state.result(), GameResult::Draw);
    state.life_total = 1;
    state.opponent_life_total = 1;
    assert!(!state.is_game_over());
    assert_eq!(state.result(), GameResult::Ongoing);
}

#[test]
fn test_update_from_bot_includes_opponent_creatures() {
    let lib = build_card_library();
    let mut bot = Bot::new(1920, 1080);
    bot.examine_cards(vec![]);
    let sw = lib.get("Monastery Swiftspear").unwrap().clone();
    let scamp = lib.get("Cacophony Scamp").unwrap().clone();
    bot.battlefield_opponent_creatures.insert(sw.name.clone(), sw.clone());
    bot.battlefield_opponent_creatures.insert(scamp.name.clone(), scamp.clone());
    let mut state = GameState::default();
    state.update_from_bot(&bot);
    let opp_names: Vec<_> = state.opponent_battlefield.iter().map(|c| c.name.clone()).collect();
    assert!(opp_names.contains(&"Monastery Swiftspear".to_string()));
    assert!(opp_names.contains(&"Cacophony Scamp".to_string()));
}
