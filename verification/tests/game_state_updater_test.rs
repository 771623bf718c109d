use mtga_me::app::card_library::{build_card_library, CardLibrary};
use mtga_me::app::game_state::Player;
use mtga_me::app::game_state_updater::GameStateUpdater;
use mtga_me::app::gre::{PriorityEntry, StackEntry};

fn spell_entry(name: &str, controller: Player, sequence: usize, priority: u8) -> PriorityEntry {
    PriorityEntry {
        priority,
        sequence,
        entry: StackEntry::Spell {
            card: build_card_library().get(name).unwrap().clone(),
            controller,
            target_creature: None,
        },
    }
}

/// Refreshes everything with nothing read off the battlefields and both life totals at 20.
fn refresh(updater: &mut GameStateUpdater, texts: &Vec<String>, mana: u32, land_played: bool, stack: &Vec<PriorityEntry>) {
    let mut ours = CardLibrary::new();
    let mut theirs = CardLibrary::new();
    updater.refresh_all(
        20,
        20,
        texts,
        &build_card_library(),
        mana,
        land_played,
        stack,
        &mut ours,
        &mut theirs,
        CardLibrary::new(),
        CardLibrary::new(),
    );
}

#[test]
fn mana_and_land_update_across_turns() {
    let mut updater = GameStateUpdater::new();
    updater.state.land_played_this_turn = true;
    updater.state.mana_available = 1;
    refresh(&mut updater, &vec![], 3, false, &vec![]);
    assert_eq!(updater.state.mana_available, 3, "mana_available must be 3 in the new turn");
    assert!(!updater.state.land_played_this_turn, "land_played_this_turn must be reset in the new turn");
}

#[test]
fn stack_snapshot_is_refreshed() {
    let mut updater = GameStateUpdater::new();
    let snapshot = vec![spell_entry("Lightning Strike", Player::Us, 0, 1)];
    refresh(&mut updater, &vec![], 0, false, &snapshot);
    assert_eq!(updater.state.stack.len(), 1, "the stack snapshot must hold one entry");
    match &updater.state.stack[0] {
        StackEntry::Spell { card, controller, .. } => {
            assert_eq!(card.name, "Lightning Strike");
            assert_eq!(*controller, Player::Us);
        },
        _ => panic!("Unexpected stack entry"),
    }
}

#[test]
fn invalid_bot_state_gracefully_handled() {
    let mut updater = GameStateUpdater::new();
    updater.state.hand.clear();
    updater.state.library_count = 5;
    refresh(&mut updater, &vec![], 0, false, &vec![]);
    assert_eq!(updater.state.hand.len(), 0, "an empty hand is read without failure");
}

#[test]
fn test_update_stack_directly() {
    let mut updater = GameStateUpdater::new();
    let pe = spell_entry("Lightning Strike", Player::Opponent, 99, 7);
    updater.update_stack(&vec![pe]);
    assert_eq!(updater.state.stack.len(), 1);
    match &updater.state.stack[0] {
        StackEntry::Spell { card, controller, .. } => {
            assert_eq!(card.name, "Lightning Strike");
            assert_eq!(*controller, Player::Opponent);
        },
        _ => panic!("Unexpected stack entry"),
    }
}

#[test]
fn test_refresh_all_complex_updates() {
    let mut updater = GameStateUpdater::new();
    updater.state.hand.push(build_card_library().get("Lightning Strike").unwrap().clone());
    let stack = vec![
        spell_entry("Burst Lightning", Player::Us, 0, 1),
        spell_entry("Lightning Strike", Player::Opponent, 1, 1),
    ];
    let texts = vec!["Lightning Strike".to_string(), "Burst Lightning".to_string()];
    refresh(&mut updater, &texts, 2, true, &stack);

    let names: Vec<_> = updater.state.hand.iter().map(|c| c.name.as_str()).collect();
    assert!(names.contains(&"Lightning Strike"));
    assert!(names.contains(&"Burst Lightning"));
    assert_eq!(updater.state.mana_available, 2);
    assert!(updater.state.land_played_this_turn);
    assert_eq!(updater.state.stack.len(), 2);
}

#[test]
fn test_refresh_all_handles_inconsistent_ocr_texts() {
    let mut updater = GameStateUpdater::new();
    let texts = vec!["???".to_string(), "".to_string(), "NonCard".to_string()];
    refresh(&mut updater, &texts, 0, false, &vec![]);
    assert!(updater.state.hand.is_empty());
}

#[test]
fn test_refresh_all_simultaneous_battlefield_and_mana_updates() {
    let mut updater = GameStateUpdater::new();
    updater.state.land_played_this_turn = true;
    updater.state.mana_available = 5;
    refresh(&mut updater, &vec![], 2, false, &vec![]);
    assert_eq!(updater.state.mana_available, 2);
    assert!(!updater.state.land_played_this_turn);
}

#[test]
fn refresh_sets_life_totals_read() {
    let mut updater = GameStateUpdater::new();
    let mut ours = CardLibrary::new();
    let mut theirs = CardLibrary::new();
    updater.refresh_all(
        17,
        9,
        &vec![],
        &build_card_library(),
        0,
        false,
        &vec![],
        &mut ours,
        &mut theirs,
        CardLibrary::new(),
        CardLibrary::new(),
    );
    assert_eq!(updater.state.life_total, 17);
    assert_eq!(updater.state.opponent_life_total, 9);
}
