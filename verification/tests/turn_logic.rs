use mtga_me::app::bot::{Bot, BotAction};
use mtga_me::app::card_library::{build_card_library, Card, CardLibrary, CardType, Creature, ManaCost};
use mtga_me::app::game_state::GamePhase;
use mtga_me::app::ocr::{crop_extent, sanitize_ocr_text, threshold_image, white_invert_image, CropError};
use mtga_me::app::state::attack_phase_state::AttackPhaseState;
use mtga_me::app::state::combat_damage_state::CombatDamageState;
use mtga_me::app::state::first_main_phase_state::{battlefield_key_for, FirstMainPhaseState};
use mtga_me::app::state::mulligan_state::MulliganState;
use mtga_me::app::state::opponents_turn_state::OpponentsTurnState;
use mtga_me::app::state::second_main_phase_state::SecondMainPhaseState;
use mtga_me::app::state::start_state::StartState;
use mtga_me::app::state::{clear_summoning_sickness, AppState, PromptReply};
use mtga_me::app::text::push_decimal;
use mtga_me::app::ui::{check_button_color, get_color, Color};
use mtga_me::app::App;
use mtga_me::multi_platform::{detect_backend, get_pixel, Backend, HostOs};

fn creature(name: &str, power: i32, toughness: i32, sick: bool) -> Card {
    Card::new(
        name,
        CardType::Creature(Creature {
            power,
            toughness,
            summoning_sickness: sick,
            abilities: vec![],
            types: vec![],
            ephemeral_power: 0,
            ephemeral_toughness: 0,
        }),
        ManaCost::free(),
    )
}

fn sickness(lib: &CardLibrary, name: &str) -> bool {
    match &lib.get(name).unwrap().card_type {
        CardType::Creature(cr) => cr.summoning_sickness,
        _ => panic!("not a creature"),
    }
}

#[test]
fn sanitize_keeps_letters_digits_space_and_some_punctuation() {
    assert_eq!(sanitize_ocr_text("Hello, World! 3/3 - it's."), "Hello, World 33 - it's.");
    assert_eq!(sanitize_ocr_text("#@!"), "");
    assert_eq!(sanitize_ocr_text("Next\t"), "Next\t");
}

#[test]
fn crop_extent_checks_bounds_then_size() {
    assert_eq!(crop_extent(10, 20, 30, 50, 100, 100), Ok((20, 30)));
    assert_eq!(
        crop_extent(0, 0, 200, 10, 100, 100),
        Err(CropError::OutOfBounds { x1: 0, y1: 0, x2: 200, y2: 10, width: 100, height: 100 })
    );
    assert_eq!(
        crop_extent(10, 10, 5, 20, 100, 100),
        Err(CropError::InvalidRegion { x1: 10, y1: 10, x2: 5, y2: 20, width: 0, height: 10 })
    );
}

#[test]
fn threshold_and_invert() {
    assert_eq!(threshold_image(&vec![0, 99, 100, 255], 100), vec![0, 0, 255, 255]);
    assert_eq!(
        white_invert_image(&vec![255, 255, 255, 200, 255, 255, 210, 210, 210]),
        vec![0, 0, 0, 255, 255, 255, 0, 0, 0]
    );
}

#[test]
fn colors_and_button() {
    assert_eq!(get_color(Ok((1, 2, 3))), Color { r: 1, g: 2, b: 3 });
    assert_eq!(get_color(Err("no screen".to_string())), Color { r: 0, g: 0, b: 0 });
    assert_eq!(check_button_color(Color { r: 201, g: 0, b: 0 }), "red");
    assert_eq!(check_button_color(Color { r: 10, g: 0, b: 201 }), "blue");
    assert_eq!(check_button_color(Color { r: 200, g: 255, b: 200 }), "black");
}

#[test]
fn pixels_and_backends() {
    // 2 x 2 RGBA screen, pixel (x, y) holds (10x + y, 1, 2)
    let mut buf = Vec::new();
    for y in 0..2u8 {
        for x in 0..2u8 {
            buf.extend_from_slice(&[10 * x + y, 1, 2, 255]);
        }
    }
    assert_eq!(get_pixel(&buf, 2, 2, 1, 0), Some((10, 1, 2)));
    assert_eq!(get_pixel(&buf, 2, 2, 1, 1), Some((11, 1, 2)));
    assert_eq!(get_pixel(&buf, 2, 2, 2, 0), None);
    assert_eq!(get_pixel(&buf, 2, 2, -1, 0), None);
    assert_eq!(detect_backend(HostOs::Windows, true, None), Backend::Windows);
    assert_eq!(detect_backend(HostOs::Linux, false, Some("wayland")), Backend::Wayland);
    assert_eq!(detect_backend(HostOs::Linux, true, None), Backend::Wayland);
    assert_eq!(detect_backend(HostOs::Linux, false, Some("x11")), Backend::X11);
    assert_eq!(detect_backend(HostOs::MacOs, true, Some("wayland")), Backend::X11);
}

#[test]
fn decimal_and_battlefield_keys() {
    let mut s = String::from("n=");
    push_decimal(&mut s, 0);
    assert_eq!(s, "n=0");
    let mut t = String::new();
    push_decimal(&mut t, 1234);
    assert_eq!(t, "1234");

    let mut bf = CardLibrary::new();
    assert_eq!(battlefield_key_for(&bf, &"Heartfire Hero".to_string()), "Heartfire Hero");
    bf.insert("Heartfire Hero".to_string(), creature("Heartfire Hero", 1, 1, false));
    assert_eq!(battlefield_key_for(&bf, &"Heartfire Hero".to_string()), "Heartfire Hero#2");
    bf.insert("Heartfire Hero#2".to_string(), creature("Heartfire Hero", 1, 1, false));
    assert_eq!(battlefield_key_for(&bf, &"Heartfire Hero".to_string()), "Heartfire Hero#3");
}

#[test]
fn states_follow_each_other() {
    let mut s = AppState::Start(StartState::new());
    assert_eq!(s.phase(), GamePhase::Beginning);
    let mut s = s.next();
    assert!(matches!(s, AppState::Mulligan(_)));
    let mut s = s.next();
    assert!(matches!(s, AppState::FirstMain(_)));
    assert_eq!(s.phase(), GamePhase::PreCombatMain);
    let mut s = s.next();
    assert!(matches!(s, AppState::Attack(_)));
    assert_eq!(s.phase(), GamePhase::Combat);
    let mut s = s.next();
    assert!(matches!(s, AppState::CombatDamage(_)));
    assert_eq!(s.phase(), GamePhase::CombatDamage);
    let mut s = s.next();
    assert!(matches!(s, AppState::SecondMain(_)));
    assert_eq!(s.phase(), GamePhase::PostCombatMain);
    let mut s = s.next();
    assert!(matches!(s, AppState::OpponentsTurn(_)));
    assert_eq!(s.phase(), GamePhase::End);
    let s = s.next();
    assert!(matches!(s, AppState::FirstMain(_)));

    let mut skipping = AppState::FirstMain(FirstMainPhaseState { skip_to_opponent: true });
    assert!(matches!(skipping.next(), AppState::OpponentsTurn(_)));
}

#[test]
fn mulligan_reads_who_goes_first() {
    let m = MulliganState::new();
    let mut bot = Bot::new(1920, 1080);
    let r = m.read_start_order(&mut bot, "Opponent Goes First");
    assert_eq!(r, PromptReply { press_space: true, done: true });
    assert_eq!(bot.card_count, 8);
    assert!(m.waits_for_next(&bot));
    let r = m.read_start_order(&mut bot, "You Go First");
    assert_eq!(r, PromptReply { press_space: true, done: true });
    assert_eq!(bot.card_count, 7);
    let r = m.read_start_order(&mut bot, "You Go Second");
    assert_eq!(r, PromptReply { press_space: false, done: false });
    assert_eq!(bot.card_count, 7);
    assert!(!m.waits_for_next(&bot));
    assert!(m.read_next_prompt("Next").done);
}

#[test]
fn start_prepares_counters() {
    let mut bot = Bot::new(800, 600);
    StartState::new().prepare(&mut bot);
    assert_eq!((bot.land_number, bot.land_count, bot.card_count), (2, 2, 5));
}

#[test]
fn prompts_of_the_turn() {
    let o = OpponentsTurnState::new();
    assert_eq!(o.read_prompt("Pass"), PromptReply { press_space: true, done: false });
    assert_eq!(o.read_prompt("My Turn"), PromptReply { press_space: true, done: false });
    assert_eq!(o.read_prompt("Next"), PromptReply { press_space: false, done: true });
    assert_eq!(o.read_prompt("Waiting"), PromptReply { press_space: false, done: false });
    let mut bot = Bot::new(800, 600);
    o.finish(&mut bot);
    assert!(bot.last_opponent_turn);

    let s = SecondMainPhaseState::new();
    assert!(s.turn_passed("Opponent's Turn"));
    assert!(!s.turn_passed("End Turn"));
    assert_eq!(s.read_end_turn_prompt("Next"), PromptReply { press_space: true, done: false });
    assert_eq!(s.read_end_turn_prompt("End Turn"), PromptReply { press_space: true, done: true });
    assert_eq!(s.read_end_turn_prompt("Resolve"), PromptReply { press_space: false, done: false });

    let a = AttackPhaseState::new();
    assert!(AttackPhaseState::is_attackers_text("2 Attackers"));
    assert!(AttackPhaseState::is_attackers_text(" 1 Attacker "));
    assert!(!AttackPhaseState::is_attackers_text("Attackers"));
    assert!(!AttackPhaseState::is_attackers_text("All Attack"));
    assert_eq!(a.read_attackers_prompt("3 Attackers"), PromptReply { press_space: true, done: true });
    assert_eq!(a.read_after_attack_prompt("Next"), PromptReply { press_space: true, done: false });
    assert_eq!(a.read_after_attack_prompt(""), PromptReply { press_space: false, done: true });
}

#[test]
fn attackers_are_the_creatures_without_sickness() {
    let mut bot = Bot::new(800, 600);
    bot.battlefield_creatures.insert("A".to_string(), creature("A", 2, 2, false));
    bot.battlefield_creatures.insert("B".to_string(), creature("B", 1, 1, true));
    bot.battlefield_creatures.insert("C".to_string(), creature("C", 3, 1, false));
    let mut a = AttackPhaseState::new();
    assert!(a.check_can_attack(&bot));
    assert!(!a.no_attack);
    let r = a.read_all_attack_prompt(&mut bot, "All Attack");
    assert_eq!(r, PromptReply { press_space: true, done: true });
    assert_eq!(bot.attacking, vec!["A".to_string(), "C".to_string()]);

    let empty = Bot::new(800, 600);
    let mut b = AttackPhaseState::new();
    assert!(!b.check_can_attack(&empty));
    assert!(b.no_attack);
}

#[test]
fn untap_and_reset_clear_sickness() {
    let mut bot = Bot::new(800, 600);
    bot.land_count = 4;
    bot.battlefield_creatures.insert("A".to_string(), creature("A", 2, 2, true));
    let f = FirstMainPhaseState::new();
    f.untap_and_clear_sickness(&mut bot);
    assert_eq!(bot.land_number, 4);
    assert!(!sickness(&bot.battlefield_creatures, "A"));

    bot.battlefield_creatures.insert("B".to_string(), creature("B", 1, 1, true));
    bot.land_played_this_turn = true;
    SecondMainPhaseState::new().reset_state(&mut bot);
    assert!(!bot.land_played_this_turn);
    assert!(!sickness(&bot.battlefield_creatures, "B"));

    let mut lib = CardLibrary::new();
    lib.insert("C".to_string(), creature("C", 1, 1, true));
    clear_summoning_sickness(&mut lib);
    assert!(!sickness(&lib, "C"));
}

#[test]
fn first_main_refresh_only_after_the_first_turn() {
    let mut bot = Bot::new(800, 600);
    let mut f = FirstMainPhaseState::new();
    assert!(!f.refresh_battlefield_if_needed(&mut bot));
    assert!(bot.first_main_phase_done);
    assert!(f.refresh_battlefield_if_needed(&mut bot));
}

#[test]
fn casting_a_creature_puts_it_on_our_battlefield() {
    let library = build_card_library();
    let mut bot = Bot::new(800, 600);
    bot.examine_cards(vec!["Heartfire Hero".to_string()]);
    bot.card_count = 1;
    bot.land_number = 3;
    let mut f = FirstMainPhaseState::new();
    let again = f.cast_creature_step(&mut bot, &library);
    // one red mana, taken twice
    assert_eq!(bot.land_number, 1);
    assert!(!again);
    assert!(bot.battlefield_creatures.contains_key("Heartfire Hero"));
    assert!(sickness(&bot.battlefield_creatures, "Heartfire Hero"));
    assert_eq!(bot.last_cast_card_name, "Heartfire Hero");

    // nothing left to cast: the step does nothing
    let mut idle = Bot::new(800, 600);
    idle.land_number = 0;
    assert!(!f.cast_creature_step(&mut idle, &library));
}

#[test]
fn attack_is_skipped_only_with_nothing_to_do() {
    let mut bot = Bot::new(800, 600);
    let mut f = FirstMainPhaseState::new();
    f.decide_attack_or_skip(&bot);
    assert!(f.skip_to_opponent);

    bot.battlefield_creatures.insert("A".to_string(), creature("A", 2, 2, false));
    f.decide_attack_or_skip(&bot);
    assert!(!f.skip_to_opponent);

    let mut caster = Bot::new(800, 600);
    caster.examine_cards(vec!["Lightning Strike".to_string()]);
    caster.land_number = 2;
    f.decide_attack_or_skip(&caster);
    assert!(!f.skip_to_opponent);
    caster.land_number = 0;
    f.decide_attack_or_skip(&caster);
    assert!(f.skip_to_opponent);
}

#[test]
fn combat_outcome_is_applied() {
    let mut bot = Bot::new(800, 600);
    bot.battlefield_creatures.insert("A".to_string(), creature("A", 2, 2, false));
    bot.battlefield_creatures.insert("B".to_string(), creature("B", 1, 1, false));
    bot.battlefield_opponent_creatures.insert("X".to_string(), creature("X", 1, 1, false));
    bot.updater.state.life_total = 20;
    bot.updater.state.opponent_life_total = 20;
    bot.attacking = vec!["A".to_string()];
    let c = CombatDamageState::new();
    c.apply_combat_outcome(&mut bot, &vec![true, false], &vec![false], 3, 2);
    assert!(bot.battlefield_creatures.contains_key("A"));
    assert!(!bot.battlefield_creatures.contains_key("B"));
    assert_eq!(bot.battlefield_opponent_creatures.len(), 0);
    assert_eq!(bot.updater.state.opponent_life_total, 17);
    assert_eq!(bot.updater.state.life_total, 22);
    assert!(bot.attacking.is_empty());

    bot.updater.state.opponent_life_total = i32::MIN + 1;
    c.apply_combat_outcome(&mut bot, &vec![], &vec![], 5, 0);
    assert_eq!(bot.updater.state.opponent_life_total, i32::MIN);
}

#[test]
fn combat_without_attackers_keeps_living_creatures() {
    let mut bot = Bot::new(800, 600);
    bot.battlefield_creatures.insert("A".to_string(), creature("A", 2, 2, false));
    bot.battlefield_creatures.insert("Dead".to_string(), creature("Dead", 1, 0, false));
    bot.battlefield_opponent_creatures.insert("X".to_string(), creature("X", 1, 1, false));
    bot.updater.state.life_total = 20;
    bot.updater.state.opponent_life_total = 20;
    CombatDamageState::new().resolve_combat_damage(&mut bot);
    assert!(bot.battlefield_creatures.contains_key("A"));
    assert!(!bot.battlefield_creatures.contains_key("Dead"));
    assert!(bot.battlefield_opponent_creatures.contains_key("X"));
    assert_eq!(bot.updater.state.life_total, 20);
    assert_eq!(bot.updater.state.opponent_life_total, 20);
}

#[test]
fn app_moves_through_the_turn() {
    let mut app = App::new(1920, 1080);
    assert!(matches!(app.state, AppState::Start(_)));
    app.next_state();
    assert!(matches!(app.state, AppState::Mulligan(_)));
    app.begin_step();
    app.finish_step();
    assert!(matches!(app.state, AppState::FirstMain(_)));
    assert!(app.bot.updater.state.hand.is_empty());
}

#[test]
fn casting_pass_goes_from_the_last_card_to_the_first() {
    let mut bot = Bot::new(800, 600);
    bot.examine_cards(vec![
        "Heartfire Hero".to_string(),
        "Mountain".to_string(),
        "Monastery Swiftspear".to_string(),
    ]);
    bot.card_count = 3;
    bot.land_number = 2;
    let left = bot.cast_creatures();
    assert_eq!(left, 0);
    assert_eq!(bot.land_number, 0);
    assert_eq!(bot.cards_texts, vec!["Mountain".to_string()]);
    assert_eq!(bot.card_count, 1);
    assert!(sickness(&bot.battlefield_creatures, "Monastery Swiftspear"));
    assert!(sickness(&bot.battlefield_creatures, "Heartfire Hero"));
    assert_eq!(
        bot.pending,
        vec![
            BotAction::PlayCard { index: 2, card_count: 3 },
            BotAction::RefreshBattlefield,
            BotAction::PlayCard { index: 0, card_count: 2 },
            BotAction::RefreshBattlefield,
        ]
    );
    assert_eq!(bot.last_cast_card_name, "Heartfire Hero");
}

#[test]
fn casting_pass_skips_what_mana_does_not_pay() {
    let mut bot = Bot::new(800, 600);
    bot.examine_cards(vec!["Screaming Nemesis".to_string()]);
    bot.card_count = 1;
    bot.land_number = 2;
    assert_eq!(bot.cast_creatures(), 2);
    assert_eq!(bot.cards_texts.len(), 1);
    assert!(bot.pending.is_empty());
}

#[test]
fn instant_is_cast_at_our_creature() {
    let mut bot = Bot::new(800, 600);
    bot.examine_cards(vec!["Lightning Strike".to_string()]);
    bot.card_count = 1;
    bot.land_number = 5;
    bot.battlefield_creatures.insert("A".to_string(), creature("A", 1, 1, false));
    bot.cast_instants_targeting_creature(0);
    // the instant's cost is spent twice
    assert_eq!(bot.land_number, 1);
    assert!(bot.cards_texts.is_empty());
    assert_eq!(
        bot.pending,
        vec![BotAction::PlayCard { index: 0, card_count: 1 }, BotAction::TargetCreature { index: 0, creature_count: 1 }]
    );

    // nothing castable: nothing happens
    let mut idle = Bot::new(800, 600);
    idle.examine_cards(vec!["Lightning Strike".to_string()]);
    idle.land_number = 0;
    idle.cast_instants_targeting_creature(0);
    assert_eq!(idle.cards_texts.len(), 1);
    assert!(idle.pending.is_empty());
}
