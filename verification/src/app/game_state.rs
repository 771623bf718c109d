use vstd::prelude::*;

use crate::app::bot::{texts_view, Bot};
use crate::app::card_library::{build_card_library, library_view, Card, CardType, CardV, ManaCost};
use crate::app::game_state_updater::{hand_from, stack_entries, GameStateUpdater};
use crate::app::gre::trigger::cards_view;
use crate::app::gre::stack::{StackEntry, StackEntryV};

verus! {

/// Internal game phases for effect timing
#[derive(Debug, Clone, Copy, PartialEq, Eq, Structural)]
pub enum GamePhase {
    Beginning,
    PreCombatMain,
    BeginningCombat,
    Combat,
    CombatDamage,
    PostCombatMain,
    End,
}

/// The opposing player.
pub open spec fn other_player(p: Player) -> Player {
    match p {
        Player::Us => Player::Opponent,
        Player::Opponent => Player::Us,
    }
}

/// Taking the opposing player twice gives the player back, and the opposing player is never
/// the player.
pub proof fn lemma_opponent_involution(p: Player)
    ensures
        other_player(other_player(p)) == p,
        other_player(p) != p,
{
}

/// A player, from the bot's point of view.
#[derive(Debug, Clone, Copy, PartialEq, Eq, Structural)]
pub enum Player {
    Us,
    Opponent,
}

impl Player {
    /// Returns the opposing player.
    pub fn opponent(self) -> (r: Self)
        ensures
            r == other_player(self),
    {
        match self {
            Player::Us => Player::Opponent,
            Player::Opponent => Player::Us,
        }
    }
}

/// What happens in the game that cards may react to.
#[derive(Debug)]
pub enum GameEvent {
    SpellResolved(String),
    CreatureDied(Card),
    TurnEnded,
    Custom(String),
    PhaseChange(GamePhase),
    OnCombatDamage,
    Targeted(u64),
    ManaAdded(u64),
    CounterAdded(u64, u32),
}

/// The value of a game event.
pub enum GameEventV {
    SpellResolved(Seq<char>),
    CreatureDied(CardV),
    TurnEnded,
    Custom(Seq<char>),
    PhaseChange(GamePhase),
    OnCombatDamage,
    Targeted(u64),
    ManaAdded(u64),
    CounterAdded(u64, u32),
}

impl View for GameEvent {
    type V = GameEventV;

    open spec fn view(&self) -> GameEventV {
        match self {
            GameEvent::SpellResolved(s) => GameEventV::SpellResolved(s@),
            GameEvent::CreatureDied(c) => GameEventV::CreatureDied(c@),
            GameEvent::TurnEnded => GameEventV::TurnEnded,
            GameEvent::Custom(s) => GameEventV::Custom(s@),
            GameEvent::PhaseChange(p) => GameEventV::PhaseChange(*p),
            GameEvent::OnCombatDamage => GameEventV::OnCombatDamage,
            GameEvent::Targeted(id) => GameEventV::Targeted(*id),
            GameEvent::ManaAdded(id) => GameEventV::ManaAdded(*id),
            GameEvent::CounterAdded(id, n) => GameEventV::CounterAdded(*id, *n),
        }
    }
}

impl Clone for GameEvent {
    fn clone(&self) -> (r: Self)
        ensures
            r@ == self@,
    {
        match self {
            GameEvent::SpellResolved(s) => GameEvent::SpellResolved(s.clone()),
            GameEvent::CreatureDied(c) => GameEvent::CreatureDied(c.clone()),
            GameEvent::TurnEnded => GameEvent::TurnEnded,
            GameEvent::Custom(s) => GameEvent::Custom(s.clone()),
            GameEvent::PhaseChange(p) => GameEvent::PhaseChange(*p),
            GameEvent::OnCombatDamage => GameEvent::OnCombatDamage,
            GameEvent::Targeted(id) => GameEvent::Targeted(*id),
            GameEvent::ManaAdded(id) => GameEvent::ManaAdded(*id),
            GameEvent::CounterAdded(id, n) => GameEvent::CounterAdded(*id, *n),
        }
    }
}


/// How a game stands.
#[derive(Debug, PartialEq, Eq, Structural)]
pub enum GameResult {
    Win,
    Loss,
    Draw,
    Ongoing,
}

/// How a game stands for life totals: both players at zero or less is a draw, only the opponent
/// a win, only us a loss, neither an ongoing game.
pub open spec fn result_of(life: i32, opponent_life: i32) -> GameResult {
    let us_dead = life <= 0;
    let opp_dead = opponent_life <= 0;
    if us_dead && opp_dead {
        GameResult::Draw
    } else if opp_dead {
        GameResult::Win
    } else if us_dead {
        GameResult::Loss
    } else {
        GameResult::Ongoing
    }
}

/// What the bot knows of the game.
#[derive(Debug)]
pub struct GameState {
    pub hand: Vec<Card>,
    pub battlefield: Vec<Card>,
    pub opponent_battlefield: Vec<Card>,
    pub graveyard: Vec<Card>,
    pub opponent_graveyard: Vec<Card>,
    pub exile: Vec<Card>,
    pub opponent_exile: Vec<Card>,
    pub library_count: usize,
    pub opponent_library_count: usize,
    pub life_total: i32,
    pub opponent_life_total: i32,
    pub mana_available: u32,
    pub land_played_this_turn: bool,
    pub stack: Vec<StackEntry>,
}

/// The values of a sequence of stack entries.
pub open spec fn entries_view(s: Seq<StackEntry>) -> Seq<StackEntryV> {
    s.map_values(|e: StackEntry| e@)
}

impl GameState {
    /// An empty game: no cards anywhere, every count and total zero.
    pub fn new() -> (r: Self)
        ensures
            r.is_empty(),
    {
        GameState::default()
    }

    /// Whether nothing is known of the game yet.
    pub open spec fn is_empty(&self) -> bool {
        &&& self.hand@.len() == 0
        &&& self.battlefield@.len() == 0
        &&& self.opponent_battlefield@.len() == 0
        &&& self.graveyard@.len() == 0
        &&& self.opponent_graveyard@.len() == 0
        &&& self.exile@.len() == 0
        &&& self.opponent_exile@.len() == 0
        &&& self.library_count == 0
        &&& self.opponent_library_count == 0
        &&& self.life_total == 0
        &&& self.opponent_life_total == 0
        &&& self.mana_available == 0
        &&& !self.land_played_this_turn
        &&& self.stack@.len() == 0
    }

    /// Whether a player is at zero life or less.
    pub fn is_game_over(&self) -> (r: bool)
        ensures
            r == (self.life_total <= 0 || self.opponent_life_total <= 0),
    {
        self.life_total <= 0 || self.opponent_life_total <= 0
    }

    /// How the game stands (see `result_of`).
    pub fn result(&self) -> (r: GameResult)
        ensures
            r == result_of(self.life_total, self.opponent_life_total),
    {
        let us_dead = self.life_total <= 0;
        let opp_dead = self.opponent_life_total <= 0;
        match (us_dead, opp_dead) {
            (true, true) => GameResult::Draw,
            (false, true) => GameResult::Win,
            (true, false) => GameResult::Loss,
            _ => GameResult::Ongoing,
        }
    }

    /// Takes what the bot has read and tracked: the hand from the texts that name a library card
    /// exactly, both sides of the battlefield, the mana, the land flag, and the engine's stack.
    pub fn update_from_bot(&mut self, bot: &Bot)
        requires
            bot.wf(),
        ensures
            cards_view(final(self).hand@) == hand_from(texts_view(bot.cards_texts@), library_view()),
            cards_view(final(self).battlefield@) == bot.battlefield_creatures.view().map_values(|p: (Seq<char>, CardV)| p.1),
            cards_view(final(self).opponent_battlefield@) == bot.battlefield_opponent_creatures.view().map_values(
                |p: (Seq<char>, CardV)| p.1,
            ),
            final(self).mana_available == bot.land_number,
            final(self).land_played_this_turn == bot.land_played_this_turn,
            entries_view(final(self).stack@) == stack_entries(bot.gre@.stack),
            final(self).life_total == old(self).life_total,
            final(self).opponent_life_total == old(self).opponent_life_total,
            *final(self) == (GameState {
                hand: final(self).hand,
                battlefield: final(self).battlefield,
                opponent_battlefield: final(self).opponent_battlefield,
                mana_available: final(self).mana_available,
                land_played_this_turn: final(self).land_played_this_turn,
                stack: final(self).stack,
                ..*old(self)
            }),
    {
        let library = build_card_library();
        let mut updater = GameStateUpdater { state: GameState::default() };
        updater.update_hand(&bot.cards_texts, &library);
        updater.update_stack(&bot.gre.stack);
        let GameState { hand, stack, .. } = updater.state;
        self.hand = hand;
        self.stack = stack;
        self.battlefield = bot.battlefield_creatures.values();
        self.opponent_battlefield = bot.battlefield_opponent_creatures.values();
        self.mana_available = bot.land_number;
        self.land_played_this_turn = bot.land_played_this_turn;
        proof {
            assert(cards_view(self.battlefield@) =~= bot.battlefield_creatures.view().map_values(|p: (Seq<char>, CardV)| p.1));
            assert(cards_view(self.opponent_battlefield@) =~= bot.battlefield_opponent_creatures.view().map_values(
                |p: (Seq<char>, CardV)| p.1,
            ));
            assert(texts_view(bot.cards_texts@) == bot.cards_texts@.map_values(|s: String| s@));
        }
    }

    /// Moving to a phase changes nothing the bot tracks.
    pub fn goto_phase(&mut self, _phase: GamePhase)
        ensures
            *final(self) == *old(self),
    {
    }
}

/// The game is over exactly when it is not ongoing.
pub proof fn lemma_game_over_iff_decided(life: i32, opponent_life: i32)
    ensures
        (life <= 0 || opponent_life <= 0) <==> result_of(life, opponent_life) != GameResult::Ongoing,
{
}

impl Default for GameState {
    fn default() -> (r: Self)
        ensures
            r.is_empty(),
    {
        GameState {
            hand: Vec::new(),
            battlefield: Vec::new(),
            opponent_battlefield: Vec::new(),
            graveyard: Vec::new(),
            opponent_graveyard: Vec::new(),
            exile: Vec::new(),
            opponent_exile: Vec::new(),
            library_count: 0,
            opponent_library_count: 0,
            life_total: 0,
            opponent_life_total: 0,
            mana_available: 0,
            land_played_this_turn: false,
            stack: Vec::new(),
        }
    }
}

/// What the bot decides to do next.
#[derive(Debug)]
pub enum GameAction {
    PlayLand(usize),
    CastSpell(usize),
    AttackWith(Vec<usize>),
    ActivateAbility { card_idx: usize, ability_idx: usize },
    PassPriority,
}

/// The value of an action.
pub enum GameActionV {
    PlayLand(usize),
    CastSpell(usize),
    AttackWith(Seq<usize>),
    ActivateAbility { card_idx: usize, ability_idx: usize },
    PassPriority,
}

impl View for GameAction {
    type V = GameActionV;

    open spec fn view(&self) -> GameActionV {
        match self {
            GameAction::PlayLand(i) => GameActionV::PlayLand(*i),
            GameAction::CastSpell(i) => GameActionV::CastSpell(*i),
            GameAction::AttackWith(v) => GameActionV::AttackWith(v@),
            GameAction::ActivateAbility { card_idx, ability_idx } => GameActionV::ActivateAbility {
                card_idx: *card_idx,
                ability_idx: *ability_idx,
            },
            GameAction::PassPriority => GameActionV::PassPriority,
        }
    }
}

/// A way of choosing the next action from what is known of the game.
pub trait Strategy {
    fn decide(&mut self, state: &GameState) -> (r: GameAction);
}

/// Plays a land when none was played this turn, else casts the first card it can pay for, else
/// passes.
pub struct SimpleHeuristic;

/// The first position among the first `n` cards that is a land.
pub open spec fn first_land_upto(hand: Seq<CardV>, n: nat) -> Option<int>
    decreases n,
{
    if n == 0 {
        None
    } else {
        match first_land_upto(hand, (n - 1) as nat) {
            Some(i) => Some(i),
            None => if hand[n - 1].card_type is Land { Some(n - 1) } else { None },
        }
    }
}

/// The first position among the first `n` cards whose cost fits the available mana.
pub open spec fn first_affordable_upto(hand: Seq<CardV>, mana: u32, n: nat) -> Option<int>
    decreases n,
{
    if n == 0 {
        None
    } else {
        match first_affordable_upto(hand, mana, (n - 1) as nat) {
            Some(i) => Some(i),
            None => if hand[n - 1].mana_cost.spec_total() <= mana { Some(n - 1) } else { None },
        }
    }
}

/// Once a land is found, looking further does not change which one is first.
proof fn lemma_first_land_stable(hand: Seq<CardV>, k: nat, n: nat)
    requires
        k <= n,
        first_land_upto(hand, k) is Some,
    ensures
        first_land_upto(hand, n) == first_land_upto(hand, k),
    decreases n,
{
    if n > k {
        lemma_first_land_stable(hand, k, (n - 1) as nat);
    }
}

/// Once an affordable card is found, looking further does not change which one is first.
proof fn lemma_first_affordable_stable(hand: Seq<CardV>, mana: u32, k: nat, n: nat)
    requires
        k <= n,
        first_affordable_upto(hand, mana, k) is Some,
    ensures
        first_affordable_upto(hand, mana, n) == first_affordable_upto(hand, mana, k),
    decreases n,
{
    if n > k {
        lemma_first_affordable_stable(hand, mana, k, (n - 1) as nat);
    }
}

/// What the simple heuristic decides.
pub open spec fn heuristic_choice(hand: Seq<CardV>, land_played: bool, mana: u32) -> GameActionV {
    if !land_played && first_land_upto(hand, hand.len()) is Some {
        GameActionV::PlayLand(first_land_upto(hand, hand.len())->Some_0 as usize)
    } else {
        match first_affordable_upto(hand, mana, hand.len()) {
            Some(i) => GameActionV::CastSpell(i as usize),
            None => GameActionV::PassPriority,
        }
    }
}

impl SimpleHeuristic {
    /// What the simple heuristic decides (see `heuristic_choice`); costs are compared as whole
    /// numbers, whatever their size.
    pub fn pick(&self, state: &GameState) -> (r: GameAction)
        ensures
            r@ == heuristic_choice(
                crate::app::gre::trigger::cards_view(state.hand@),
                state.land_played_this_turn,
                state.mana_available,
            ),
    {
        let ghost h = crate::app::gre::trigger::cards_view(state.hand@);
        if !state.land_played_this_turn {
            let mut i: usize = 0;
            while i < state.hand.len()
                invariant
                    i <= state.hand@.len(),
                    h == crate::app::gre::trigger::cards_view(state.hand@),
                    !state.land_played_this_turn,
                    first_land_upto(h, i as nat) is None,
                decreases state.hand.len() - i,
            {
                if matches!(state.hand[i].card_type, CardType::Land) {
                    proof {
                        assert(h[i as int] == state.hand@[i as int]@);
                        assert(h[i as int].card_type is Land);
                        assert(first_land_upto(h, (i + 1) as nat) == Some(i as int));
                        lemma_first_land_stable(h, (i + 1) as nat, h.len());
                    }
                    return GameAction::PlayLand(i);
                }
                i += 1;
            }
        }
        let mut i: usize = 0;
        while i < state.hand.len()
            invariant
                i <= state.hand@.len(),
                h == crate::app::gre::trigger::cards_view(state.hand@),
                first_affordable_upto(h, state.mana_available, i as nat) is None,
                !state.land_played_this_turn ==> first_land_upto(h, h.len()) is None,
            decreases state.hand.len() - i,
        {
            proof {
                assert(h[i as int] == state.hand@[i as int]@);
            }
            let cost = wide_total(&state.hand[i].mana_cost);
            if cost <= state.mana_available as u64 {
                proof {
                    lemma_first_affordable_stable(h, state.mana_available, (i + 1) as nat, h.len());
                }
                return GameAction::CastSpell(i);
            }
            i += 1;
        }
        GameAction::PassPriority
    }
}

impl Strategy for SimpleHeuristic {
    /// Decides as `SimpleHeuristic::pick` does.
    fn decide(&mut self, state: &GameState) -> (r: GameAction)
        ensures
            r@ == heuristic_choice(
                crate::app::gre::trigger::cards_view(state.hand@),
                state.land_played_this_turn,
                state.mana_available,
            ),
    {
        self.pick(state)
    }
}

/// The whole of a mana cost, as a `u64` (it cannot overflow there).
fn wide_total(c: &ManaCost) -> (r: u64)
    ensures
        r == c.spec_total(),
{
    c.colorless as u64 + c.red as u64 + c.green as u64 + c.blue as u64 + c.white as u64 + c.black as u64
}
} // verus!
