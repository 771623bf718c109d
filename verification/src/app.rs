//! The bot's game model: cards, effects, the rules engine and the turn logic.
pub mod card;
pub mod card_attribute;
pub mod bot;
pub mod card_library;
pub mod combat_engine;
pub mod error;
pub mod game_state;
pub mod game_state_updater;
pub mod gre;
pub mod ocr;
pub mod state;
pub mod text;
pub mod ui;

use vstd::prelude::*;

use crate::app::bot::Bot;
use crate::app::card_library::Card;
use crate::app::game_state::{GameEvent, GameEventV, GamePhase, Player};
use crate::app::game_state_updater::GameStateUpdater;
use crate::app::gre::trigger::{event_trigger, handed_cards_result};
use crate::app::state::start_state::StartState;
use crate::app::state::{follows_state, phase_of, AppState};

verus! {

/// The bot together with the state of the turn it is in.
pub struct App {
    pub state: AppState,
    pub bot: Bot,
}

impl App {
    /// A new game for a screen of the given size: the start state and a new bot.
    pub fn new(screen_width: i32, screen_height: i32) -> (r: Self)
        ensures
            r.state matches AppState::Start(_),
            r.bot.wf(),
            r.bot.screen_width == screen_width,
            r.bot.screen_height == screen_height,
    {
        App { state: AppState::Start(StartState::new()), bot: Bot::new(screen_width, screen_height) }
    }

    /// Moves to the next state, and makes the phase it plays in known to the engine.
    pub fn next_state(&mut self)
        requires
            old(self).bot.wf(),
        ensures
            final(self).bot.wf(),
            follows_state(old(self).state, final(self).state),
            final(self).bot.gre@ == handed_cards_result(
                old(self).bot.gre@,
                Seq::empty(),
                event_trigger(GameEventV::PhaseChange(phase_of(final(self).state))),
                Player::Us,
            ),
            final(self).bot == (Bot { gre: final(self).bot.gre, ..old(self).bot }),
    {
        let next = self.state.next();
        let new_phase = next.phase();
        self.state = next;
        let mut nothing: Vec<Card> = Vec::new();
        self.bot.gre.trigger_event(GameEvent::PhaseChange(new_phase), &mut nothing, Player::Us);
        proof {
            assert(crate::app::gre::trigger::cards_view(Seq::<Card>::empty()) =~= Seq::empty());
        }
    }

    /// The start of a step of the game loop: the delayed effects due in the current phase run.
    pub fn begin_step(&mut self)
        requires
            old(self).bot.wf(),
        ensures
            final(self).bot.wf(),
            final(self).bot.gre@.executed_delayed == old(self).bot.gre@.executed_delayed.union(
                crate::app::gre::due_ids(old(self).bot.gre@, phase_of(old(self).state)),
            ),
            final(self).state == old(self).state,
            final(self).bot == (Bot { gre: final(self).bot.gre, ..old(self).bot }),
    {
        let phase = self.state.phase();
        self.bot.gre.dispatch_delayed(phase);
    }

    /// The end of a step of the game loop, once the state has done its work: the next state
    /// follows, the stack resolves, and the tracked game state starts over.
    pub fn finish_step(&mut self)
        requires
            old(self).bot.wf(),
        ensures
            final(self).bot.wf(),
            follows_state(old(self).state, final(self).state),
            final(self).bot.updater.state.is_empty(),
            final(self).bot.gre@.replacement_effects == old(self).bot.gre@.replacement_effects,
            final(self).bot.gre@.continuous_effects == old(self).bot.gre@.continuous_effects,
            final(self).bot == (Bot { gre: final(self).bot.gre, updater: final(self).bot.updater, ..old(self).bot }),
            crate::app::gre::stack_resolved(
                handed_cards_result(
                    old(self).bot.gre@,
                    Seq::empty(),
                    event_trigger(GameEventV::PhaseChange(phase_of(final(self).state))),
                    Player::Us,
                ),
                final(self).bot.gre@,
            ),
    {
        self.next_state();
        self.bot.gre.resolve_stack();
        self.bot.updater = GameStateUpdater::new();
    }
}

} // verus!
