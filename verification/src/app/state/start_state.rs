use vstd::prelude::*;

use crate::app::bot::Bot;
use crate::app::game_state::GamePhase;
use crate::app::state::mulligan_state::MulliganState;
use crate::app::state::{AppState, State};

verus! {

/// The start of a game: the bot sets its counters, reads its hand and the battlefield, and
/// clicks its way into the game.
pub struct StartState;

impl StartState {
    pub fn new() -> (r: Self) {
        StartState
    }

    /// The bot's counters at the start of a game: two lands, both available, and five cards in
    /// hand; nothing else changes.
    pub fn prepare(&self, bot: &mut Bot)
        ensures
            *final(bot) == (Bot { land_number: 2, land_count: 2, card_count: 5, ..*old(bot) }),
    {
        bot.land_number = 2;
        bot.land_count = 2;
        bot.card_count = 5;
    }
}

impl State for StartState {
    /// The mulligan follows the start.
    fn next(&mut self) -> (r: AppState)
        ensures
            *final(self) == *old(self),
            r matches AppState::Mulligan(_),
    {
        AppState::Mulligan(MulliganState::new())
    }

    fn phase(&self) -> (r: GamePhase)
        ensures
            r == GamePhase::Beginning,
    {
        GamePhase::Beginning
    }
}

} // verus!
