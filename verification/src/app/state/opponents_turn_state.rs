use vstd::prelude::*;

use crate::app::bot::Bot;
use crate::app::game_state::GamePhase;
use crate::app::state::first_main_phase_state::FirstMainPhaseState;
use crate::app::state::{AppState, PromptReply, State};
use crate::app::text::{contains_text, str_contains};

verus! {

/// The opponent's turn: the bot passes every prompt until "Next" shows, then draws.
pub struct OpponentsTurnState {}

/// Whether a prompt during the opponent's turn asks for Space: "My Turn", "Resolve" or "Pass".
pub open spec fn passes_prompt(t: Seq<char>) -> bool {
    contains_text(t, "My Turn"@) || contains_text(t, "Resolve"@) || contains_text(t, "Pass"@)
}

impl OpponentsTurnState {
    pub fn new() -> (r: Self) {
        OpponentsTurnState {}
    }

    /// Reads the main button during the opponent's turn: Space for "My Turn", "Resolve" or
    /// "Pass"; the turn is over (and the bot draws) once "Next" shows.
    pub fn read_prompt(&self, text: &str) -> (r: PromptReply)
        ensures
            r == (PromptReply { press_space: passes_prompt(text@), done: contains_text(text@, "Next"@) }),
    {
        let press = str_contains(text, "My Turn") || str_contains(text, "Resolve") || str_contains(text, "Pass");
        PromptReply { press_space: press, done: str_contains(text, "Next") }
    }

    /// Marks the opponent's turn as over, so that the next turn draws.
    pub fn finish(&self, bot: &mut Bot)
        ensures
            *final(bot) == (Bot { last_opponent_turn: true, ..*old(bot) }),
    {
        bot.last_opponent_turn = true;
    }
}

impl State for OpponentsTurnState {
    /// The first main phase follows.
    fn next(&mut self) -> (r: AppState)
        ensures
            *final(self) == *old(self),
            r matches AppState::FirstMain(f) && !f.skip_to_opponent,
    {
        AppState::FirstMain(FirstMainPhaseState::new())
    }

    fn phase(&self) -> (r: GamePhase)
        ensures
            r == GamePhase::End,
    {
        GamePhase::End
    }
}

} // verus!
