use vstd::prelude::*;

use crate::app::bot::Bot;
use crate::app::game_state::GamePhase;
use crate::app::state::opponents_turn_state::OpponentsTurnState;
use crate::app::state::{all_rested, clear_summoning_sickness, AppState, PromptReply, State};
use crate::app::text::{contains_text, str_contains};

verus! {

/// The second main phase: cast what is left, then end the turn.
pub struct SecondMainPhaseState {}

/// The reply to the main button while ending the turn: Space on "Next" (keep going), Space on
/// "End Turn" (done), otherwise wait.
pub open spec fn end_turn_reply(t: Seq<char>) -> PromptReply {
    if contains_text(t, "Next"@) {
        PromptReply { press_space: true, done: false }
    } else if contains_text(t, "End Turn"@) {
        PromptReply { press_space: true, done: true }
    } else {
        PromptReply { press_space: false, done: false }
    }
}

impl SecondMainPhaseState {
    pub fn new() -> (r: Self) {
        SecondMainPhaseState {}
    }

    /// Whether the turn has already passed to the opponent ("Opponent's Turn" shows), in which
    /// case the phase is skipped.
    pub fn turn_passed(&self, text: &str) -> (r: bool)
        ensures
            r == contains_text(text@, "Opponent's Turn"@),
    {
        str_contains(text, "Opponent's Turn")
    }

    /// Reads the main button while ending the turn (see `end_turn_reply`).
    pub fn read_end_turn_prompt(&self, text: &str) -> (r: PromptReply)
        ensures
            r == end_turn_reply(text@),
    {
        if str_contains(text, "Next") {
            PromptReply { press_space: true, done: false }
        } else if str_contains(text, "End Turn") {
            PromptReply { press_space: true, done: true }
        } else {
            PromptReply { press_space: false, done: false }
        }
    }

    /// Resets the per-turn flags: a land may be played again and no creature of ours has
    /// summoning sickness.
    pub fn reset_state(&self, bot: &mut Bot)
        requires
            old(bot).battlefield_creatures.wf(),
        ensures
            final(bot).battlefield_creatures.wf(),
            final(bot).battlefield_creatures.view() == all_rested(old(bot).battlefield_creatures.view()),
            *final(bot) == (Bot {
                land_played_this_turn: false,
                battlefield_creatures: final(bot).battlefield_creatures,
                ..*old(bot)
            }),
    {
        bot.land_played_this_turn = false;
        clear_summoning_sickness(&mut bot.battlefield_creatures);
    }
}

impl State for SecondMainPhaseState {
    /// The opponent's turn follows.
    fn next(&mut self) -> (r: AppState)
        ensures
            *final(self) == *old(self),
            r matches AppState::OpponentsTurn(_),
    {
        AppState::OpponentsTurn(OpponentsTurnState::new())
    }

    fn phase(&self) -> (r: GamePhase)
        ensures
            r == GamePhase::PostCombatMain,
    {
        GamePhase::PostCombatMain
    }
}

} // verus!
