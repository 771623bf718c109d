use vstd::prelude::*;

use crate::app::game_state::GamePhase;
use crate::app::state::first_main_phase_state::FirstMainPhaseState;
use crate::app::state::{AppState, State};

verus! {

/// Submitting a card (clicking the fourth card in hand where there are at least four).
pub struct SubmitState {}

impl SubmitState {
    pub fn new() -> (r: Self) {
        SubmitState {}
    }

    /// Whether the hand holds the card to submit: at least four cards.
    pub fn can_submit(&self, card_count: usize) -> (r: bool)
        ensures
            r == (card_count >= 4),
    {
        card_count >= 4
    }
}

impl State for SubmitState {
    /// The first main phase follows.
    fn next(&mut self) -> (r: AppState)
        ensures
            *final(self) == *old(self),
            r matches AppState::FirstMain(f) && !f.skip_to_opponent,
    {
        AppState::FirstMain(FirstMainPhaseState::new())
    }

    fn phase(&self) -> (r: GamePhase)
        ensures
            r == GamePhase::PreCombatMain,
    {
        GamePhase::PreCombatMain
    }
}

} // verus!
