use vstd::prelude::*;

use crate::app::bot::Bot;
use crate::app::game_state::GamePhase;
use crate::app::state::first_main_phase_state::FirstMainPhaseState;
use crate::app::state::{AppState, PromptReply, State};
use crate::app::text::{contains_text, str_contains, str_eq};

verus! {

/// The mulligan: the bot learns who goes first, and from that how many cards it holds.
pub struct MulliganState {}

/// The number of cards in hand that the start-order banner tells: eight where the opponent goes
/// first, seven where we do; none for any other text.
pub open spec fn start_order_cards(t: Seq<char>) -> Option<usize> {
    if t == "Opponent Goes First"@ {
        Some(8)
    } else if t == "You Go First"@ {
        Some(7)
    } else {
        None
    }
}

impl MulliganState {
    pub fn new() -> (r: Self) {
        MulliganState {}
    }

    /// Reads the start-order banner: where it tells who goes first, the bot's card count is set
    /// from it, Space is to be pressed and the waiting is over; any other text leaves the bot as
    /// it is.
    pub fn read_start_order(&self, bot: &mut Bot, text: &str) -> (r: PromptReply)
        ensures
            r.press_space == start_order_cards(text@) is Some,
            r.done == start_order_cards(text@) is Some,
            match start_order_cards(text@) {
                Some(n) => *final(bot) == (Bot { card_count: n, ..*old(bot) }),
                None => *final(bot) == *old(bot),
            },
    {
        if str_eq(text, "Opponent Goes First") {
            bot.card_count = 8;
            PromptReply { press_space: true, done: true }
        } else if str_eq(text, "You Go First") {
            bot.card_count = 7;
            PromptReply { press_space: true, done: true }
        } else {
            PromptReply { press_space: false, done: false }
        }
    }

    /// Whether the bot must wait for "Next" before hovering its cards: it does where the
    /// opponent started, that is where it holds eight cards.
    pub fn waits_for_next(&self, bot: &Bot) -> (r: bool)
        ensures
            r == (bot.card_count == 8),
    {
        bot.card_count == 8
    }

    /// Reads the main button while waiting for "Next": the waiting is over once it shows.
    pub fn read_next_prompt(&self, text: &str) -> (r: PromptReply)
        ensures
            r == (PromptReply { press_space: false, done: contains_text(text@, "Next"@) }),
    {
        PromptReply { press_space: false, done: str_contains(text, "Next") }
    }
}

impl State for MulliganState {
    /// The first main phase follows the mulligan.
    fn next(&mut self) -> (r: AppState)
        ensures
            *final(self) == *old(self),
            r matches AppState::FirstMain(f) && !f.skip_to_opponent,
    {
        AppState::FirstMain(FirstMainPhaseState::new())
    }

    fn phase(&self) -> (r: GamePhase)
        ensures
            r == GamePhase::Beginning,
    {
        GamePhase::Beginning
    }
}

} // verus!
