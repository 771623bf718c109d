use vstd::prelude::*;

use crate::app::bot::{texts_view, Bot};
use crate::app::card_library::CardType;
use crate::app::game_state::GamePhase;
use crate::app::state::combat_damage_state::CombatDamageState;
use crate::app::state::{any_ready, has_ready, is_ready, ready_names, AppState, PromptReply, State};
use crate::app::text::{contains_text, str_contains};

verus! {

/// The attack: every creature without summoning sickness attacks.
pub struct AttackPhaseState {
    /// Set where no creature could attack.
    pub no_attack: bool,
}

/// Whether a regular expression, compiled from `pattern`, matches `text`; none where the pattern
/// does not compile.
pub uninterp spec fn regex_matches(pattern: Seq<char>, text: Seq<char>) -> Option<bool>;

/// `regex::Regex::new` on `pattern`, then `Regex::is_match` on `text`: the contract claims only
/// that the outcome (`None` where the pattern does not compile, else whether it matches) is the
/// one `regex_matches` names for these two strings; what the regex language means is not stated.
#[verifier::external_body]
fn regex_is_match(pattern: &str, text: &str) -> (r: Option<bool>)
    ensures
        r == regex_matches(pattern@, text@),
{
    match regex::Regex::new(pattern) {
        Ok(re) => Some(re.is_match(text)),
        Err(_) => None,
    }
}

/// The shape of the button text once attackers are declared: a count, then "Attacker" or
/// "Attackers", with white space around.
pub open spec fn attackers_pattern() -> Seq<char> {
    "^\\s*\\d+\\s+Attackers?\\s*$"@
}

/// The reply to the red button during the attack: on "All Attack" Space declares the attack
/// and the waiting is over; on "Next" Space moves on; otherwise wait.
pub open spec fn all_attack_reply(t: Seq<char>) -> PromptReply {
    if contains_text(t, "All Attack"@) {
        PromptReply { press_space: true, done: true }
    } else if contains_text(t, "Next"@) {
        PromptReply { press_space: true, done: false }
    } else {
        PromptReply { press_space: false, done: false }
    }
}

impl AttackPhaseState {
    pub fn new() -> (r: Self)
        ensures
            !r.no_attack,
    {
        AttackPhaseState { no_attack: false }
    }

    /// Whether the button reads as declared attackers (see `attackers_pattern`).
    pub fn is_attackers_text(s: &str) -> (r: bool)
        ensures
            r == (regex_matches(attackers_pattern(), s@) == Some(true)),
    {
        match regex_is_match("^\\s*\\d+\\s+Attackers?\\s*$", s) {
            Some(m) => m,
            None => false,
        }
    }

    /// Whether some creature of ours can attack (has no summoning sickness).
    pub fn can_attack(bot: &Bot) -> (r: bool)
        ensures
            r == any_ready(bot.battlefield_creatures.view()),
    {
        has_ready(&bot.battlefield_creatures)
    }

    /// Checks whether the attack can take place; where it cannot, the state remembers it.
    pub fn check_can_attack(&mut self, bot: &Bot) -> (r: bool)
        ensures
            r == any_ready(bot.battlefield_creatures.view()),
            final(self).no_attack == (old(self).no_attack || !r),
    {
        let r = Self::can_attack(bot);
        if !r {
            self.no_attack = true;
        }
        r
    }

    /// Records the names of the creatures that attack: those without summoning sickness, in
    /// battlefield order.
    pub fn record_attackers(bot: &mut Bot)
        ensures
            texts_view(final(bot).attacking@) == ready_names(old(bot).battlefield_creatures.view()),
            *final(bot) == (Bot { attacking: final(bot).attacking, ..*old(bot) }),
    {
        let ghost bf = bot.battlefield_creatures.view();
        let mut names: Vec<String> = Vec::new();
        let n = bot.battlefield_creatures.len();
        let mut i: usize = 0;
        while i < n
            invariant
                n == bf.len(),
                bf == bot.battlefield_creatures.view(),
                i <= n,
                texts_view(names@) == ready_names(bf.subrange(0, i as int)),
            decreases n - i,
        {
            let ready = match &bot.battlefield_creatures.card_at(i).card_type {
                CardType::Creature(cr) => !cr.summoning_sickness,
                _ => false,
            };
            proof {
                assert(bf.subrange(0, i + 1).drop_last() =~= bf.subrange(0, i as int));
                assert(ready == is_ready(bf[i as int].1));
            }
            if ready {
                let name = bot.battlefield_creatures.name_at(i).to_owned();
                names.push(name);
            }
            assert(texts_view(names@) =~= ready_names(bf.subrange(0, i + 1)));
            i += 1;
        }
        assert(bf.subrange(0, n as int) =~= bf);
        bot.attacking = names;
    }

    /// Reads the red button during the attack (see `all_attack_reply`); on "All Attack" the
    /// attackers are recorded first.
    pub fn read_all_attack_prompt(&self, bot: &mut Bot, text: &str) -> (r: PromptReply)
        ensures
            r == all_attack_reply(text@),
            contains_text(text@, "All Attack"@) ==> texts_view(final(bot).attacking@) == ready_names(
                old(bot).battlefield_creatures.view(),
            ),
            *final(bot) == (Bot { attacking: final(bot).attacking, ..*old(bot) }),
            !contains_text(text@, "All Attack"@) ==> *final(bot) == *old(bot),
    {
        if str_contains(text, "All Attack") {
            Self::record_attackers(bot);
            PromptReply { press_space: true, done: true }
        } else if str_contains(text, "Next") {
            PromptReply { press_space: true, done: false }
        } else {
            PromptReply { press_space: false, done: false }
        }
    }

    /// Reads the white button once the attack is declared: Space once it reads as declared
    /// attackers, which ends the waiting.
    pub fn read_attackers_prompt(&self, text: &str) -> (r: PromptReply)
        ensures
            r.press_space == (regex_matches(attackers_pattern(), text@) == Some(true)),
            r.done == r.press_space,
    {
        let m = Self::is_attackers_text(text);
        PromptReply { press_space: m, done: m }
    }

    /// Reads the button after the attack: Space while "Next" shows, done once it is gone.
    pub fn read_after_attack_prompt(&self, text: &str) -> (r: PromptReply)
        ensures
            r.press_space == contains_text(text@, "Next"@),
            r.done == !contains_text(text@, "Next"@),
    {
        let next = str_contains(text, "Next");
        PromptReply { press_space: next, done: !next }
    }
}

impl State for AttackPhaseState {
    /// Combat damage follows the attack.
    fn next(&mut self) -> (r: AppState)
        ensures
            *final(self) == *old(self),
            r matches AppState::CombatDamage(_),
    {
        AppState::CombatDamage(CombatDamageState::new())
    }

    fn phase(&self) -> (r: GamePhase)
        ensures
            r == GamePhase::Combat,
    {
        GamePhase::Combat
    }
}

} // verus!
