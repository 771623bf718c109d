//! The turn as a sequence of states: what each state decides from what was read, and which
//! state comes next. Reading the screen and pressing keys is left to the caller.
use vstd::prelude::*;

use crate::app::card_library::{Card, CardLibrary, CardType, CardTypeV, CardV, CreatureV};
use crate::app::game_state::GamePhase;

pub mod start_state;
pub mod mulligan_state;
pub mod first_main_phase_state;
pub mod attack_phase_state;
pub mod second_main_phase_state;
pub mod submit_state;
pub mod opponents_turn_state;
pub mod combat_damage_state;

use crate::app::state::attack_phase_state::AttackPhaseState;
use crate::app::state::combat_damage_state::CombatDamageState;
use crate::app::state::first_main_phase_state::FirstMainPhaseState;
use crate::app::state::mulligan_state::MulliganState;
use crate::app::state::opponents_turn_state::OpponentsTurnState;
use crate::app::state::second_main_phase_state::SecondMainPhaseState;
use crate::app::state::start_state::StartState;
use crate::app::state::submit_state::SubmitState;

verus! {

/// A state of the turn: the phase it plays in and the state that follows it.
pub trait State {
    /// The state that follows this one.
    fn next(&mut self) -> AppState;

    /// The game phase this state plays in.
    fn phase(&self) -> GamePhase;
}

/// Any one of the states of the turn.
pub enum AppState {
    Start(StartState),
    Mulligan(MulliganState),
    FirstMain(FirstMainPhaseState),
    Attack(AttackPhaseState),
    CombatDamage(CombatDamageState),
    SecondMain(SecondMainPhaseState),
    OpponentsTurn(OpponentsTurnState),
    Submit(SubmitState),
}

/// The phase each kind of state plays in.
pub open spec fn phase_of(s: AppState) -> GamePhase {
    match s {
        AppState::Start(_) => GamePhase::Beginning,
        AppState::Mulligan(_) => GamePhase::Beginning,
        AppState::FirstMain(_) => GamePhase::PreCombatMain,
        AppState::Attack(_) => GamePhase::Combat,
        AppState::CombatDamage(_) => GamePhase::CombatDamage,
        AppState::SecondMain(_) => GamePhase::PostCombatMain,
        AppState::OpponentsTurn(_) => GamePhase::End,
        AppState::Submit(_) => GamePhase::PreCombatMain,
    }
}

/// The state that follows: the game starts, then comes the mulligan, then the first main phase;
/// from there to the attack unless the bot has nothing to do, in which case the opponent's turn
/// follows; after the attack its damage, then the second main phase, then the opponent's turn,
/// and then the first main phase again.
pub open spec fn follows_state(s: AppState, t: AppState) -> bool {
    match s {
        AppState::Start(_) => t matches AppState::Mulligan(_),
        AppState::Mulligan(_) => t matches AppState::FirstMain(f) && !f.skip_to_opponent,
        AppState::FirstMain(f) => if f.skip_to_opponent {
            t matches AppState::OpponentsTurn(_)
        } else {
            t matches AppState::Attack(a) && !a.no_attack
        },
        AppState::Attack(_) => t matches AppState::CombatDamage(_),
        AppState::CombatDamage(_) => t matches AppState::SecondMain(_),
        AppState::SecondMain(_) => t matches AppState::OpponentsTurn(_),
        AppState::OpponentsTurn(_) => t matches AppState::FirstMain(f) && !f.skip_to_opponent,
        AppState::Submit(_) => t matches AppState::FirstMain(f) && !f.skip_to_opponent,
    }
}

/// From a first main phase that attacks, the states of the turn come in order — attack, combat
/// damage, second main phase, the opponent's turn — each in its phase, and lead back to the
/// first main phase.
pub proof fn lemma_turn_cycle(s0: AppState, s1: AppState, s2: AppState, s3: AppState, s4: AppState, s5: AppState)
    requires
        s0 matches AppState::FirstMain(f) && !f.skip_to_opponent,
        follows_state(s0, s1),
        follows_state(s1, s2),
        follows_state(s2, s3),
        follows_state(s3, s4),
        follows_state(s4, s5),
    ensures
        s1 is Attack && phase_of(s1) == GamePhase::Combat,
        s2 is CombatDamage && phase_of(s2) == GamePhase::CombatDamage,
        s3 is SecondMain && phase_of(s3) == GamePhase::PostCombatMain,
        s4 is OpponentsTurn && phase_of(s4) == GamePhase::End,
        s5 matches AppState::FirstMain(f) && !f.skip_to_opponent,
{
}

/// Where the first main phase skips the attack, the opponent's turn follows it directly, and
/// then the first main phase again.
pub proof fn lemma_skipped_attack(s0: AppState, s1: AppState, s2: AppState)
    requires
        s0 matches AppState::FirstMain(f) && f.skip_to_opponent,
        follows_state(s0, s1),
        follows_state(s1, s2),
    ensures
        s1 is OpponentsTurn,
        s2 matches AppState::FirstMain(f) && !f.skip_to_opponent,
{
}

impl AppState {
    /// The state that follows this one.
    pub fn next(&mut self) -> (r: AppState)
        ensures
            follows_state(*old(self), r),
            *final(self) == *old(self),
    {
        match self {
            AppState::Start(s) => s.next(),
            AppState::Mulligan(s) => s.next(),
            AppState::FirstMain(s) => s.next(),
            AppState::Attack(s) => s.next(),
            AppState::CombatDamage(s) => s.next(),
            AppState::SecondMain(s) => s.next(),
            AppState::OpponentsTurn(s) => s.next(),
            AppState::Submit(s) => s.next(),
        }
    }

    /// The game phase this state plays in.
    pub fn phase(&self) -> (r: GamePhase)
        ensures
            r == phase_of(*self),
    {
        match self {
            AppState::Start(s) => s.phase(),
            AppState::Mulligan(s) => s.phase(),
            AppState::FirstMain(s) => s.phase(),
            AppState::Attack(s) => s.phase(),
            AppState::CombatDamage(s) => s.phase(),
            AppState::SecondMain(s) => s.phase(),
            AppState::OpponentsTurn(s) => s.phase(),
            AppState::Submit(s) => s.phase(),
        }
    }
}

/// What to do after reading a prompt on the screen: whether to press Space, and whether the
/// waiting is over.
#[derive(Debug, Copy, Clone, PartialEq, Eq, Structural)]
pub struct PromptReply {
    pub press_space: bool,
    pub done: bool,
}

/// A card as it is once untapped: a creature loses its summoning sickness; anything else stays.
pub open spec fn rested(c: CardV) -> CardV {
    match c.card_type {
        CardTypeV::Creature(cr) => CardV {
            card_type: CardTypeV::Creature(CreatureV { summoning_sickness: false, ..cr }),
            ..c
        },
        _ => c,
    }
}

/// A card as it enters the battlefield: a creature gets summoning sickness; anything else stays.
pub open spec fn sickened(c: CardV) -> CardV {
    match c.card_type {
        CardTypeV::Creature(cr) => CardV {
            card_type: CardTypeV::Creature(CreatureV { summoning_sickness: true, ..cr }),
            ..c
        },
        _ => c,
    }
}

/// Every entry of a battlefield, untapped.
pub open spec fn all_rested(s: Seq<(Seq<char>, CardV)>) -> Seq<(Seq<char>, CardV)> {
    s.map_values(|e: (Seq<char>, CardV)| (e.0, rested(e.1)))
}

/// Whether a card is a creature that can attack: one without summoning sickness.
pub open spec fn is_ready(c: CardV) -> bool {
    c.card_type matches CardTypeV::Creature(cr) && !cr.summoning_sickness
}

/// Whether some card of a battlefield can attack.
pub open spec fn any_ready(s: Seq<(Seq<char>, CardV)>) -> bool {
    exists|i: int| 0 <= i < s.len() && #[trigger] is_ready(s[i].1)
}

/// The names of the cards of a battlefield that can attack, in order.
pub open spec fn ready_names(s: Seq<(Seq<char>, CardV)>) -> Seq<Seq<char>>
    decreases s.len(),
{
    if s.len() == 0 {
        Seq::empty()
    } else {
        let r = ready_names(s.drop_last());
        if is_ready(s.last().1) {
            r.push(s.last().0)
        } else {
            r
        }
    }
}

/// A copy of a card, untapped.
pub fn rest_card(card: &Card) -> (r: Card)
    ensures
        r@ == rested(card@),
{
    let mut c = card.clone();
    if let CardType::Creature(ref mut cr) = c.card_type {
        cr.summoning_sickness = false;
    }
    c
}

/// A copy of a card, as it enters the battlefield.
pub fn sicken_card(card: &Card) -> (r: Card)
    ensures
        r@ == sickened(card@),
{
    let mut c = card.clone();
    if let CardType::Creature(ref mut cr) = c.card_type {
        cr.summoning_sickness = true;
    }
    c
}

/// Clears the summoning sickness of every creature of a battlefield.
pub fn clear_summoning_sickness(bf: &mut CardLibrary)
    requires
        old(bf).wf(),
    ensures
        final(bf).wf(),
        final(bf).view() == all_rested(old(bf).view()),
{
    let ghost before = bf.view();
    let n = bf.len();
    let mut i: usize = 0;
    while i < n
        invariant
            bf.wf(),
            n == before.len(),
            i <= n,
            bf.view().len() == n,
            forall|j: int| 0 <= j < i ==> #[trigger] bf.view()[j] == (before[j].0, rested(before[j].1)),
            forall|j: int| i <= j < n ==> #[trigger] bf.view()[j] == before[j],
        decreases n - i,
    {
        let c = rest_card(bf.card_at(i));
        bf.set_card_at(i, c);
        i += 1;
    }
    assert(bf.view() =~= all_rested(before));
}

/// Whether some card of a battlefield can attack.
pub fn has_ready(bf: &CardLibrary) -> (r: bool)
    ensures
        r == any_ready(bf.view()),
{
    let n = bf.len();
    let mut i: usize = 0;
    while i < n
        invariant
            n == bf.view().len(),
            i <= n,
            forall|j: int| 0 <= j < i ==> !#[trigger] is_ready(bf.view()[j].1),
        decreases n - i,
    {
        let ready = match &bf.card_at(i).card_type {
            CardType::Creature(cr) => !cr.summoning_sickness,
            _ => false,
        };
        if ready {
            assert(is_ready(bf.view()[i as int].1));
            return true;
        }
        i += 1;
    }
    false
}

} // verus!
