use vstd::prelude::*;

use crate::app::bot::{
    castable_at, first_named, first_named_upto, first_text_upto, sat_sub, screen_slots, texts_view, Bot, BotAction, CardKind,
};
use crate::app::card_library::{
    card_named, has_name, insert_named, library_catalog, library_names, names_of, CardLibrary, CardTypeV, CardV, ManaCost,
};
use crate::app::game_state::GamePhase;
use crate::app::state::attack_phase_state::AttackPhaseState;
use crate::app::state::opponents_turn_state::OpponentsTurnState;
use crate::app::state::{
    all_rested, any_ready, clear_summoning_sickness, has_ready, sicken_card, sickened, AppState, State,
};
use crate::app::text::{decimal, push_decimal, str_starts_with, string_push};

verus! {

/// The first main phase: untap, play a land, cast creatures and other spells, then decide
/// whether there is anything to attack with.
pub struct FirstMainPhaseState {
    /// Whether the attack is skipped and the opponent's turn follows.
    pub skip_to_opponent: bool,
}

/// How many names of a battlefield begin with `name`.
pub open spec fn prefixed_count(s: Seq<(Seq<char>, CardV)>, name: Seq<char>) -> nat
    decreases s.len(),
{
    if s.len() == 0 {
        0
    } else {
        let k = s.last().0;
        prefixed_count(s.drop_last(), name) + if name.len() <= k.len() && k.subrange(0, name.len() as int) == name {
            1nat
        } else {
            0nat
        }
    }
}

/// The name under which a newly cast creature joins a battlefield: its own name where that is
/// free, otherwise the name, `#`, and one more than the number of names that begin with it.
pub open spec fn battlefield_key(s: Seq<(Seq<char>, CardV)>, name: Seq<char>) -> Seq<char> {
    if has_name(s, name) {
        name.push('#') + decimal(prefixed_count(s, name) + 1)
    } else {
        name
    }
}

/// The position in hand of the creature the bot casts next, if any (see `first_text_upto`).
pub open spec fn creature_choice(bot: Bot) -> Option<int> {
    first_text_upto(
        texts_view(bot.cards_texts@),
        library_catalog(),
        CardKind::Creature,
        true,
        bot.land_number,
        bot.cards_texts@.len(),
    )
}

/// Whether some text in hand names a card of kind `k` that the bot's mana pays for.
pub open spec fn can_cast_kind(bot: Bot, k: CardKind) -> bool {
    exists|i: int|
        0 <= i < bot.cards_texts@.len() && #[trigger] castable_at(texts_view(bot.cards_texts@), library_catalog(), k, bot.land_number, i)
}

/// A card found among the first `n` of a catalog is one of them.
proof fn lemma_first_named_in_range(cat: Seq<(Seq<char>, CardTypeV, ManaCost)>, text: Seq<char>, k: CardKind, n: nat)
    ensures
        first_named_upto(cat, text, k, n) matches Some(j) ==> 0 <= j < n,
    decreases n,
{
    if n > 0 {
        lemma_first_named_in_range(cat, text, k, (n - 1) as nat);
    }
}

/// A text chosen among the first `n` is one of them, and names a card of the kind searched for.
proof fn lemma_first_text_found(
    texts: Seq<Seq<char>>,
    cat: Seq<(Seq<char>, CardTypeV, ManaCost)>,
    k: CardKind,
    pay: bool,
    mana: u32,
    n: nat,
)
    ensures
        first_text_upto(texts, cat, k, pay, mana, n) matches Some(i) ==> 0 <= i < n && first_named(cat, texts[i], k) is Some,
    decreases n,
{
    if n > 0 {
        lemma_first_text_found(texts, cat, k, pay, mana, (n - 1) as nat);
    }
}

/// The name under which `name` joins the battlefield `bf`.
pub fn battlefield_key_for(bf: &CardLibrary, name: &String) -> (r: String)
    requires
        bf.view().len() < usize::MAX,
    ensures
        r@ == battlefield_key(bf.view(), name@),
{
    if !bf.contains_key(name.as_str()) {
        return name.clone();
    }
    let ghost s = bf.view();
    let n = bf.len();
    let mut count: usize = 0;
    let mut i: usize = 0;
    while i < n
        invariant
            s == bf.view(),
            n == s.len(),
            n < usize::MAX,
            i <= n,
            count == prefixed_count(s.subrange(0, i as int), name@),
            count <= i,
        decreases n - i,
    {
        proof {
            assert(s.subrange(0, i + 1).drop_last() =~= s.subrange(0, i as int));
        }
        if str_starts_with(bf.name_at(i), name.as_str()) {
            count += 1;
        }
        i += 1;
    }
    proof {
        assert(s.subrange(0, n as int) =~= s);
    }
    let mut key = name.clone();
    string_push(&mut key, '#');
    push_decimal(&mut key, count + 1);
    key
}

impl FirstMainPhaseState {
    pub fn new() -> (r: Self)
        ensures
            !r.skip_to_opponent,
    {
        FirstMainPhaseState { skip_to_opponent: false }
    }

    /// Whether the battlefield is to be read again: it is at every turn but the bot's first,
    /// which is marked as done.
    pub fn refresh_battlefield_if_needed(&mut self, bot: &mut Bot) -> (r: bool)
        ensures
            r == old(bot).first_main_phase_done,
            *final(bot) == (Bot { first_main_phase_done: true, ..*old(bot) }),
            *final(self) == *old(self),
    {
        if bot.first_main_phase_done {
            true
        } else {
            bot.first_main_phase_done = true;
            false
        }
    }

    /// The untap step: every land gives mana again and no creature of ours has summoning
    /// sickness.
    pub fn untap_and_clear_sickness(&self, bot: &mut Bot)
        requires
            old(bot).battlefield_creatures.wf(),
        ensures
            final(bot).battlefield_creatures.wf(),
            final(bot).battlefield_creatures.view() == all_rested(old(bot).battlefield_creatures.view()),
            *final(bot) == (Bot {
                land_number: old(bot).land_count,
                battlefield_creatures: final(bot).battlefield_creatures,
                ..*old(bot)
            }),
    {
        bot.land_number = bot.land_count;
        clear_summoning_sickness(&mut bot.battlefield_creatures);
    }

    /// One round of creature casting: where mana is left, the first affordable creature in hand
    /// is cast (see `Bot::cast_one_creature`), its cost taken from the mana once more, and a
    /// copy of its library card joins our battlefield with summoning sickness (see
    /// `battlefield_key`). Returns whether another round is due, which is when mana is left and
    /// another creature can be paid for; the battlefield is to be read again before it.
    pub fn cast_creature_step(&mut self, bot: &mut Bot, library: &CardLibrary) -> (r: bool)
        requires
            old(bot).battlefield_creatures.wf(),
            old(bot).battlefield_creatures.view().len() < usize::MAX,
            library.wf(),
            names_of(library.view()) == library_names(),
        ensures
            final(bot).battlefield_creatures.wf(),
            old(bot).land_number == 0 ==> *final(bot) == *old(bot) && !r,
            old(bot).land_number > 0 ==> match creature_choice(*old(bot)) {
                None => {
                    &&& !r
                    &&& final(bot).land_number == old(bot).land_number
                    &&& final(bot).cards_texts == old(bot).cards_texts
                    &&& final(bot).pending == old(bot).pending
                    &&& final(bot).battlefield_creatures == old(bot).battlefield_creatures
                },
                Some(i) => {
                    let j = first_named(library_catalog(), old(bot).cards_texts@[i]@, CardKind::Creature)->Some_0;
                    let name = library_catalog()[j].0;
                    let cost = library_catalog()[j].2.spec_total() as u32;
                    &&& final(bot).land_number == sat_sub(sat_sub(old(bot).land_number, cost), cost)
                    &&& final(bot).last_cast_card_name@ == name
                    &&& final(bot).pending@ == if i < screen_slots(old(bot).card_count) {
                        old(bot).pending@.push(BotAction::PlayCard { index: i as usize, card_count: old(bot).card_count })
                    } else {
                        old(bot).pending@
                    }
                    &&& final(bot).cards_texts@ == if i < screen_slots(old(bot).card_count) {
                        old(bot).cards_texts@.remove(i)
                    } else {
                        old(bot).cards_texts@
                    }
                    &&& final(bot).battlefield_creatures.view() == insert_named(
                        old(bot).battlefield_creatures.view(),
                        battlefield_key(old(bot).battlefield_creatures.view(), name),
                        sickened(card_named(library.view(), name)),
                    )
                    &&& r == (final(bot).land_number > 0 && can_cast_kind(*final(bot), CardKind::Creature))
                },
            },
            final(bot).gre == old(bot).gre,
            final(bot).land_played_this_turn == old(bot).land_played_this_turn,
            *final(self) == *old(self),
    {
        let ghost b0 = *bot;
        if bot.land_number == 0 {
            return false;
        }
        match bot.cast_one_creature() {
            Some((name, cost)) => {
                bot.land_number = bot.land_number.saturating_sub(cost);
                let key = battlefield_key_for(&bot.battlefield_creatures, &name);
                proof {
                    let i = creature_choice(b0)->Some_0;
                    lemma_first_text_found(
                        texts_view(b0.cards_texts@),
                        library_catalog(),
                        CardKind::Creature,
                        true,
                        b0.land_number,
                        b0.cards_texts@.len(),
                    );
                    assert(texts_view(b0.cards_texts@)[i] == b0.cards_texts@[i]@);
                    let j = first_named(library_catalog(), b0.cards_texts@[i]@, CardKind::Creature)->Some_0;
                    lemma_first_named_in_range(
                        library_catalog(),
                        b0.cards_texts@[i]@,
                        CardKind::Creature,
                        library_catalog().len(),
                    );
                    assert(names_of(library.view())[j] == library.view()[j].0);
                    assert(library_names()[j] == library_catalog()[j].0);
                    assert(has_name(library.view(), name@));
                }
                match library.get(name.as_str()) {
                    Some(card) => {
                        let c = sicken_card(card);
                        bot.battlefield_creatures.insert(key, c);
                    },
                    None => {},
                }
                bot.land_number > 0 && bot.can_cast_creature()
            },
            None => false,
        }
    }

    /// Decides whether to attack: there is more to do where mana is left and some non-land
    /// card in hand can be paid for, or where some creature of ours can attack; otherwise the
    /// attack is skipped.
    pub fn decide_attack_or_skip(&mut self, bot: &Bot)
        ensures
            final(self).skip_to_opponent == !((bot.land_number > 0 && can_cast_kind(*bot, CardKind::NonLand)) || any_ready(
                bot.battlefield_creatures.view(),
            )),
    {
        if bot.land_number > 0 {
            if bot.can_cast_card(CardKind::NonLand) {
                self.skip_to_opponent = false;
                return;
            }
        }
        self.skip_to_opponent = !has_ready(&bot.battlefield_creatures);
    }
}

impl State for FirstMainPhaseState {
    /// The attack follows, unless it is skipped, in which case the opponent's turn follows.
    fn next(&mut self) -> (r: AppState)
        ensures
            *final(self) == *old(self),
            old(self).skip_to_opponent ==> r matches AppState::OpponentsTurn(_),
            !old(self).skip_to_opponent ==> (r matches AppState::Attack(a) && !a.no_attack),
    {
        if self.skip_to_opponent {
            AppState::OpponentsTurn(OpponentsTurnState::new())
        } else {
            AppState::Attack(AttackPhaseState::new())
        }
    }

    fn phase(&self) -> (r: GamePhase)
        ensures
            r == GamePhase::PreCombatMain,
    {
        GamePhase::PreCombatMain
    }
}

} // verus!
