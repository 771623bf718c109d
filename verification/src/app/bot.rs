//! The bot's decisions: what to play, cast and target, and how its view of the game changes.
use vstd::prelude::*;

use std::collections::HashMap;

use crate::app::card_library::{
    build_card_library, catalog_of, distinct_names, insert_named, library_catalog, library_kinds, Card, CardLibrary,
    CardType, CardTypeV, CardV, ManaCost,
};
use crate::app::state::sickened;
use crate::app::error::AppError;
use crate::app::game_state::{GameEvent, GamePhase, Player};
use crate::app::game_state_updater::{merge_tokens, with_tokens, GameStateUpdater};
use crate::app::gre::{stack_resolved, ContinuousEffect, Gre};
use crate::app::gre::trigger::{cards_view, handed_cards_result};
use crate::app::card_attribute::{PlayerSelector, Trigger};
use crate::app::text::{contains_text, str_contains};

verus! {

broadcast use vstd::std_specs::hash::group_hash_axioms;

/// A state the bot is told to go to next.
#[derive(Debug, Clone, Copy, PartialEq, Eq, Structural)]
pub enum StateOverride {
    OpponentsTurn,
}

/// Which cards a search or a cast is about.
#[derive(Debug, Clone, Copy, PartialEq, Eq, Structural)]
pub enum CardKind {
    Instant,
    Creature,
    Land,
    NonLand,
    Any,
}

/// What the bot asks to be done on the screen, in order.
#[derive(Debug, Clone, Copy, PartialEq, Eq, Structural)]
pub enum BotAction {
    /// Play the card at `index` of a hand of `card_count` cards.
    PlayCard { index: usize, card_count: usize },
    /// Click our creature at `index` among `creature_count` as a target.
    TargetCreature { index: usize, creature_count: usize },
    /// Read both sides of the battlefield again.
    RefreshBattlefield,
}

/// Whether a card kind belongs to a kind of search.
pub open spec fn kind_matches(k: CardKind, t: CardTypeV) -> bool {
    match k {
        CardKind::Instant => t is Instant,
        CardKind::Creature => t is Creature,
        CardKind::Land => t is Land,
        CardKind::NonLand => !(t is Land),
        CardKind::Any => true,
    }
}

/// The first of the first `n` cards of a catalog of kind `k` whose name occurs in `text`.
pub open spec fn first_named_upto(cat: Seq<(Seq<char>, CardTypeV, ManaCost)>, text: Seq<char>, k: CardKind, n: nat) -> Option<
    int,
>
    decreases n,
{
    if n == 0 {
        None
    } else {
        match first_named_upto(cat, text, k, (n - 1) as nat) {
            Some(j) => Some(j),
            None => if kind_matches(k, cat[n - 1].1) && contains_text(text, cat[n - 1].0) {
                Some(n - 1)
            } else {
                None
            },
        }
    }
}

/// The first card of a catalog of kind `k` whose name occurs in `text`.
pub open spec fn first_named(cat: Seq<(Seq<char>, CardTypeV, ManaCost)>, text: Seq<char>, k: CardKind) -> Option<int> {
    first_named_upto(cat, text, k, cat.len())
}

/// Whether the mana left pays for a cost: first its coloured part, then its generic part.
pub open spec fn affordable(mana: u32, c: ManaCost) -> bool {
    mana >= c.spec_colored() && mana - c.spec_colored() >= c.colorless
}

/// How many places the screen has for `n` cards (in hand or on one side): up to eight.
pub open spec fn screen_slots(n: usize) -> usize {
    if 1 <= n && n <= 8 { n } else { 0 }
}

/// Subtraction that stops at zero.
pub open spec fn sat_sub(a: u32, b: u32) -> u32 {
    if a >= b { (a - b) as u32 } else { 0 }
}

/// The values of the texts read off the cards in hand.
pub open spec fn texts_view(s: Seq<String>) -> Seq<Seq<char>> {
    s.map_values(|t: String| t@)
}

/// Whether the text at position `i` names a card of the catalog of kind `k` that the mana left
/// pays for.
pub open spec fn castable_at(texts: Seq<Seq<char>>, cat: Seq<(Seq<char>, CardTypeV, ManaCost)>, k: CardKind, mana: u32, i: int) -> bool {
    exists|j: int|
        0 <= j < cat.len() && kind_matches(k, #[trigger] cat[j].1) && contains_text(texts[i], cat[j].0) && affordable(
            mana,
            cat[j].2,
        )
}

/// The first position among the first `n` texts that names a card of kind `k` (and, where
/// `pay` holds, whose first such card the mana left pays for).
pub open spec fn first_text_upto(
    texts: Seq<Seq<char>>,
    cat: Seq<(Seq<char>, CardTypeV, ManaCost)>,
    k: CardKind,
    pay: bool,
    mana: u32,
    n: nat,
) -> Option<int>
    decreases n,
{
    if n == 0 {
        None
    } else {
        match first_text_upto(texts, cat, k, pay, mana, (n - 1) as nat) {
            Some(i) => Some(i),
            None => match first_named(cat, texts[n - 1], k) {
                Some(j) => if !pay || affordable(mana, cat[j].2) { Some(n - 1) } else { None },
                None => None,
            },
        }
    }
}

/// Whether every cost of a catalog fits in `u32`.
pub open spec fn costs_fit(cat: Seq<(Seq<char>, CardTypeV, ManaCost)>) -> bool {
    forall|j: int| 0 <= j < cat.len() ==> (#[trigger] cat[j]).2.fits()
}

/// The costs of the card library fit in `u32`.
pub proof fn lemma_library_costs_fit()
    ensures
        costs_fit(library_catalog()),
{
    assert forall|j: int| 0 <= j < library_catalog().len() implies (#[trigger] library_catalog()[j]).2.fits() by {
        assert(library_catalog()[j].2 == library_kinds()[j].1);
        assert(library_kinds()[j].1.colorless <= 4 && library_kinds()[j].1.red <= 1 && library_kinds()[j].1.green == 0
            && library_kinds()[j].1.blue == 0 && library_kinds()[j].1.white == 0 && library_kinds()[j].1.black == 0);
    }
}

/// The first card of a library of kind `k` whose name occurs in `text` (see `first_named`).
pub fn find_named(lib: &CardLibrary, text: &str, k: CardKind) -> (r: Option<usize>)
    ensures
        match r {
            Some(j) => first_named(catalog_of(lib.view()), text@, k) == Some(j as int) && j < lib.view().len(),
            None => first_named(catalog_of(lib.view()), text@, k) is None,
        },
{
    let ghost l = catalog_of(lib.view());
    let n = lib.len();
    let mut j: usize = 0;
    while j < n
        invariant
            n == l.len(),
            l == catalog_of(lib.view()),
            j <= n,
            first_named_upto(l, text@, k, j as nat) is None,
        decreases n - j,
    {
        let card = lib.card_at(j);
        let kind_ok = match k {
            CardKind::Instant => matches!(card.card_type, CardType::Instant),
            CardKind::Creature => matches!(card.card_type, CardType::Creature(_)),
            CardKind::Land => matches!(card.card_type, CardType::Land),
            CardKind::NonLand => !matches!(card.card_type, CardType::Land),
            CardKind::Any => true,
        };
        if kind_ok && str_contains(text, card.name.as_str()) {
            proof {
                lemma_first_named_stable(l, text@, k, (j + 1) as nat, n as nat);
            }
            return Some(j);
        }
        j += 1;
    }
    None
}

/// Once a card is found, looking further does not change which is first.
proof fn lemma_first_named_stable(cat: Seq<(Seq<char>, CardTypeV, ManaCost)>, text: Seq<char>, k: CardKind, m: nat, n: nat)
    requires
        m <= n,
        first_named_upto(cat, text, k, m) is Some,
    ensures
        first_named_upto(cat, text, k, n) == first_named_upto(cat, text, k, m),
    decreases n,
{
    if n > m {
        lemma_first_named_stable(cat, text, k, m, (n - 1) as nat);
    }
}

/// Once a text is found, looking further does not change which is first.
proof fn lemma_first_text_stable(
    texts: Seq<Seq<char>>,
    cat: Seq<(Seq<char>, CardTypeV, ManaCost)>,
    k: CardKind,
    pay: bool,
    mana: u32,
    m: nat,
    n: nat,
)
    requires
        m <= n,
        first_text_upto(texts, cat, k, pay, mana, m) is Some,
    ensures
        first_text_upto(texts, cat, k, pay, mana, n) == first_text_upto(texts, cat, k, pay, mana, m),
    decreases n,
{
    if n > m {
        lemma_first_text_stable(texts, cat, k, pay, mana, m, (n - 1) as nat);
    }
}

/// Whether `text` names the card `name`.
pub fn text_contains(name: &str, ocr_text: &str) -> (r: bool)
    ensures
        r == contains_text(ocr_text@, name@),
{
    str_contains(ocr_text, name)
}

/// The bot: what it has read off the screen, what it tracks, and what it asks the screen to do.
pub struct Bot {
    pub end_game_counter: u32,
    pub end_game_threshold: u32,
    pub screen_width: i32,
    pub screen_height: i32,
    pub card_count: usize,
    pub cards_texts: Vec<String>,
    pub land_count: u32,
    pub land_number: u32,
    pub last_opponent_turn: bool,
    pub opponent_turn_counter: usize,
    pub land_played_this_turn: bool,
    pub battlefield_creatures: CardLibrary,
    pub battlefield_opponent_creatures: CardLibrary,
    pub next_state_override: Option<StateOverride>,
    pub last_cast_card_name: String,
    pub first_main_phase_done: bool,
    pub gre: Gre,
    pub updater: GameStateUpdater,
    pub attacking: Vec<String>,
    pub combat_attackers: Vec<usize>,
    pub combat_blocks: HashMap<usize, Vec<usize>>,
    /// What the bot asks to be done on the screen, oldest first.
    pub pending: Vec<BotAction>,
}

impl Bot {
    /// The bot's own consistency: the engine is consistent and no name is tracked twice.
    pub open spec fn wf(&self) -> bool {
        &&& self.gre.wf()
        &&& self.battlefield_creatures.wf()
        &&& self.battlefield_opponent_creatures.wf()
    }

    /// A new bot for a screen of the given size: nothing read or tracked yet, and an engine in
    /// which every fixed damage deals one more.
    pub fn new(screen_width: i32, screen_height: i32) -> (r: Self)
        ensures
            r.wf(),
            r.screen_width == screen_width,
            r.screen_height == screen_height,
            r.end_game_counter == 0,
            r.end_game_threshold == 3,
            r.card_count == 0,
            r.cards_texts@.len() == 0,
            r.land_count == 0,
            r.land_number == 0,
            !r.land_played_this_turn,
            r.battlefield_creatures.view().len() == 0,
            r.battlefield_opponent_creatures.view().len() == 0,
            r.pending@.len() == 0,
            r.gre@.continuous_effects == seq![ContinuousEffect::IncreaseFixedDamage(1)],
            r.gre@.battlefield.len() == 0,
            r.gre@.stack.len() == 0,
    {
        let mut gre = Gre::new(Player::Us);
        gre.add_continuous_effect(ContinuousEffect::IncreaseFixedDamage(1));
        Bot {
            end_game_counter: 0,
            end_game_threshold: 3,
            screen_width,
            screen_height,
            card_count: 0,
            cards_texts: Vec::new(),
            land_count: 0,
            land_number: 0,
            last_opponent_turn: false,
            opponent_turn_counter: 0,
            land_played_this_turn: false,
            battlefield_creatures: CardLibrary::new(),
            battlefield_opponent_creatures: CardLibrary::new(),
            next_state_override: None,
            last_cast_card_name: String::new(),
            first_main_phase_done: false,
            gre,
            updater: GameStateUpdater::new(),
            attacking: Vec::new(),
            combat_attackers: Vec::new(),
            combat_blocks: HashMap::new(),
            pending: Vec::new(),
        }
    }

    /// Records the texts read off the cards in hand.
    pub fn examine_cards(&mut self, texts: Vec<String>)
        ensures
            final(self).cards_texts@ == texts@,
            final(self).card_count == old(self).card_count,
            final(self).land_number == old(self).land_number,
    {
        self.cards_texts = texts;
    }

    /// Records the text read off a drawn card: it goes last in hand.
    pub fn draw_card(&mut self, text: String)
        ensures
            final(self).cards_texts@ == old(self).cards_texts@.push(text),
            final(self).card_count == final(self).cards_texts@.len(),
            final(self).land_number == old(self).land_number,
    {
        self.cards_texts.push(text);
        self.card_count = self.cards_texts.len();
    }

    /// Removes the card at `card_index` from hand, if there is one there.
    pub fn remove_card_from_hand(bot: &mut Bot, card_index: usize)
        ensures
            card_index < old(bot).cards_texts@.len() ==> final(bot).cards_texts@ == old(bot).cards_texts@.remove(
                card_index as int,
            ) && final(bot).card_count == final(bot).cards_texts@.len(),
            card_index >= old(bot).cards_texts@.len() ==> final(bot).cards_texts@ == old(bot).cards_texts@
                && final(bot).card_count == old(bot).card_count,
            final(bot).land_number == old(bot).land_number,
            final(bot).land_count == old(bot).land_count,
            final(bot).pending == old(bot).pending,
            final(bot).gre == old(bot).gre,
            final(bot).battlefield_creatures == old(bot).battlefield_creatures,
            final(bot).battlefield_opponent_creatures == old(bot).battlefield_opponent_creatures,
            final(bot).land_played_this_turn == old(bot).land_played_this_turn,
            final(bot).last_cast_card_name == old(bot).last_cast_card_name,
    {
        if card_index < bot.cards_texts.len() {
            bot.cards_texts.remove(card_index);
            bot.card_count = bot.cards_texts.len();
        }
    }

    /// Plays the card at `card_index`: where the screen has a place for it, the play is asked
    /// for and the card leaves the hand; otherwise nothing happens.
    pub fn play_card(bot: &mut Bot, card_index: usize)
        ensures
            card_index < screen_slots(old(bot).card_count) ==> {
                &&& final(bot).pending@ == old(bot).pending@.push(
                    BotAction::PlayCard { index: card_index, card_count: old(bot).card_count },
                )
                &&& (card_index < old(bot).cards_texts@.len() ==> final(bot).cards_texts@
                    == old(bot).cards_texts@.remove(card_index as int))
                &&& (card_index >= old(bot).cards_texts@.len() ==> final(bot).cards_texts@ == old(bot).cards_texts@)
            },
            card_index >= screen_slots(old(bot).card_count) ==> final(bot).pending@ == old(bot).pending@
                && final(bot).cards_texts@ == old(bot).cards_texts@,
            final(bot).card_count == if card_index < screen_slots(old(bot).card_count) && card_index < old(
                bot,
            ).cards_texts@.len() {
                final(bot).cards_texts@.len()
            } else {
                old(bot).card_count as nat
            },
            final(bot).land_number == old(bot).land_number,
            final(bot).land_count == old(bot).land_count,
            final(bot).gre == old(bot).gre,
            final(bot).battlefield_creatures == old(bot).battlefield_creatures,
            final(bot).battlefield_opponent_creatures == old(bot).battlefield_opponent_creatures,
            final(bot).land_played_this_turn == old(bot).land_played_this_turn,
            final(bot).last_cast_card_name == old(bot).last_cast_card_name,
    {
        let slots = if 1 <= bot.card_count && bot.card_count <= 8 { bot.card_count } else { 0 };
        if card_index >= slots {
            return;
        }
        bot.pending.push(BotAction::PlayCard { index: card_index, card_count: bot.card_count });
        Bot::remove_card_from_hand(bot, card_index);
    }

    /// Casts a card from hand: where the mana left pays for its coloured and then its generic
    /// cost, the card is played, remembered as the last cast, and its whole cost is spent (the
    /// result); otherwise the error says what was needed and what was there.
    pub fn try_cast_card(&mut self, pos: usize, card: &Card) -> (r: Result<u32, AppError>)
        requires
            card.mana_cost.fits(),
        ensures
            match r {
                Ok(cost) => {
                    &&& affordable(old(self).land_number, card.mana_cost)
                    &&& cost == card.mana_cost.spec_total()
                    &&& final(self).land_number == sat_sub(old(self).land_number, cost)
                    &&& final(self).last_cast_card_name@ == card.name@
                    &&& (pos < screen_slots(old(self).card_count) ==> final(self).pending@ == old(self).pending@.push(
                        BotAction::PlayCard { index: pos, card_count: old(self).card_count },
                    ))
                    &&& (pos < screen_slots(old(self).card_count) && pos < old(self).cards_texts@.len()
                        ==> final(self).cards_texts@ == old(self).cards_texts@.remove(pos as int))
                    &&& (pos >= screen_slots(old(self).card_count) ==> final(self).cards_texts@ == old(self).cards_texts@
                        && final(self).pending@ == old(self).pending@)
                    &&& final(self).card_count == if pos < screen_slots(old(self).card_count) && pos < old(
                        self,
                    ).cards_texts@.len() {
                        final(self).cards_texts@.len()
                    } else {
                        old(self).card_count as nat
                    }
                },
                Err(e) => {
                    &&& !affordable(old(self).land_number, card.mana_cost)
                    &&& e == AppError::InsufficientMana {
                        required: card.mana_cost.spec_total() as u32,
                        colored: card.mana_cost.spec_colored() as u32,
                        colorless: card.mana_cost.colorless,
                        available_colored: old(self).land_number,
                        available_colorless: old(self).land_number,
                    }
                    &&& final(self).land_number == old(self).land_number
                    &&& final(self).cards_texts == old(self).cards_texts
                    &&& final(self).pending == old(self).pending
                    &&& final(self).last_cast_card_name == old(self).last_cast_card_name
                    &&& final(self).card_count == old(self).card_count
                },
            },
            final(self).land_count == old(self).land_count,
            final(self).gre == old(self).gre,
            final(self).battlefield_creatures == old(self).battlefield_creatures,
            final(self).battlefield_opponent_creatures == old(self).battlefield_opponent_creatures,
            final(self).land_played_this_turn == old(self).land_played_this_turn,
    {
        let cost = &card.mana_cost;
        let available_colored = self.land_number;
        let needed_colored = cost.colored();
        let needed_colorless = cost.colorless;
        if available_colored < needed_colored {
            return Err(
                AppError::InsufficientMana {
                    required: cost.total(),
                    colored: needed_colored,
                    colorless: needed_colorless,
                    available_colored,
                    available_colorless: available_colored,
                },
            );
        }
        let leftover = available_colored - needed_colored;
        if leftover < needed_colorless {
            return Err(
                AppError::InsufficientMana {
                    required: cost.total(),
                    colored: needed_colored,
                    colorless: needed_colorless,
                    available_colored,
                    available_colorless: available_colored,
                },
            );
        }
        let cost_total = cost.total();
        Bot::play_card(self, pos);
        self.last_cast_card_name = card.name.clone();
        self.land_number = self.land_number.saturating_sub(cost_total);
        Ok(cost_total)
    }

    /// Whether some text in hand names a library card of kind `k` that the mana left pays for.
    pub fn can_cast_card(&self, k: CardKind) -> (r: bool)
        ensures
            r == exists|i: int|
                0 <= i < self.cards_texts@.len() && #[trigger] castable_at(
                    texts_view(self.cards_texts@),
                    library_catalog(),
                    k,
                    self.land_number,
                    i,
                ),
    {
        let library = build_card_library();
        let ghost cat = library_catalog();
        proof {
            lemma_library_costs_fit();
        }
        let ghost tv = texts_view(self.cards_texts@);
        let mut i: usize = 0;
        while i < self.cards_texts.len()
            invariant
                i <= self.cards_texts@.len(),
                cat == catalog_of(library.view()),
                cat == library_catalog(),
                costs_fit(cat),
                tv == texts_view(self.cards_texts@),
                forall|m: int| 0 <= m < i ==> !#[trigger] castable_at(tv, cat, k, self.land_number, m),
            decreases self.cards_texts.len() - i,
        {
            let n = library.len();
            let mut j: usize = 0;
            while j < n
                invariant
                    n == cat.len(),
                    cat == catalog_of(library.view()),
                    cat == library_catalog(),
                    costs_fit(cat),
                    i < tv.len(),
                    tv == texts_view(self.cards_texts@),
                    j <= n,
                    forall|q: int|
                        0 <= q < j ==> !(kind_matches(k, #[trigger] cat[q].1) && contains_text(tv[i as int], cat[q].0)
                            && affordable(self.land_number, cat[q].2)),
                decreases n - j,
            {
                let card = library.card_at(j);
                let kind_ok = match k {
                    CardKind::Instant => matches!(card.card_type, CardType::Instant),
                    CardKind::Creature => matches!(card.card_type, CardType::Creature(_)),
                    CardKind::Land => matches!(card.card_type, CardType::Land),
                    CardKind::NonLand => !matches!(card.card_type, CardType::Land),
                    CardKind::Any => true,
                };
                proof {
                    assert(cat[j as int].2.fits());
                    assert(tv[i as int] == self.cards_texts@[i as int]@);
                }
                if kind_ok && str_contains(self.cards_texts[i].as_str(), card.name.as_str()) {
                    let colored = card.mana_cost.colored();
                    let leftover = self.land_number.saturating_sub(colored);
                    if self.land_number >= colored && leftover >= card.mana_cost.colorless {
                        proof {
                            assert(leftover == self.land_number - colored);
                            assert(cat[j as int] == (card@.name, card@.card_type, card@.mana_cost));
                            assert(kind_matches(k, cat[j as int].1));
                            assert(contains_text(tv[i as int], cat[j as int].0));
                            assert(affordable(self.land_number, cat[j as int].2));
                            assert(castable_at(tv, cat, k, self.land_number, i as int));
                            assert(castable_at(texts_view(self.cards_texts@), library_catalog(), k, self.land_number, i as int));
                        }
                        return true;
                    }
                }
                j += 1;
            }
            i += 1;
        }
        false
    }

    /// Whether an instant in hand can be paid for.
    pub fn can_cast_instant(&self) -> (r: bool)
        ensures
            r == exists|i: int|
                0 <= i < self.cards_texts@.len() && #[trigger] castable_at(
                    texts_view(self.cards_texts@),
                    library_catalog(),
                    CardKind::Instant,
                    self.land_number,
                    i,
                ),
    {
        self.can_cast_card(CardKind::Instant)
    }

    /// Whether a creature in hand can be paid for.
    pub fn can_cast_creature(&self) -> (r: bool)
        ensures
            r == exists|i: int|
                0 <= i < self.cards_texts@.len() && #[trigger] castable_at(
                    texts_view(self.cards_texts@),
                    library_catalog(),
                    CardKind::Creature,
                    self.land_number,
                    i,
                ),
    {
        self.can_cast_card(CardKind::Creature)
    }
}


impl Bot {
    /// The first text in hand that names a library card of kind `k` (and, where `pay` holds,
    /// whose card the mana left pays for), with that card's position in the library.
    fn first_text(&self, library: &CardLibrary, k: CardKind, pay: bool) -> (r: Option<(usize, usize)>)
        requires
            catalog_of(library.view()) == library_catalog(),
        ensures
            match r {
                Some((i, j)) => {
                    &&& first_text_upto(
                        texts_view(self.cards_texts@),
                        library_catalog(),
                        k,
                        pay,
                        self.land_number,
                        self.cards_texts@.len(),
                    ) == Some(i as int)
                    &&& i < self.cards_texts@.len()
                    &&& j < library.view().len()
                    &&& first_named(library_catalog(), self.cards_texts@[i as int]@, k) == Some(j as int)
                    &&& (pay ==> affordable(self.land_number, library_catalog()[j as int].2))
                },
                None => first_text_upto(
                    texts_view(self.cards_texts@),
                    library_catalog(),
                    k,
                    pay,
                    self.land_number,
                    self.cards_texts@.len(),
                ) is None,
            },
    {
        let ghost tv = texts_view(self.cards_texts@);
        let ghost cat = library_catalog();
        proof {
            lemma_library_costs_fit();
        }
        let mut i: usize = 0;
        while i < self.cards_texts.len()
            invariant
                i <= self.cards_texts@.len(),
                tv == texts_view(self.cards_texts@),
                cat == library_catalog(),
                cat == catalog_of(library.view()),
                costs_fit(cat),
                first_text_upto(tv, cat, k, pay, self.land_number, i as nat) is None,
            decreases self.cards_texts.len() - i,
        {
            proof {
                assert(tv[i as int] == self.cards_texts@[i as int]@);
            }
            if let Some(j) = find_named(library, self.cards_texts[i].as_str(), k) {
                let card = library.card_at(j);
                proof {
                    assert(cat[j as int] == (card@.name, card@.card_type, card@.mana_cost));
                    assert(cat[j as int].2.fits());
                }
                let ok = if pay {
                    let colored = card.mana_cost.colored();
                    self.land_number >= colored && self.land_number - colored >= card.mana_cost.colorless
                } else {
                    true
                };
                if ok {
                    proof {
                        lemma_first_text_stable(tv, cat, k, pay, self.land_number, (i + 1) as nat, tv.len());
                    }
                    return Some((i, j));
                }
            }
            i += 1;
        }
        None
    }

    /// Plays the first land in hand, if no land was played this turn: the play is asked for, the
    /// land leaves the hand, and the bot has one more land and one more mana.
    pub fn play_land(&mut self)
        requires
            old(self).land_count < u32::MAX,
            old(self).land_number < u32::MAX,
        ensures
            ({
                let found = first_text_upto(
                    texts_view(old(self).cards_texts@),
                    library_catalog(),
                    CardKind::Land,
                    false,
                    old(self).land_number,
                    old(self).cards_texts@.len(),
                );
                if !old(self).land_played_this_turn && found is Some {
                    let i = found->Some_0;
                    &&& final(self).land_played_this_turn
                    &&& final(self).land_count == old(self).land_count + 1
                    &&& final(self).land_number == old(self).land_number + 1
                    &&& (i < screen_slots(old(self).card_count) ==> final(self).pending@ == old(self).pending@.push(
                        BotAction::PlayCard { index: i as usize, card_count: old(self).card_count },
                    ) && final(self).cards_texts@ == old(self).cards_texts@.remove(i))
                } else {
                    &&& final(self).land_played_this_turn == old(self).land_played_this_turn
                    &&& final(self).land_count == old(self).land_count
                    &&& final(self).land_number == old(self).land_number
                    &&& final(self).cards_texts == old(self).cards_texts
                    &&& final(self).pending == old(self).pending
                }
            }),
            final(self).gre == old(self).gre,
            final(self).battlefield_creatures == old(self).battlefield_creatures,
            final(self).battlefield_opponent_creatures == old(self).battlefield_opponent_creatures,
    {
        if self.land_played_this_turn {
            return;
        }
        let library = build_card_library();
        if let Some((idx, _)) = self.first_text(&library, CardKind::Land, false) {
            Bot::play_card(self, idx);
            self.land_played_this_turn = true;
            self.land_count += 1;
            self.land_number += 1;
        }
    }

    /// Replaces both sides of the tracked battlefield by what was read off the screen, keeping
    /// the tracked tokens (see `with_tokens`).
    pub fn refresh_battlefield(&mut self, ours_read: CardLibrary, theirs_read: CardLibrary)
        requires
            old(self).wf(),
            ours_read.wf(),
            theirs_read.wf(),
        ensures
            final(self).wf(),
            final(self).battlefield_creatures.view() == with_tokens(ours_read.view(), old(self).battlefield_creatures.view()),
            final(self).battlefield_opponent_creatures.view() == with_tokens(
                theirs_read.view(),
                old(self).battlefield_opponent_creatures.view(),
            ),
            final(self).cards_texts == old(self).cards_texts,
            final(self).land_number == old(self).land_number,
            final(self).gre == old(self).gre,
    {
        let merged = merge_tokens(ours_read, &self.battlefield_creatures);
        self.battlefield_creatures = merged;
        let opp_merged = merge_tokens(theirs_read, &self.battlefield_opponent_creatures);
        self.battlefield_opponent_creatures = opp_merged;
    }

    /// Whether the text read off the screen holds `name`.
    pub fn text_contains(name: &str, ocr_text: &str) -> (r: bool)
        ensures
            r == contains_text(ocr_text@, name@),
    {
        str_contains(ocr_text, name)
    }

    /// Makes the resolution of the last cast spell known to our creatures, then resolves the
    /// stack.
    pub fn on_spell_resolved(&mut self)
        requires
            old(self).wf(),
        ensures
            final(self).wf(),
            final(self).gre@.replacement_effects == old(self).gre@.replacement_effects,
            final(self).gre@.continuous_effects == old(self).gre@.continuous_effects,
            final(self).cards_texts == old(self).cards_texts,
            final(self).land_number == old(self).land_number,
            final(self).battlefield_creatures == old(self).battlefield_creatures,
            stack_resolved(
                handed_cards_result(
                    old(self).gre@,
                    old(self).battlefield_creatures.view().map_values(|p: (Seq<char>, CardV)| p.1),
                    Some(Trigger::OnCastResolved),
                    Player::Us,
                ),
                final(self).gre@,
            ),
            *final(self) == (Bot { gre: final(self).gre, ..*old(self) }),
    {
        let name = self.last_cast_card_name.clone();
        let mut targets = self.battlefield_creatures.values();
        proof {
            assert(cards_view(targets@) =~= self.battlefield_creatures.view().map_values(|p: (Seq<char>, CardV)| p.1));
        }
        self.gre.trigger_event(GameEvent::SpellResolved(name), &mut targets, Player::Us);
        self.gre.resolve_stack();
    }

    /// Makes the end of the turn known to our creatures, resolves the stack, and allows a land
    /// again.
    pub fn on_turn_end(&mut self)
        requires
            old(self).wf(),
        ensures
            final(self).wf(),
            !final(self).land_played_this_turn,
            final(self).gre@.replacement_effects == old(self).gre@.replacement_effects,
            final(self).gre@.continuous_effects == old(self).gre@.continuous_effects,
            final(self).cards_texts == old(self).cards_texts,
            final(self).land_number == old(self).land_number,
            final(self).battlefield_creatures == old(self).battlefield_creatures,
            stack_resolved(
                handed_cards_result(
                    old(self).gre@,
                    old(self).battlefield_creatures.view().map_values(|p: (Seq<char>, CardV)| p.1),
                    Some(Trigger::AtPhase { phase: GamePhase::End, player: PlayerSelector::AnyPlayer }),
                    Player::Us,
                ),
                final(self).gre@,
            ),
            *final(self) == (Bot { gre: final(self).gre, land_played_this_turn: false, ..*old(self) }),
    {
        let mut all_creatures = self.battlefield_creatures.values();
        proof {
            assert(cards_view(all_creatures@) =~= self.battlefield_creatures.view().map_values(|p: (Seq<char>, CardV)| p.1));
        }
        self.gre.trigger_event(GameEvent::TurnEnded, &mut all_creatures, Player::Us);
        self.gre.resolve_stack();
        self.land_played_this_turn = false;
    }

    /// Casts the first creature in hand that the mana left pays for, and returns its name and
    /// cost; nothing where there is none.
    pub fn cast_one_creature(&mut self) -> (r: Option<(String, u32)>)
        ensures
            ({
                let found = first_text_upto(
                    texts_view(old(self).cards_texts@),
                    library_catalog(),
                    CardKind::Creature,
                    true,
                    old(self).land_number,
                    old(self).cards_texts@.len(),
                );
                match r {
                    Some((name, cost)) => {
                        let i = found->Some_0;
                        let j = first_named(library_catalog(), old(self).cards_texts@[i]@, CardKind::Creature)->Some_0;
                        &&& found is Some
                        &&& name@ == library_catalog()[j].0
                        &&& cost == library_catalog()[j].2.spec_total()
                        &&& final(self).land_number == sat_sub(old(self).land_number, cost)
                        &&& final(self).last_cast_card_name@ == name@
                        &&& final(self).pending@ == if i < screen_slots(old(self).card_count) {
                            old(self).pending@.push(BotAction::PlayCard { index: i as usize, card_count: old(self).card_count })
                        } else {
                            old(self).pending@
                        }
                        &&& final(self).cards_texts@ == if i < screen_slots(old(self).card_count) {
                            old(self).cards_texts@.remove(i)
                        } else {
                            old(self).cards_texts@
                        }
                    },
                    None => {
                        &&& found is None
                        &&& final(self).land_number == old(self).land_number
                        &&& final(self).cards_texts == old(self).cards_texts
                        &&& final(self).pending == old(self).pending
                    },
                }
            }),
            final(self).gre == old(self).gre,
            final(self).battlefield_creatures == old(self).battlefield_creatures,
            final(self).land_played_this_turn == old(self).land_played_this_turn,
    {
        let library = build_card_library();
        proof {
            lemma_library_costs_fit();
        }
        match self.first_text(&library, CardKind::Creature, true) {
            Some((i, j)) => {
                let card = library.card_at(j);
                proof {
                    assert(library_catalog()[j as int] == (card@.name, card@.card_type, card@.mana_cost));
                    assert(library_catalog()[j as int].2.fits());
                }
                match self.try_cast_card(i, card) {
                    Ok(cost) => Some((card.name.clone(), cost)),
                    Err(_) => None,
                }
            },
            None => None,
        }
    }
}

/// Whether a card kind belongs to a kind of search (see `kind_matches`).
fn kind_ok(k: CardKind, t: &CardType) -> (r: bool)
    ensures
        r == kind_matches(k, t@),
{
    match k {
        CardKind::Instant => matches!(t, CardType::Instant),
        CardKind::Creature => matches!(t, CardType::Creature(_)),
        CardKind::Land => matches!(t, CardType::Land),
        CardKind::NonLand => !matches!(t, CardType::Land),
        CardKind::Any => true,
    }
}

/// What a casting pass keeps track of: the texts in hand, the hand's card count, the mana left,
/// our battlefield, the actions asked for, and the name of the last card cast.
pub struct CastRun {
    pub texts: Seq<Seq<char>>,
    pub card_count: usize,
    pub mana: u32,
    pub bf: Seq<(Seq<char>, CardV)>,
    pub pending: Seq<BotAction>,
    pub last: Seq<char>,
}

/// A bot as a casting pass sees it.
pub open spec fn cast_run_of(b: Bot) -> CastRun {
    CastRun {
        texts: texts_view(b.cards_texts@),
        card_count: b.card_count,
        mana: b.land_number,
        bf: b.battlefield_creatures.view(),
        pending: b.pending@,
        last: b.last_cast_card_name@,
    }
}

/// One position `i` of a casting pass over a library `lib`: where the text there names a card
/// (its first library match) of kind `k` that the mana left pays for, the card is played (the
/// play is asked for and the text leaves the hand where the screen has a place for it), its
/// cost is spent, a creature joins our battlefield with summoning sickness under its name, and a
/// battlefield reading is asked for; otherwise nothing changes.
pub open spec fn cast_step(st: CastRun, i: int, k: CardKind, lib: Seq<(Seq<char>, CardV)>) -> CastRun {
    if 0 <= i < st.texts.len() {
        match first_named(catalog_of(lib), st.texts[i], CardKind::Any) {
            Some(j) => {
                let c = lib[j].1;
                if kind_matches(k, c.card_type) && affordable(st.mana, c.mana_cost) {
                    let played = i < screen_slots(st.card_count);
                    CastRun {
                        texts: if played { st.texts.remove(i) } else { st.texts },
                        card_count: if played { (st.texts.len() - 1) as usize } else { st.card_count },
                        mana: sat_sub(st.mana, c.mana_cost.spec_total() as u32),
                        bf: if c.card_type is Creature {
                            insert_named(st.bf, c.name, sickened(c))
                        } else {
                            st.bf
                        },
                        pending: (if played {
                            st.pending.push(BotAction::PlayCard { index: i as usize, card_count: st.card_count })
                        } else {
                            st.pending
                        }).push(BotAction::RefreshBattlefield),
                        last: c.name,
                    }
                } else {
                    st
                }
            },
            None => st,
        }
    } else {
        st
    }
}

/// A casting pass over the positions `len - 1` down to `len - n` of a hand of `len` texts.
pub open spec fn cast_upto(st: CastRun, k: CardKind, lib: Seq<(Seq<char>, CardV)>, len: int, n: nat) -> CastRun
    decreases n,
{
    if n == 0 {
        st
    } else {
        cast_step(cast_upto(st, k, lib, len, (n - 1) as nat), len - n, k, lib)
    }
}

/// Whether a library is one `build_card_library` gives: the catalog, no name twice, and each
/// card under its own name.
pub open spec fn is_card_library(lib: Seq<(Seq<char>, CardV)>) -> bool {
    &&& catalog_of(lib) == library_catalog()
    &&& distinct_names(lib)
    &&& forall|i: int| 0 <= i < lib.len() ==> (#[trigger] lib[i]).0 == lib[i].1.name
}

/// What casting the first instant in hand at our creature `idx` does to a bot `b` (giving `f`):
/// the first text naming a library instant is found; where the mana pays for that instant, it is
/// played (see `Bot::try_cast_card`), its cost comes off the mana twice, and where the screen
/// shows our creature `idx` a click on it is asked for; otherwise mana, hand and actions stay.
pub open spec fn instant_cast_outcome(b: Bot, f: Bot, idx: usize) -> bool {
    let texts = texts_view(b.cards_texts@);
    match first_text_upto(texts, library_catalog(), CardKind::Instant, false, b.land_number, texts.len()) {
        Some(i) => {
            let j = first_named(library_catalog(), texts[i], CardKind::Instant)->Some_0;
            let c = library_catalog()[j];
            if affordable(b.land_number, c.2) {
                let cost = c.2.spec_total() as u32;
                let played = i < screen_slots(b.card_count);
                let n = b.battlefield_creatures.view().len();
                let after_play = if played {
                    b.pending@.push(BotAction::PlayCard { index: i as usize, card_count: b.card_count })
                } else {
                    b.pending@
                };
                &&& f.land_number == sat_sub(sat_sub(b.land_number, cost), cost)
                &&& f.last_cast_card_name@ == c.0
                &&& f.cards_texts@ == (if played { b.cards_texts@.remove(i) } else { b.cards_texts@ })
                &&& f.pending@ == (if idx < screen_slots(n as usize) {
                    after_play.push(BotAction::TargetCreature { index: idx, creature_count: n as usize })
                } else {
                    after_play
                })
            } else {
                &&& f.land_number == b.land_number
                &&& f.cards_texts == b.cards_texts
                &&& f.pending == b.pending
            }
        },
        None => {
            &&& f.land_number == b.land_number
            &&& f.cards_texts == b.cards_texts
            &&& f.pending == b.pending
        },
    }
}

impl Bot {
    /// Casts, from the last card in hand to the first, every card whose first library match is
    /// of kind `k` and that the mana left pays for; cast creatures join our battlefield with
    /// summoning sickness, and a battlefield reading is asked for after each cast. Returns the
    /// mana left, which is also the bot's mana afterwards.
    pub fn cast_cards_by_filter(&mut self, k: CardKind) -> (r: u32)
        requires
            old(self).wf(),
        ensures
            final(self).wf(),
            r == final(self).land_number,
            exists|lib: Seq<(Seq<char>, CardV)>|
                is_card_library(lib) && #[trigger] cast_run_of(*final(self)) == cast_upto(
                    cast_run_of(*old(self)),
                    k,
                    lib,
                    old(self).cards_texts@.len() as int,
                    old(self).cards_texts@.len(),
                ),
            r <= old(self).land_number,
            final(self).cards_texts@.len() <= old(self).cards_texts@.len(),
            final(self).gre == old(self).gre,
            final(self).land_played_this_turn == old(self).land_played_this_turn,
    {
        let ghost st0 = cast_run_of(*self);
        let ghost len0 = self.cards_texts@.len() as int;
        let mut mana_available = self.land_number;
        let library = build_card_library();
        let ghost lib = library.view();
        proof {
            lemma_library_costs_fit();
            assert forall|q: int| 0 <= q < lib.len() implies (#[trigger] lib[q]).0 == lib[q].1.name by {
                assert(lib[q].1.name == lib[q].0);
            }
        }
        let mut i = self.cards_texts.len();
        while i > 0
            invariant
                self.wf(),
                lib == library.view(),
                is_card_library(lib),
                catalog_of(library.view()) == library_catalog(),
                costs_fit(library_catalog()),
                0 <= i <= len0,
                mana_available == self.land_number,
                cast_run_of(*self) == cast_upto(st0, k, lib, len0, (len0 - i) as nat),
                i <= self.cards_texts@.len(),
                self.cards_texts@.len() <= st0.texts.len(),
                mana_available <= old(self).land_number,
                self.gre == old(self).gre,
                self.land_played_this_turn == old(self).land_played_this_turn,
            decreases i,
        {
            i -= 1;
            let ghost before = cast_run_of(*self);
            proof {
                assert(before == cast_upto(st0, k, lib, len0, (len0 - (i + 1)) as nat));
                assert(len0 - (len0 - i) == i);
            }
            if i < self.cards_texts.len() {
                proof {
                    assert(before.texts[i as int] == self.cards_texts@[i as int]@);
                }
                if let Some(j) = find_named(&library, self.cards_texts[i].as_str(), CardKind::Any) {
                    let card = library.card_at(j);
                    proof {
                        assert(library_catalog()[j as int] == (card@.name, card@.card_type, card@.mana_cost));
                        assert(library_catalog()[j as int].2.fits());
                    }
                    if kind_ok(k, &card.card_type) {
                        match self.try_cast_card(i, card) {
                            Ok(cost_used) => {
                                mana_available = mana_available.saturating_sub(cost_used);
                                if let CardType::Creature(_) = &card.card_type {
                                    let mut new_card = card.clone();
                                    if let CardType::Creature(ref mut cr) = new_card.card_type {
                                        cr.summoning_sickness = true;
                                    }
                                    assert(new_card@ == sickened(card@));
                                    self.battlefield_creatures.insert(new_card.name.clone(), new_card);
                                }
                                self.pending.push(BotAction::RefreshBattlefield);
                                proof {
                                    assert(cast_run_of(*self).texts =~= cast_step(before, i as int, k, lib).texts);
                                    assert(cast_run_of(*self).pending =~= cast_step(before, i as int, k, lib).pending);
                                }
                            },
                            Err(_) => {},
                        }
                    }
                }
            }
            proof {
                assert(cast_run_of(*self) == cast_step(before, i as int, k, lib));
            }
        }
        self.land_number = mana_available;
        mana_available
    }

    /// Casts every instant in hand that can be paid for (see `cast_cards_by_filter`).
    pub fn cast_instants(&mut self) -> (r: u32)
        requires
            old(self).wf(),
        ensures
            final(self).wf(),
            r == final(self).land_number,
            exists|lib: Seq<(Seq<char>, CardV)>|
                is_card_library(lib) && #[trigger] cast_run_of(*final(self)) == cast_upto(
                    cast_run_of(*old(self)),
                    CardKind::Instant,
                    lib,
                    old(self).cards_texts@.len() as int,
                    old(self).cards_texts@.len(),
                ),
            r <= old(self).land_number,
            final(self).gre == old(self).gre,
    {
        self.cast_cards_by_filter(CardKind::Instant)
    }

    /// Casts every creature in hand that can be paid for (see `cast_cards_by_filter`).
    pub fn cast_creatures(&mut self) -> (r: u32)
        requires
            old(self).wf(),
        ensures
            final(self).wf(),
            r == final(self).land_number,
            exists|lib: Seq<(Seq<char>, CardV)>|
                is_card_library(lib) && #[trigger] cast_run_of(*final(self)) == cast_upto(
                    cast_run_of(*old(self)),
                    CardKind::Creature,
                    lib,
                    old(self).cards_texts@.len() as int,
                    old(self).cards_texts@.len(),
                ),
            r <= old(self).land_number,
            final(self).gre == old(self).gre,
    {
        self.cast_cards_by_filter(CardKind::Creature)
    }

    /// With mana left and a creature in hand, casts creatures and asks for a battlefield
    /// reading; otherwise nothing happens.
    pub fn process_creature_casting(&mut self)
        requires
            old(self).wf(),
        ensures
            final(self).wf(),
            old(self).land_number == 0 || first_text_upto(
                texts_view(old(self).cards_texts@),
                library_catalog(),
                CardKind::Creature,
                false,
                old(self).land_number,
                old(self).cards_texts@.len(),
            ) is None ==> final(self).land_number == old(self).land_number && final(self).cards_texts == old(
                self,
            ).cards_texts && final(self).pending == old(self).pending,
            old(self).land_number > 0 && first_text_upto(
                texts_view(old(self).cards_texts@),
                library_catalog(),
                CardKind::Creature,
                false,
                old(self).land_number,
                old(self).cards_texts@.len(),
            ) is Some ==> exists|lib: Seq<(Seq<char>, CardV)>|
                is_card_library(lib) && #[trigger] cast_run_of(*final(self)) == ({
                    let run = cast_upto(
                        cast_run_of(*old(self)),
                        CardKind::Creature,
                        lib,
                        old(self).cards_texts@.len() as int,
                        old(self).cards_texts@.len(),
                    );
                    CastRun { pending: run.pending.push(BotAction::RefreshBattlefield), ..run }
                }),
            final(self).land_number <= old(self).land_number,
            final(self).gre == old(self).gre,
    {
        if self.land_number > 0 {
            let library = build_card_library();
            if self.first_text(&library, CardKind::Creature, false).is_some() {
                let ghost b0 = *self;
                self.cast_creatures();
                let ghost b1 = *self;
                self.pending.push(BotAction::RefreshBattlefield);
                proof {
                    let lib = choose|lib: Seq<(Seq<char>, CardV)>|
                        is_card_library(lib) && #[trigger] cast_run_of(b1) == cast_upto(
                            cast_run_of(b0),
                            CardKind::Creature,
                            lib,
                            b0.cards_texts@.len() as int,
                            b0.cards_texts@.len(),
                        );
                    assert(cast_run_of(*self) == ({
                        let run = cast_upto(
                            cast_run_of(b0),
                            CardKind::Creature,
                            lib,
                            b0.cards_texts@.len() as int,
                            b0.cards_texts@.len(),
                        );
                        CastRun { pending: run.pending.push(BotAction::RefreshBattlefield), ..run }
                    }));
                }
            }
        }
    }

    /// Casts the first instant in hand that names a library instant, provided some instant in
    /// hand can be paid for; on success the cost is spent once more from the mana left, and where
    /// the screen shows our creature at `creature_index`, a click on it as the target is asked for.
    pub fn cast_instants_targeting_creature(&mut self, creature_index: usize)
        requires
            old(self).wf(),
        ensures
            final(self).wf(),
            final(self).land_number <= old(self).land_number,
            !(exists|i: int|
                0 <= i < old(self).cards_texts@.len() && #[trigger] castable_at(
                    texts_view(old(self).cards_texts@),
                    library_catalog(),
                    CardKind::Instant,
                    old(self).land_number,
                    i,
                )) ==> final(self).land_number == old(self).land_number && final(self).cards_texts == old(
                self,
            ).cards_texts && final(self).pending == old(self).pending,
            (exists|i: int|
                0 <= i < old(self).cards_texts@.len() && #[trigger] castable_at(
                    texts_view(old(self).cards_texts@),
                    library_catalog(),
                    CardKind::Instant,
                    old(self).land_number,
                    i,
                )) ==> instant_cast_outcome(*old(self), *final(self), creature_index),
            final(self).gre == old(self).gre,
            final(self).battlefield_creatures == old(self).battlefield_creatures,
    {
        if !self.can_cast_instant() {
            return;
        }
        let library = build_card_library();
        proof {
            lemma_library_costs_fit();
        }
        if let Some((i, j)) = self.first_text(&library, CardKind::Instant, false) {
            let card = library.card_at(j);
            proof {
                assert(library_catalog()[j as int] == (card@.name, card@.card_type, card@.mana_cost));
                assert(library_catalog()[j as int].2.fits());
            }
            match self.try_cast_card(i, card) {
                Ok(cost) => {
                    self.land_number = self.land_number.saturating_sub(cost);
                    let count = self.battlefield_creatures.len();
                    let slots = if 1 <= count && count <= 8 { count } else { 0 };
                    if creature_index < slots {
                        self.pending.push(BotAction::TargetCreature { index: creature_index, creature_count: count });
                    }
                },
                Err(_) => {},
            }
        }
    }
}
} // verus!
