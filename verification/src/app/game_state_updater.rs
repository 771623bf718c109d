//! Keeps what the bot knows of the game in step with what it reads off the screen.
use vstd::prelude::*;

use crate::app::card_library::{
    card_named, has_name, insert_named, Card, CardLibrary, CardTypeFlags, CardV, FLAG_TOKEN,
};
use crate::app::game_state::{entries_view, GameState};
use crate::app::gre::stack::{stack_view, PriorityEntry, PriorityEntryV, StackEntry, StackEntryV};
use crate::app::gre::trigger::cards_view;

verus! {

/// The cards in hand for the texts read off the cards: each text that names a card of the
/// library exactly gives that card; other texts give nothing.
pub open spec fn hand_from(texts: Seq<Seq<char>>, lib: Seq<(Seq<char>, CardV)>) -> Seq<CardV>
    decreases texts.len(),
{
    if texts.len() == 0 {
        Seq::empty()
    } else {
        let prev = hand_from(texts.drop_last(), lib);
        if has_name(lib, texts.last()) {
            prev.push(card_named(lib, texts.last()))
        } else {
            prev
        }
    }
}

/// Whether a card is a token.
pub open spec fn is_token(c: CardV) -> bool {
    c.type_flags.has(CardTypeFlags { bits: FLAG_TOKEN })
}

/// The cards read off the battlefield, with the tokens among the first `n` previously tracked
/// cards put back under their names.
pub open spec fn with_tokens_upto(read: Seq<(Seq<char>, CardV)>, previous: Seq<(Seq<char>, CardV)>, n: nat) -> Seq<
    (Seq<char>, CardV),
>
    decreases n,
{
    if n == 0 {
        read
    } else {
        let acc = with_tokens_upto(read, previous, (n - 1) as nat);
        if is_token(previous[n - 1].1) {
            insert_named(acc, previous[n - 1].0, previous[n - 1].1)
        } else {
            acc
        }
    }
}

/// The cards read off the battlefield, with every previously tracked token put back (tokens
/// cannot be read off the screen).
pub open spec fn with_tokens(read: Seq<(Seq<char>, CardV)>, previous: Seq<(Seq<char>, CardV)>) -> Seq<(Seq<char>, CardV)> {
    with_tokens_upto(read, previous, previous.len())
}

/// The creatures recognised among the first `n` names read off one side of the battlefield.
pub open spec fn recognised_upto(names: Seq<Seq<char>>, lib: Seq<(Seq<char>, CardV)>, n: nat) -> Seq<(Seq<char>, CardV)>
    decreases n,
{
    if n == 0 {
        Seq::empty()
    } else {
        let acc = recognised_upto(names, lib, (n - 1) as nat);
        if has_name(lib, names[n - 1]) {
            insert_named(acc, names[n - 1], card_named(lib, names[n - 1]))
        } else {
            acc
        }
    }
}

/// The entries of the stack, in the order in which they are kept.
pub open spec fn stack_entries(s: Seq<PriorityEntryV>) -> Seq<StackEntryV> {
    s.map_values(|e: PriorityEntryV| e.entry)
}

/// The library cards named by the texts read off one side of the battlefield, under those
/// names (see `recognised_upto`); unknown names are left out.
pub fn load_side_creatures(names: &Vec<String>, library: &CardLibrary) -> (r: CardLibrary)
    requires
        library.wf(),
    ensures
        r.wf(),
        r.view() == recognised_upto(names@.map_values(|s: String| s@), library.view(), names@.len()),
{
    let ghost lib = library.view();
    let ghost nv = names@.map_values(|s: String| s@);
    let mut map = CardLibrary::new();
    let mut i: usize = 0;
    while i < names.len()
        invariant
            i <= names@.len(),
            library.wf(),
            lib == library.view(),
            nv == names@.map_values(|s: String| s@),
            map.wf(),
            map.view() == recognised_upto(nv, lib, i as nat),
        decreases names.len() - i,
    {
        proof {
            assert(nv[i as int] == names@[i as int]@);
        }
        if let Some(card) = library.get(names[i].as_str()) {
            map.insert(names[i].clone(), card.clone());
        }
        i += 1;
    }
    map
}

/// Puts the previously tracked tokens back among the cards read off the battlefield (see
/// `with_tokens`).
pub fn merge_tokens(read: CardLibrary, previous: &CardLibrary) -> (r: CardLibrary)
    requires
        read.wf(),
    ensures
        r.wf(),
        r.view() == with_tokens(read.view(), previous.view()),
{
    let ghost rv = read.view();
    let mut merged = read;
    let mut i: usize = 0;
    while i < previous.len()
        invariant
            i <= previous.view().len(),
            merged.wf(),
            merged.view() == with_tokens_upto(rv, previous.view(), i as nat),
        decreases previous.view().len() - i,
    {
        let card = previous.card_at(i);
        if card.type_flags.contains(CardTypeFlags::token()) {
            let name = previous.name_at(i);
            merged.insert(name.to_owned(), card.clone());
        }
        i += 1;
    }
    merged
}

/// The most mana a reading may report: the all-ones reading (`u32::MAX`) is what an overflowed
/// count shows, so it is taken as misread and clamped to the value below it; every other
/// reading is kept as it is.
pub const MANA_CEILING: u32 = 4294967294;

/// A mana reading clamped to `MANA_CEILING`.
pub open spec fn clamped_mana(m: u32) -> u32 {
    if m > MANA_CEILING {
        MANA_CEILING
    } else {
        m
    }
}

/// Keeps what the bot knows of the game in step with the screen.
pub struct GameStateUpdater {
    pub state: GameState,
}

impl GameStateUpdater {
    pub fn new() -> (r: Self)
        ensures
            r.state.is_empty(),
    {
        GameStateUpdater { state: GameState::default() }
    }

    /// Takes a copy of the engine's stack entries, in the order in which the engine keeps them.
    pub fn update_stack(&mut self, gre_stack: &Vec<PriorityEntry>)
        ensures
            entries_view(final(self).state.stack@) == stack_entries(stack_view(gre_stack@)),
            final(self).state.hand == old(self).state.hand,
            final(self).state.battlefield == old(self).state.battlefield,
            final(self).state.opponent_battlefield == old(self).state.opponent_battlefield,
            final(self).state.life_total == old(self).state.life_total,
            final(self).state.opponent_life_total == old(self).state.opponent_life_total,
            final(self).state.mana_available == old(self).state.mana_available,
            final(self).state.land_played_this_turn == old(self).state.land_played_this_turn,
            final(self).state == (GameState { stack: final(self).state.stack, ..old(self).state }),
    {
        let mut entries: Vec<StackEntry> = Vec::new();
        let mut i: usize = 0;
        while i < gre_stack.len()
            invariant
                i <= gre_stack@.len(),
                entries@.len() == i,
                forall|j: int| 0 <= j < i ==> #[trigger] entries@[j]@ == gre_stack@[j].entry@,
            decreases gre_stack.len() - i,
        {
            entries.push(gre_stack[i].entry.clone());
            i += 1;
        }
        self.state.stack = entries;
        proof {
            assert(entries_view(self.state.stack@) =~= stack_entries(stack_view(gre_stack@)));
        }
    }

    /// Records the life totals read off the screen.
    pub fn update_life_totals(&mut self, life_total: i32, opponent_life_total: i32)
        ensures
            final(self).state.life_total == life_total,
            final(self).state.opponent_life_total == opponent_life_total,
            final(self).state.hand == old(self).state.hand,
            final(self).state.stack == old(self).state.stack,
            final(self).state.mana_available == old(self).state.mana_available,
            final(self).state == (GameState { life_total, opponent_life_total, ..old(self).state }),
    {
        self.state.life_total = life_total;
        self.state.opponent_life_total = opponent_life_total;
    }

    /// Rebuilds the hand from the texts read off the cards (see `hand_from`).
    pub fn update_hand(&mut self, cards_texts: &Vec<String>, library: &CardLibrary)
        requires
            library.wf(),
        ensures
            cards_view(final(self).state.hand@) == hand_from(cards_texts@.map_values(|s: String| s@), library.view()),
            final(self).state.stack == old(self).state.stack,
            final(self).state.battlefield == old(self).state.battlefield,
            final(self).state.mana_available == old(self).state.mana_available,
            final(self).state.life_total == old(self).state.life_total,
            final(self).state.opponent_life_total == old(self).state.opponent_life_total,
            final(self).state == (GameState { hand: final(self).state.hand, ..old(self).state }),
    {
        let ghost tv = cards_texts@.map_values(|s: String| s@);
        self.state.hand.clear();
        let mut i: usize = 0;
        proof {
            assert(cards_view(self.state.hand@) =~= Seq::<CardV>::empty());
            assert(tv.take(0) =~= Seq::<Seq<char>>::empty());
        }
        while i < cards_texts.len()
            invariant
                i <= cards_texts@.len(),
                tv == cards_texts@.map_values(|s: String| s@),
                library.wf(),
                cards_view(self.state.hand@) == hand_from(tv.take(i as int), library.view()),
                self.state.stack == old(self).state.stack,
                self.state.battlefield == old(self).state.battlefield,
                self.state.mana_available == old(self).state.mana_available,
                self.state.life_total == old(self).state.life_total,
                self.state.opponent_life_total == old(self).state.opponent_life_total,
                self.state == (GameState { hand: self.state.hand, ..old(self).state }),
            decreases cards_texts.len() - i,
        {
            proof {
                assert(tv.take(i as int + 1).drop_last() =~= tv.take(i as int));
                assert(tv.take(i as int + 1).last() == cards_texts@[i as int]@);
            }
            if let Some(card) = library.get(cards_texts[i].as_str()) {
                let ghost before = self.state.hand@;
                let c = card.clone();
                self.state.hand.push(c);
                proof {
                    assert(cards_view(self.state.hand@) =~= cards_view(before).push(c@));
                }
            }
            i += 1;
        }
        proof {
            assert(tv.take(i as int) =~= tv);
        }
    }

    /// Replaces both sides of the battlefield by what was read off the screen, keeping the
    /// previously tracked tokens, and takes copies of both into the game state.
    pub fn update_battlefield_creatures(
        &mut self,
        battlefield_creatures: &mut CardLibrary,
        battlefield_opponent_creatures: &mut CardLibrary,
        ours_read: CardLibrary,
        theirs_read: CardLibrary,
    )
        requires
            ours_read.wf(),
            theirs_read.wf(),
        ensures
            final(battlefield_creatures).wf(),
            final(battlefield_opponent_creatures).wf(),
            final(battlefield_creatures).view() == with_tokens(ours_read.view(), old(battlefield_creatures).view()),
            final(battlefield_opponent_creatures).view() == with_tokens(
                theirs_read.view(),
                old(battlefield_opponent_creatures).view(),
            ),
            cards_view(final(self).state.battlefield@) == final(battlefield_creatures).view().map_values(
                |p: (Seq<char>, CardV)| p.1,
            ),
            cards_view(final(self).state.opponent_battlefield@) == final(battlefield_opponent_creatures).view().map_values(
                |p: (Seq<char>, CardV)| p.1,
            ),
            final(self).state.hand == old(self).state.hand,
            final(self).state.stack == old(self).state.stack,
            final(self).state.mana_available == old(self).state.mana_available,
            final(self).state.life_total == old(self).state.life_total,
            final(self).state.opponent_life_total == old(self).state.opponent_life_total,
    {
        let merged_ours = merge_tokens(ours_read, battlefield_creatures);
        *battlefield_creatures = merged_ours;
        let merged_opp = merge_tokens(theirs_read, battlefield_opponent_creatures);
        *battlefield_opponent_creatures = merged_opp;
        self.state.battlefield = battlefield_creatures.values();
        self.state.opponent_battlefield = battlefield_opponent_creatures.values();
        proof {
            assert(cards_view(self.state.battlefield@) =~= battlefield_creatures.view().map_values(
                |p: (Seq<char>, CardV)| p.1,
            ));
            assert(cards_view(self.state.opponent_battlefield@) =~= battlefield_opponent_creatures.view().map_values(
                |p: (Seq<char>, CardV)| p.1,
            ));
        }
    }

    /// Records the available mana (the overflowed reading above `MANA_CEILING` is clamped to it) and
    /// whether a land was played this turn.
    pub fn update_mana_and_land(&mut self, available_mana: u32, land_played: bool)
        ensures
            final(self).state.mana_available == clamped_mana(available_mana),
            final(self).state == (GameState {
                mana_available: clamped_mana(available_mana),
                land_played_this_turn: land_played,
                ..old(self).state
            }),
            final(self).state.land_played_this_turn == land_played,
            final(self).state.hand == old(self).state.hand,
            final(self).state.stack == old(self).state.stack,
            final(self).state.battlefield == old(self).state.battlefield,
            final(self).state.life_total == old(self).state.life_total,
            final(self).state.opponent_life_total == old(self).state.opponent_life_total,
    {
        self.state.mana_available = if available_mana > MANA_CEILING { MANA_CEILING } else { available_mana };
        self.state.land_played_this_turn = land_played;
    }

    /// Refreshes everything: life totals, hand, both sides of the battlefield, mana and the
    /// stack, each as its own update does.
    pub fn refresh_all(
        &mut self,
        life_total: i32,
        opponent_life_total: i32,
        cards_texts: &Vec<String>,
        library: &CardLibrary,
        available_mana: u32,
        land_played: bool,
        gre_stack: &Vec<PriorityEntry>,
        battlefield_creatures: &mut CardLibrary,
        battlefield_opponent_creatures: &mut CardLibrary,
        ours_read: CardLibrary,
        theirs_read: CardLibrary,
    )
        requires
            library.wf(),
            ours_read.wf(),
            theirs_read.wf(),
        ensures
            final(self).state.life_total == life_total,
            final(self).state.opponent_life_total == opponent_life_total,
            cards_view(final(self).state.hand@) == hand_from(cards_texts@.map_values(|s: String| s@), library.view()),
            final(battlefield_creatures).view() == with_tokens(ours_read.view(), old(battlefield_creatures).view()),
            final(battlefield_opponent_creatures).view() == with_tokens(
                theirs_read.view(),
                old(battlefield_opponent_creatures).view(),
            ),
            cards_view(final(self).state.battlefield@) == final(battlefield_creatures).view().map_values(
                |p: (Seq<char>, CardV)| p.1,
            ),
            final(self).state.mana_available == clamped_mana(available_mana),
            final(self).state.land_played_this_turn == land_played,
            entries_view(final(self).state.stack@) == stack_entries(stack_view(gre_stack@)),
    {
        self.update_life_totals(life_total, opponent_life_total);
        self.update_hand(cards_texts, library);
        self.update_battlefield_creatures(battlefield_creatures, battlefield_opponent_creatures, ours_read, theirs_read);
        self.update_mana_and_land(available_mana, land_played);
        self.update_stack(gre_stack);
    }
}

} // verus!
