//! Cards recognised from the text read off the screen.
use vstd::prelude::*;

use crate::app::text::{contains_text, str_contains, str_eq};

verus! {

/// Where a card in hand is hovered and read.
#[derive(Debug, Copy, Clone)]
pub struct CardPosition {
    pub hover_x: u32,
    pub ocr_x1: u32,
    pub ocr_x2: u32,
}

/// A mana cost by colour.
#[derive(Debug, Clone, Copy, PartialEq, Eq, Structural)]
pub struct ManaCost {
    pub colorless: u32,
    pub red: u32,
    pub blue: u32,
    pub green: u32,
    pub black: u32,
    pub white: u32,
}

impl ManaCost {
    /// The coloured part of the cost.
    pub open spec fn spec_colored(self) -> int {
        self.red + self.blue + self.green + self.black + self.white
    }

    /// The whole cost.
    pub open spec fn spec_total(self) -> int {
        self.spec_colored() + self.colorless
    }

    /// The coloured mana the cost asks for (the sum must fit in `u32`).
    pub fn colored(&self) -> (r: u32)
        requires
            self.spec_colored() <= u32::MAX,
        ensures
            r == self.spec_colored(),
    {
        self.red + self.blue + self.green + self.black + self.white
    }

    /// All the mana the cost asks for (the sum must fit in `u32`).
    pub fn total(&self) -> (r: u32)
        requires
            self.spec_total() <= u32::MAX,
        ensures
            r == self.spec_total(),
    {
        self.colored() + self.colorless
    }
}

/// A cost of `colorless` generic and `red` red mana.
pub open spec fn red_mana(colorless: u32, red: u32) -> ManaCost {
    ManaCost { colorless, red, blue: 0, green: 0, black: 0, white: 0 }
}

/// The mana cost of a card by its name; unknown names cost nothing.
pub open spec fn mana_cost_of(name: Seq<char>) -> ManaCost {
    if name == "Burst Lightning"@ {
        red_mana(0, 1)
    } else if name == "Lightning Strike"@ {
        red_mana(1, 1)
    } else if name == "Blazing Crescendo"@ {
        red_mana(1, 1)
    } else if name == "Monstrous Rage"@ {
        red_mana(0, 1)
    } else if name == "Felonious Rage"@ {
        red_mana(0, 1)
    } else if name == "Heartfire Hero"@ {
        red_mana(0, 1)
    } else if name == "Cacophony Scamp"@ {
        red_mana(0, 1)
    } else if name == "Electrostatic Infantry"@ {
        red_mana(1, 1)
    } else if name == "Monastery Swiftspear"@ {
        red_mana(0, 1)
    } else if name == "Demonic Ruckus"@ {
        red_mana(1, 1)
    } else {
        red_mana(0, 0)
    }
}

/// The mana cost of a card by its name (see `mana_cost_of`).
pub fn parse_mana_cost(card_name: &str) -> (r: ManaCost)
    ensures
        r == mana_cost_of(card_name@),
{
    let (colorless, red): (u32, u32) = if str_eq(card_name, "Burst Lightning") {
        (0, 1)
    } else if str_eq(card_name, "Lightning Strike") {
        (1, 1)
    } else if str_eq(card_name, "Blazing Crescendo") {
        (1, 1)
    } else if str_eq(card_name, "Monstrous Rage") {
        (0, 1)
    } else if str_eq(card_name, "Felonious Rage") {
        (0, 1)
    } else if str_eq(card_name, "Heartfire Hero") {
        (0, 1)
    } else if str_eq(card_name, "Cacophony Scamp") {
        (0, 1)
    } else if str_eq(card_name, "Electrostatic Infantry") {
        (1, 1)
    } else if str_eq(card_name, "Monastery Swiftspear") {
        (0, 1)
    } else if str_eq(card_name, "Demonic Ruckus") {
        (1, 1)
    } else {
        (0, 0)
    };
    ManaCost { colorless, red, blue: 0, green: 0, black: 0, white: 0 }
}

/// A creature as recognised from its text.
#[derive(Debug, Clone)]
pub struct Creature {
    pub name: String,
    pub summoning_sickness: bool,
    pub power: i32,
    pub toughness: i32,
}

/// An instant as recognised from its text.
#[derive(Debug, Clone)]
pub struct Instant_ {
    pub name: String,
}

/// An enchantment as recognised from its text.
#[derive(Debug, Clone)]
pub struct Enchantment {
    pub name: String,
}

/// The kind of a recognised card.
#[derive(Debug, Clone)]
pub enum CardType {
    Creature(Creature),
    Instant(Instant_),
    Enchantment(Enchantment),
}

/// The value of a recognised card: its kind, its name, and for a creature its power and
/// toughness (recognised creatures have summoning sickness).
pub enum ParsedCard {
    Creature(Seq<char>, i32, i32),
    Instant(Seq<char>),
    Enchantment(Seq<char>),
}

impl View for CardType {
    type V = ParsedCard;

    open spec fn view(&self) -> ParsedCard {
        match self {
            CardType::Creature(c) => ParsedCard::Creature(c.name@, c.power, c.toughness),
            CardType::Instant(i) => ParsedCard::Instant(i.name@),
            CardType::Enchantment(e) => ParsedCard::Enchantment(e.name@),
        }
    }
}

/// The card that a text names: the first known name, in a fixed order, that occurs in it.
pub open spec fn card_in_text(t: Seq<char>) -> Option<ParsedCard> {
    if contains_text(t, "Cacophony Scamp"@) {
        Some(ParsedCard::Creature("Cacophony Scamp"@, 1, 1))
    } else if contains_text(t, "Heartfire Hero"@) {
        Some(ParsedCard::Creature("Heartfire Hero"@, 1, 1))
    } else if contains_text(t, "Monastery Swiftspear"@) {
        Some(ParsedCard::Creature("Monastery Swiftspear"@, 1, 2))
    } else if contains_text(t, "Electrostatic Infantry"@) {
        Some(ParsedCard::Creature("Electrostatic Infantry"@, 1, 2))
    } else if contains_text(t, "Burst Lightning"@) {
        Some(ParsedCard::Instant("Burst Lightning"@))
    } else if contains_text(t, "Lightning Strike"@) {
        Some(ParsedCard::Instant("Lightning Strike"@))
    } else if contains_text(t, "Blazing Crescendo"@) {
        Some(ParsedCard::Instant("Blazing Crescendo"@))
    } else if contains_text(t, "Monstrous Rage"@) {
        Some(ParsedCard::Instant("Monstrous Rage"@))
    } else if contains_text(t, "Felonious Rage"@) {
        Some(ParsedCard::Instant("Felonious Rage"@))
    } else if contains_text(t, "Demonic Ruckus"@) {
        Some(ParsedCard::Enchantment("Demonic Ruckus"@))
    } else {
        None
    }
}

/// A recognised creature with summoning sickness.
fn creature_named(name: &str, power: i32, toughness: i32) -> (r: CardType)
    ensures
        r@ == ParsedCard::Creature(name@, power, toughness),
        r matches CardType::Creature(c) && c.summoning_sickness,
{
    CardType::Creature(Creature { name: name.to_owned(), summoning_sickness: true, power, toughness })
}

/// A recognised instant.
fn instant_named(name: &str) -> (r: CardType)
    ensures
        r@ == ParsedCard::Instant(name@),
{
    CardType::Instant(Instant_ { name: name.to_owned() })
}

/// The card that a text names (see `card_in_text`); recognised creatures have summoning
/// sickness.
pub fn parse_card(card_text: &str) -> (r: Option<CardType>)
    ensures
        match r {
            Some(c) => card_in_text(card_text@) == Some(c@) && (c matches CardType::Creature(cr) ==> cr.summoning_sickness),
            None => card_in_text(card_text@) is None,
        },
{
    if str_contains(card_text, "Cacophony Scamp") {
        Some(creature_named("Cacophony Scamp", 1, 1))
    } else if str_contains(card_text, "Heartfire Hero") {
        Some(creature_named("Heartfire Hero", 1, 1))
    } else if str_contains(card_text, "Monastery Swiftspear") {
        Some(creature_named("Monastery Swiftspear", 1, 2))
    } else if str_contains(card_text, "Electrostatic Infantry") {
        Some(creature_named("Electrostatic Infantry", 1, 2))
    } else if str_contains(card_text, "Burst Lightning") {
        Some(instant_named("Burst Lightning"))
    } else if str_contains(card_text, "Lightning Strike") {
        Some(instant_named("Lightning Strike"))
    } else if str_contains(card_text, "Blazing Crescendo") {
        Some(instant_named("Blazing Crescendo"))
    } else if str_contains(card_text, "Monstrous Rage") {
        Some(instant_named("Monstrous Rage"))
    } else if str_contains(card_text, "Felonious Rage") {
        Some(instant_named("Felonious Rage"))
    } else if str_contains(card_text, "Demonic Ruckus") {
        Some(CardType::Enchantment(Enchantment { name: "Demonic Ruckus".to_owned() }))
    } else {
        None
    }
}

} // verus!
