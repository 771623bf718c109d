use vstd::prelude::*;

use crate::app::card_attribute::{
    attribute_after, attribute_answer, clone_creature_types, effects_view, lemma_effects_view_push, AddCounterAttribute,
    Amount, AnyAttribute, AttributeV, BuffAttribute, CardAttribute, ChooseOnConditionAttribute, Condition,
    ConditionalAttribute, CounterType, CreatureType, Duration, Effect, EffectV, ExileAndPlayAttribute,
    FirstTimePerTurnAttribute, GrantAbilityAttribute, KeywordAbility, PlayerSelector, ProliferateAttribute,
    ProwessAttribute, SpellFilter, TargetFilter, Trigger, TriggeredEffectAttribute,
};
use crate::app::game_state::GamePhase;
use crate::app::gre::gre_structs::{ActivatedAbility, ActivatedAbilityV};
use crate::app::gre::Gre;
use crate::app::text::str_eq;

verus! {

/// A creature's printed and temporary statistics.
#[derive(Debug, PartialEq)]
pub struct Creature {
    pub power: i32,
    pub toughness: i32,
    pub summoning_sickness: bool,
    pub abilities: Vec<KeywordAbility>,
    pub types: Vec<CreatureType>,
    pub ephemeral_power: i32,
    pub ephemeral_toughness: i32,
}

/// The value of a creature.
pub struct CreatureV {
    pub power: i32,
    pub toughness: i32,
    pub summoning_sickness: bool,
    pub abilities: Seq<KeywordAbility>,
    pub types: Seq<CreatureType>,
    pub ephemeral_power: i32,
    pub ephemeral_toughness: i32,
}

impl View for Creature {
    type V = CreatureV;

    open spec fn view(&self) -> CreatureV {
        CreatureV {
            power: self.power,
            toughness: self.toughness,
            summoning_sickness: self.summoning_sickness,
            abilities: self.abilities@,
            types: self.types@,
            ephemeral_power: self.ephemeral_power,
            ephemeral_toughness: self.ephemeral_toughness,
        }
    }
}

/// Copies a list of keyword abilities.
pub fn clone_abilities(v: &Vec<KeywordAbility>) -> (r: Vec<KeywordAbility>)
    ensures
        r@ == v@,
{
    let mut r: Vec<KeywordAbility> = Vec::new();
    let mut i: usize = 0;
    while i < v.len()
        invariant
            i <= v.len(),
            r@ == v@.take(i as int),
        decreases v.len() - i,
    {
        r.push(v[i]);
        i += 1;
        assert(r@ =~= v@.take(i as int));
    }
    assert(v@.take(v.len() as int) =~= v@);
    r
}

impl Clone for Creature {
    fn clone(&self) -> (r: Self)
        ensures
            r@ == self@,
    {
        Creature {
            power: self.power,
            toughness: self.toughness,
            summoning_sickness: self.summoning_sickness,
            abilities: clone_abilities(&self.abilities),
            types: clone_creature_types(&self.types),
            ephemeral_power: self.ephemeral_power,
            ephemeral_toughness: self.ephemeral_toughness,
        }
    }
}

/// The kind of a card.
#[derive(Debug, PartialEq)]
pub enum CardType {
    Creature(Creature),
    Instant,
    Land,
    Enchantment,
    Token,
    Artifact,
    Planeswalker,
}

/// The value of a card kind.
pub enum CardTypeV {
    Creature(CreatureV),
    Instant,
    Land,
    Enchantment,
    Token,
    Artifact,
    Planeswalker,
}

impl View for CardType {
    type V = CardTypeV;

    open spec fn view(&self) -> CardTypeV {
        match self {
            CardType::Creature(c) => CardTypeV::Creature(c@),
            CardType::Instant => CardTypeV::Instant,
            CardType::Land => CardTypeV::Land,
            CardType::Enchantment => CardTypeV::Enchantment,
            CardType::Token => CardTypeV::Token,
            CardType::Artifact => CardTypeV::Artifact,
            CardType::Planeswalker => CardTypeV::Planeswalker,
        }
    }
}

impl Clone for CardType {
    fn clone(&self) -> (r: Self)
        ensures
            r@ == self@,
    {
        match self {
            CardType::Creature(c) => CardType::Creature(c.clone()),
            CardType::Instant => CardType::Instant,
            CardType::Land => CardType::Land,
            CardType::Enchantment => CardType::Enchantment,
            CardType::Token => CardType::Token,
            CardType::Artifact => CardType::Artifact,
            CardType::Planeswalker => CardType::Planeswalker,
        }
    }
}

/// A mana cost by colour.
#[derive(Debug, Clone, Copy, PartialEq, Eq, Hash, Structural)]
pub struct ManaCost {
    pub colorless: u32,
    pub red: u32,
    pub green: u32,
    pub blue: u32,
    pub white: u32,
    pub black: u32,
}

impl ManaCost {
    /// The coloured part of the cost.
    pub open spec fn spec_colored(self) -> int {
        self.red + self.green + self.blue + self.white + self.black
    }

    /// The whole cost.
    pub open spec fn spec_total(self) -> int {
        self.colorless + self.spec_colored()
    }

    /// Whether the whole cost is a `u32`.
    pub open spec fn fits(self) -> bool {
        self.spec_total() <= u32::MAX
    }

    pub fn new(colorless: u32, red: u32, green: u32, blue: u32, white: u32, black: u32) -> (r: Self)
        ensures
            r == (ManaCost { colorless, red, green, blue, white, black }),
    {
        ManaCost { colorless, red, green, blue, white, black }
    }

    pub fn free() -> (r: Self)
        ensures
            r == (ManaCost { colorless: 0, red: 0, green: 0, blue: 0, white: 0, black: 0 }),
            r.spec_total() == 0,
    {
        ManaCost::new(0, 0, 0, 0, 0, 0)
    }

    pub fn total(&self) -> (r: u32)
        requires
            self.fits(),
        ensures
            r == self.spec_total(),
    {
        self.colorless + self.red + self.green + self.blue + self.white + self.black
    }

    pub fn colored(&self) -> (r: u32)
        requires
            self.spec_colored() <= u32::MAX,
        ensures
            r == self.spec_colored(),
    {
        self.red + self.green + self.blue + self.white + self.black
    }
}

/// The type line of a card as a set of bits.
#[derive(Debug, Clone, Copy, PartialEq, Eq, Hash, Default, Structural)]
pub struct CardTypeFlags {
    pub bits: u32,
}

pub const FLAG_LAND: u32 = 1;
pub const FLAG_CREATURE: u32 = 2;
pub const FLAG_INSTANT: u32 = 4;
pub const FLAG_SORCERY: u32 = 8;
pub const FLAG_ENCHANTMENT: u32 = 16;
pub const FLAG_ARTIFACT: u32 = 32;
pub const FLAG_PLANESWALKER: u32 = 64;
pub const FLAG_BATTLE: u32 = 128;
pub const FLAG_TOKEN: u32 = 256;

impl CardTypeFlags {
    /// Whether every bit of `other` is set in `self`.
    pub open spec fn has(self, other: CardTypeFlags) -> bool {
        self.bits & other.bits == other.bits
    }

    pub fn from_bits_retain(bits: u32) -> (r: Self)
        ensures
            r.bits == bits,
    {
        CardTypeFlags { bits }
    }

    pub fn empty() -> (r: Self)
        ensures
            r.bits == 0,
    {
        CardTypeFlags { bits: 0 }
    }

    pub fn land() -> (r: Self)
        ensures
            r.bits == FLAG_LAND,
    {
        CardTypeFlags { bits: FLAG_LAND }
    }

    pub fn creature() -> (r: Self)
        ensures
            r.bits == FLAG_CREATURE,
    {
        CardTypeFlags { bits: FLAG_CREATURE }
    }

    pub fn instant() -> (r: Self)
        ensures
            r.bits == FLAG_INSTANT,
    {
        CardTypeFlags { bits: FLAG_INSTANT }
    }

    pub fn enchantment() -> (r: Self)
        ensures
            r.bits == FLAG_ENCHANTMENT,
    {
        CardTypeFlags { bits: FLAG_ENCHANTMENT }
    }

    pub fn artifact() -> (r: Self)
        ensures
            r.bits == FLAG_ARTIFACT,
    {
        CardTypeFlags { bits: FLAG_ARTIFACT }
    }

    pub fn planeswalker() -> (r: Self)
        ensures
            r.bits == FLAG_PLANESWALKER,
    {
        CardTypeFlags { bits: FLAG_PLANESWALKER }
    }

    pub fn token() -> (r: Self)
        ensures
            r.bits == FLAG_TOKEN,
    {
        CardTypeFlags { bits: FLAG_TOKEN }
    }

    pub fn bits(&self) -> (r: u32)
        ensures
            r == self.bits,
    {
        self.bits
    }

    pub fn contains(&self, other: CardTypeFlags) -> (r: bool)
        ensures
            r == self.has(other),
    {
        self.bits & other.bits == other.bits
    }

    pub fn union(&self, other: CardTypeFlags) -> (r: CardTypeFlags)
        ensures
            r.bits == self.bits | other.bits,
    {
        CardTypeFlags { bits: self.bits | other.bits }
    }

    pub fn insert(&mut self, other: CardTypeFlags)
        ensures
            final(self).bits == old(self).bits | other.bits,
    {
        self.bits = self.bits | other.bits;
    }
}

/// Adding flags to a set of flags (`insert`) keeps the flags it had and holds the added ones.
pub proof fn lemma_insert_has(f: CardTypeFlags, other: CardTypeFlags)
    ensures
        (CardTypeFlags { bits: f.bits | other.bits }).has(other),
        (CardTypeFlags { bits: f.bits | other.bits }).has(f),
{
    let (a, b) = (f.bits, other.bits);
    assert((a | b) & b == b) by (bit_vector);
    assert((a | b) & a == a) by (bit_vector);
}

/// The type bit that a card kind sets.
pub open spec fn type_flag_of(t: CardTypeV) -> u32 {
    match t {
        CardTypeV::Creature(_) => FLAG_CREATURE,
        CardTypeV::Instant => FLAG_INSTANT,
        CardTypeV::Enchantment => FLAG_ENCHANTMENT,
        CardTypeV::Land => FLAG_LAND,
        CardTypeV::Token => FLAG_TOKEN,
        CardTypeV::Artifact => FLAG_ARTIFACT,
        CardTypeV::Planeswalker => FLAG_PLANESWALKER,
    }
}

/// A card with its attributes, triggers and abilities.
#[derive(Debug, PartialEq)]
pub struct Card {
    pub card_id: u64,
    pub name: String,
    pub card_type: CardType,
    pub type_flags: CardTypeFlags,
    pub mana_cost: ManaCost,
    pub attributes: Vec<AnyAttribute>,
    pub triggers: Vec<Trigger>,
    pub activated_abilities: Vec<ActivatedAbility>,
    pub attached_to: Option<u64>,
}

/// The value of a card.
pub struct CardV {
    pub card_id: u64,
    pub name: Seq<char>,
    pub card_type: CardTypeV,
    pub type_flags: CardTypeFlags,
    pub mana_cost: ManaCost,
    pub attributes: Seq<AttributeV>,
    pub triggers: Seq<Trigger>,
    pub activated_abilities: Seq<ActivatedAbilityV>,
    pub attached_to: Option<u64>,
}

/// The values of a sequence of attributes.
pub open spec fn attributes_view(s: Seq<AnyAttribute>) -> Seq<AttributeV> {
    s.map_values(|a: AnyAttribute| a@)
}

/// The values of a sequence of activated abilities.
pub open spec fn abilities_view(s: Seq<ActivatedAbility>) -> Seq<ActivatedAbilityV> {
    s.map_values(|a: ActivatedAbility| a@)
}

impl View for Card {
    type V = CardV;

    open spec fn view(&self) -> CardV {
        CardV {
            card_id: self.card_id,
            name: self.name@,
            card_type: self.card_type@,
            type_flags: self.type_flags,
            mana_cost: self.mana_cost,
            attributes: attributes_view(self.attributes@),
            triggers: self.triggers@,
            activated_abilities: abilities_view(self.activated_abilities@),
            attached_to: self.attached_to,
        }
    }
}

/// Copies a list of attributes.
pub fn clone_attributes(v: &Vec<AnyAttribute>) -> (r: Vec<AnyAttribute>)
    ensures
        attributes_view(r@) == attributes_view(v@),
{
    let mut r: Vec<AnyAttribute> = Vec::new();
    let mut i: usize = 0;
    while i < v.len()
        invariant
            i <= v.len(),
            r@.len() == i,
            forall|j: int| 0 <= j < i ==> #[trigger] r@[j]@ == v@[j]@,
        decreases v.len() - i,
    {
        r.push(v[i].clone());
        i += 1;
    }
    assert(attributes_view(r@) =~= attributes_view(v@));
    r
}

/// Copies a list of triggers.
pub fn clone_triggers(v: &Vec<Trigger>) -> (r: Vec<Trigger>)
    ensures
        r@ == v@,
{
    let mut r: Vec<Trigger> = Vec::new();
    let mut i: usize = 0;
    while i < v.len()
        invariant
            i <= v.len(),
            r@ == v@.take(i as int),
        decreases v.len() - i,
    {
        r.push(v[i]);
        i += 1;
        assert(r@ =~= v@.take(i as int));
    }
    assert(v@.take(v.len() as int) =~= v@);
    r
}

/// Copies a list of activated abilities.
pub fn clone_activated(v: &Vec<ActivatedAbility>) -> (r: Vec<ActivatedAbility>)
    ensures
        abilities_view(r@) == abilities_view(v@),
{
    let mut r: Vec<ActivatedAbility> = Vec::new();
    let mut i: usize = 0;
    while i < v.len()
        invariant
            i <= v.len(),
            r@.len() == i,
            forall|j: int| 0 <= j < i ==> #[trigger] r@[j]@ == v@[j]@,
        decreases v.len() - i,
    {
        r.push(v[i].clone());
        i += 1;
    }
    assert(abilities_view(r@) =~= abilities_view(v@));
    r
}

impl Clone for Card {
    fn clone(&self) -> (r: Self)
        ensures
            r@ == self@,
    {
        Card {
            card_id: self.card_id,
            name: self.name.clone(),
            card_type: self.card_type.clone(),
            type_flags: self.type_flags,
            mana_cost: self.mana_cost,
            attributes: clone_attributes(&self.attributes),
            triggers: clone_triggers(&self.triggers),
            activated_abilities: clone_activated(&self.activated_abilities),
            attached_to: self.attached_to,
        }
    }
}

/// The effects a card's attributes answer to a trigger, looking at the first `n` trigger/attribute pairs.
pub open spec fn trigger_answers(triggers: Seq<Trigger>, attrs: Seq<AttributeV>, t: Trigger, n: nat) -> Seq<EffectV>
    decreases n,
{
    if n == 0 {
        Seq::empty()
    } else {
        let prev = trigger_answers(triggers, attrs, t, (n - 1) as nat);
        let i = n - 1;
        if triggers[i] == t && attribute_answer(attrs[i], t) is Some {
            prev.push(attribute_answer(attrs[i], t)->Some_0)
        } else {
            prev
        }
    }
}

/// The number of trigger/attribute pairs of a card.
pub open spec fn pair_count(c: CardV) -> nat {
    if c.triggers.len() <= c.attributes.len() { c.triggers.len() } else { c.attributes.len() }
}

/// What a card answers to a trigger: the answers of every attribute whose trigger is `t`.
pub open spec fn card_answers(c: CardV, t: Trigger) -> Seq<EffectV> {
    trigger_answers(c.triggers, c.attributes, t, pair_count(c))
}

/// The attributes of a card after it has answered a trigger.
pub open spec fn attributes_after(c: CardV, t: Trigger) -> Seq<AttributeV> {
    Seq::new(
        c.attributes.len(),
        |i: int|
            if i < c.triggers.len() && c.triggers[i] == t {
                attribute_after(c.attributes[i], t)
            } else {
                c.attributes[i]
            },
    )
}

/// A card after it has answered a trigger.
pub open spec fn card_after(c: CardV, t: Trigger) -> CardV {
    CardV { attributes: attributes_after(c, t), ..c }
}

/// Whether two cards are the same card in the sense of the game (name, kind, type line,
/// cost and triggers; attributes and abilities are not compared).
pub open spec fn same_card(a: CardV, b: CardV) -> bool {
    &&& a.name == b.name
    &&& a.card_type == b.card_type
    &&& a.type_flags == b.type_flags
    &&& a.mana_cost == b.mana_cost
    &&& a.triggers == b.triggers
}

/// Whether two lists of keyword abilities are equal.
fn abilities_eq(a: &Vec<KeywordAbility>, b: &Vec<KeywordAbility>) -> (r: bool)
    ensures
        r == (a@ == b@),
{
    if a.len() != b.len() {
        return false;
    }
    let mut i: usize = 0;
    while i < a.len()
        invariant
            a@.len() == b@.len(),
            i <= a@.len(),
            forall|j: int| 0 <= j < i ==> a@[j] == b@[j],
        decreases a.len() - i,
    {
        if a[i] != b[i] {
            return false;
        }
        i += 1;
    }
    assert(a@ =~= b@);
    true
}

/// Whether two lists of creature types are equal.
fn types_eq(a: &Vec<CreatureType>, b: &Vec<CreatureType>) -> (r: bool)
    ensures
        r == (a@ == b@),
{
    if a.len() != b.len() {
        return false;
    }
    let mut i: usize = 0;
    while i < a.len()
        invariant
            a@.len() == b@.len(),
            i <= a@.len(),
            forall|j: int| 0 <= j < i ==> a@[j] == b@[j],
        decreases a.len() - i,
    {
        if a[i] != b[i] {
            return false;
        }
        i += 1;
    }
    assert(a@ =~= b@);
    true
}

/// Whether two lists of triggers are equal.
fn triggers_eq(a: &Vec<Trigger>, b: &Vec<Trigger>) -> (r: bool)
    ensures
        r == (a@ == b@),
{
    if a.len() != b.len() {
        return false;
    }
    let mut i: usize = 0;
    while i < a.len()
        invariant
            a@.len() == b@.len(),
            i <= a@.len(),
            forall|j: int| 0 <= j < i ==> a@[j] == b@[j],
        decreases a.len() - i,
    {
        if a[i] != b[i] {
            return false;
        }
        i += 1;
    }
    assert(a@ =~= b@);
    true
}

/// Whether two card kinds are equal.
fn card_type_eq(a: &CardType, b: &CardType) -> (r: bool)
    ensures
        r == (a@ == b@),
{
    match (a, b) {
        (CardType::Creature(x), CardType::Creature(y)) => {
            x.power == y.power && x.toughness == y.toughness && x.summoning_sickness == y.summoning_sickness
                && abilities_eq(&x.abilities, &y.abilities) && types_eq(&x.types, &y.types)
                && x.ephemeral_power == y.ephemeral_power && x.ephemeral_toughness == y.ephemeral_toughness
        },
        (CardType::Instant, CardType::Instant) => true,
        (CardType::Land, CardType::Land) => true,
        (CardType::Enchantment, CardType::Enchantment) => true,
        (CardType::Token, CardType::Token) => true,
        (CardType::Artifact, CardType::Artifact) => true,
        (CardType::Planeswalker, CardType::Planeswalker) => true,
        _ => false,
    }
}

impl Card {
    /// A new card; its type line has the bit of its kind and nothing else.
    pub fn new(name: &str, card_type: CardType, mana_cost: ManaCost) -> (r: Self)
        ensures
            r@.card_id == 0,
            r@.name == name@,
            r@.card_type == card_type@,
            r@.type_flags.bits == type_flag_of(card_type@),
            r@.mana_cost == mana_cost,
            r@.attributes == Seq::<AttributeV>::empty(),
            r@.triggers == Seq::<Trigger>::empty(),
            r@.activated_abilities == Seq::<ActivatedAbilityV>::empty(),
            r@.attached_to is None,
    {
        let mut flags = CardTypeFlags::empty();
        match &card_type {
            CardType::Creature(_) => { flags.insert(CardTypeFlags::creature()); },
            CardType::Instant => { flags.insert(CardTypeFlags::instant()); },
            CardType::Enchantment => { flags.insert(CardTypeFlags::enchantment()); },
            CardType::Land => { flags.insert(CardTypeFlags::land()); },
            CardType::Token => { flags.insert(CardTypeFlags::token()); },
            CardType::Artifact => { flags.insert(CardTypeFlags::artifact()); },
            CardType::Planeswalker => { flags.insert(CardTypeFlags::planeswalker()); },
        }
        proof {
            assert(0u32 | 1u32 == 1u32) by (bit_vector);
            assert(0u32 | 2u32 == 2u32) by (bit_vector);
            assert(0u32 | 4u32 == 4u32) by (bit_vector);
            assert(0u32 | 16u32 == 16u32) by (bit_vector);
            assert(0u32 | 32u32 == 32u32) by (bit_vector);
            assert(0u32 | 64u32 == 64u32) by (bit_vector);
            assert(0u32 | 256u32 == 256u32) by (bit_vector);
        }
        let r = Card {
            card_id: 0,
            name: name.to_owned(),
            card_type,
            type_flags: flags,
            mana_cost,
            attributes: Vec::new(),
            triggers: Vec::new(),
            activated_abilities: Vec::new(),
            attached_to: None,
        };
        proof {
            assert(r@.attributes =~= Seq::<AttributeV>::empty());
            assert(r@.activated_abilities =~= Seq::<ActivatedAbilityV>::empty());
        }
        r
    }

    /// Adds a trigger together with the attribute that answers it.
    pub fn with(self, trigger: Trigger, attr: AnyAttribute) -> (r: Self)
        ensures
            r@ == (CardV {
                triggers: self@.triggers.push(trigger),
                attributes: self@.attributes.push(attr@),
                ..self@
            }),
    {
        let mut c = self;
        let ghost a = attr@;
        c.triggers.push(trigger);
        c.attributes.push(attr);
        proof {
            assert(attributes_view(c.attributes@) =~= self@.attributes.push(a));
        }
        c
    }

    /// Adds an activated ability.
    pub fn with_activated(self, ability: ActivatedAbility) -> (r: Self)
        ensures
            r@ == (CardV { activated_abilities: self@.activated_abilities.push(ability@), ..self@ }),
    {
        let mut c = self;
        let ghost a = ability@;
        c.activated_abilities.push(ability);
        proof {
            assert(abilities_view(c.activated_abilities@) =~= self@.activated_abilities.push(a));
        }
        c
    }

    /// Adds bits to the type line.
    pub fn with_added_type(self, flag: CardTypeFlags) -> (r: Self)
        ensures
            r@ == (CardV { type_flags: CardTypeFlags { bits: self@.type_flags.bits | flag.bits }, ..self@ }),
    {
        let mut c = self;
        c.type_flags.insert(flag);
        c
    }

    /// Sets the printed power of a creature; other cards are unchanged.
    pub fn with_power(self, new_power: i32) -> (r: Self)
        ensures
            r@ == (match self@.card_type {
                CardTypeV::Creature(cr) => CardV {
                    card_type: CardTypeV::Creature(CreatureV { power: new_power, ..cr }),
                    ..self@
                },
                _ => self@,
            }),
    {
        let mut c = self;
        if let CardType::Creature(ref mut cr) = c.card_type {
            cr.power = new_power;
        }
        c
    }

    /// Sets the printed toughness of a creature; other cards are unchanged.
    pub fn with_toughness(self, new_toughness: i32) -> (r: Self)
        ensures
            r@ == (match self@.card_type {
                CardTypeV::Creature(cr) => CardV {
                    card_type: CardTypeV::Creature(CreatureV { toughness: new_toughness, ..cr }),
                    ..self@
                },
                _ => self@,
            }),
    {
        let mut c = self;
        if let CardType::Creature(ref mut cr) = c.card_type {
            cr.toughness = new_toughness;
        }
        c
    }

    /// Runs the card's attributes against `trigger`: every attribute whose own trigger is
    /// `trigger` answers, and the answers are returned in the card's order.
    pub fn trigger_by(&mut self, trigger: &Trigger) -> (r: Vec<Effect>)
        ensures
            effects_view(r@) == card_answers(old(self)@, *trigger),
            final(self)@ == card_after(old(self)@, *trigger),
    {
        let ghost c0 = self@;
        let n = if self.triggers.len() <= self.attributes.len() { self.triggers.len() } else { self.attributes.len() };
        let mut out: Vec<Effect> = Vec::new();
        let mut i: usize = 0;
        while i < n
            invariant
                n == pair_count(c0),
                i <= n,
                self.triggers@ == c0.triggers,
                self.attributes@.len() == c0.attributes.len(),
                self.card_id == c0.card_id,
                self.name@ == c0.name,
                self.card_type@ == c0.card_type,
                self.type_flags == c0.type_flags,
                self.mana_cost == c0.mana_cost,
                abilities_view(self.activated_abilities@) == c0.activated_abilities,
                self.attached_to == c0.attached_to,
                forall|j: int| 0 <= j < i ==> #[trigger] self.attributes@[j]@ == attributes_after(c0, *trigger)[j],
                forall|j: int| i <= j < c0.attributes.len() ==> #[trigger] self.attributes@[j]@ == c0.attributes[j],
                effects_view(out@) == trigger_answers(c0.triggers, c0.attributes, *trigger, i as nat),
            decreases n - i,
        {
            if self.triggers[i] == *trigger {
                let ghost before = self.attributes@;
                let res = self.attributes[i].on_trigger(trigger);
                proof {
                    assert(self.attributes@ == before.update(i as int, self.attributes@[i as int]));
                }
                match res {
                    Some(e) => {
                        proof {
                            lemma_effects_view_push(out@, e);
                        }
                        out.push(e);
                    },
                    None => {},
                }
            }
            i += 1;
        }
        proof {
            assert forall|j: int| 0 <= j < c0.attributes.len() implies #[trigger] self.attributes@[j]@
                == attributes_after(c0, *trigger)[j] by {
                if j >= n {
                    assert(j >= c0.triggers.len());
                }
            }
            assert(attributes_view(self.attributes@) =~= attributes_after(c0, *trigger));
        }
        out
    }

    /// Whether two cards are the same card in the sense of the game.
    pub fn same_as(&self, other: &Card) -> (r: bool)
        ensures
            r == same_card(self@, other@),
    {
        str_eq(self.name.as_str(), other.name.as_str()) && card_type_eq(&self.card_type, &other.card_type)
            && self.type_flags == other.type_flags && self.mana_cost == other.mana_cost
            && triggers_eq(&self.triggers, &other.triggers)
    }

    /// A copy of `original`, with a creature's printed power and toughness replaced where given,
    /// and with `added_flags` added to the type line.
    pub fn clone_card(
        original: &Card,
        new_power: Option<i32>,
        new_toughness: Option<i32>,
        added_flags: Option<CardTypeFlags>,
    ) -> (r: Card)
        ensures
            r@ == cloned_card(original@, new_power, new_toughness, added_flags),
    {
        let mut cloned = original.clone();
        if let CardType::Creature(ref mut cr) = cloned.card_type {
            if let Some(p) = new_power {
                cr.power = p;
            }
            if let Some(t) = new_toughness {
                cr.toughness = t;
            }
        }
        if let Some(flags) = added_flags {
            cloned.type_flags.insert(flags);
        }
        cloned
    }
}

/// A copy of a card with new printed statistics and added type bits.
pub open spec fn cloned_card(
    c: CardV,
    new_power: Option<i32>,
    new_toughness: Option<i32>,
    added_flags: Option<CardTypeFlags>,
) -> CardV {
    let card_type = match c.card_type {
        CardTypeV::Creature(cr) => CardTypeV::Creature(
            CreatureV {
                power: match new_power {
                    Some(p) => p,
                    None => cr.power,
                },
                toughness: match new_toughness {
                    Some(t) => t,
                    None => cr.toughness,
                },
                ..cr
            },
        ),
        other => other,
    };
    let type_flags = match added_flags {
        Some(f) => CardTypeFlags { bits: c.type_flags.bits | f.bits },
        None => c.type_flags,
    };
    CardV { card_type, type_flags, ..c }
}


/// Addition that wraps around on `i32`.
pub open spec fn wrap_add(x: i32, y: i32) -> i32 {
    vstd::wrapping::i32_specs::wrapping_add(x, y)
}

/// The +1/+1 counters that the first `n` attributes put on a card.
pub open spec fn plus_counters_upto(attrs: Seq<AttributeV>, n: nat) -> i32
    decreases n,
{
    if n == 0 {
        0
    } else {
        let prev = plus_counters_upto(attrs, (n - 1) as nat);
        match attrs[n - 1] {
            AttributeV::AddCounter(a) => if a.counter == CounterType::PlusOnePlusOne {
                wrap_add(prev, a.amount as i32)
            } else {
                prev
            },
            _ => prev,
        }
    }
}

/// The +1/+1 counters that a card's attributes put on it.
pub open spec fn plus_counters(c: CardV) -> i32 {
    plus_counters_upto(c.attributes, c.attributes.len())
}

/// Whether a card is a "Monster" aura token, which gives the creature it is attached to +1/+1.
pub open spec fn is_monster_aura(c: CardV) -> bool {
    &&& c.name == "Monster"@
    &&& c.type_flags.has(CardTypeFlags { bits: FLAG_ENCHANTMENT })
    &&& c.type_flags.has(CardTypeFlags { bits: FLAG_TOKEN })
}

/// The number of "Monster" aura tokens among the first `n` tracked permanents that are attached
/// to the card with identifier `id`.
pub open spec fn monster_auras_upto(s: Seq<(u64, CardV)>, id: u64, n: nat) -> i32
    decreases n,
{
    if n == 0 {
        0
    } else {
        let prev = monster_auras_upto(s, id, (n - 1) as nat);
        if is_monster_aura(s[n - 1].1) && s[n - 1].1.attached_to == Some(id) {
            wrap_add(prev, 1)
        } else {
            prev
        }
    }
}

/// The bonus that "Monster" aura tokens attached to a card give it.
pub open spec fn aura_bonus(s: Seq<(u64, CardV)>, id: u64) -> i32 {
    monster_auras_upto(s, id, s.len())
}

/// A creature's current power: printed, temporary, counters and auras (zero for other cards).
pub open spec fn current_power(c: CardV, s: Seq<(u64, CardV)>) -> i32 {
    match c.card_type {
        CardTypeV::Creature(cr) => wrap_add(
            wrap_add(wrap_add(cr.power, cr.ephemeral_power), plus_counters(c)),
            aura_bonus(s, c.card_id),
        ),
        _ => 0,
    }
}

/// A creature's current toughness: printed, temporary, counters and auras (zero for other cards).
pub open spec fn current_toughness(c: CardV, s: Seq<(u64, CardV)>) -> i32 {
    match c.card_type {
        CardTypeV::Creature(cr) => wrap_add(
            wrap_add(wrap_add(cr.toughness, cr.ephemeral_toughness), plus_counters(c)),
            aura_bonus(s, c.card_id),
        ),
        _ => 0,
    }
}

impl Card {
    /// The +1/+1 counters that the card's attributes put on it.
    pub fn find_plus_one_counters(&self) -> (r: i32)
        ensures
            r == plus_counters(self@),
    {
        let mut total: i32 = 0;
        let mut i: usize = 0;
        while i < self.attributes.len()
            invariant
                i <= self.attributes@.len(),
                total == plus_counters_upto(self@.attributes, i as nat),
            decreases self.attributes.len() - i,
        {
            if let AnyAttribute::AddCounter(a) = &self.attributes[i] {
                if a.counter == CounterType::PlusOnePlusOne {
                    total = total.wrapping_add(a.amount as i32);
                }
            }
            i += 1;
        }
        total
    }

    /// The bonus this card gives the creature it is attached to: +1/+1 for a "Monster" aura
    /// token, none otherwise.
    pub fn get_buff_amount(&self) -> (r: Option<(i32, i32)>)
        ensures
            r == (if is_monster_aura(self@) { Some((1i32, 1i32)) } else { None }),
    {
        if str_eq(self.name.as_str(), "Monster") && self.type_flags.contains(CardTypeFlags::enchantment())
            && self.type_flags.contains(CardTypeFlags::token()) {
            Some((1, 1))
        } else {
            None
        }
    }

    /// The bonus of the "Monster" aura tokens attached to this card (see `aura_bonus`).
    fn sum_aura_bonuses(&self, gre: &Gre) -> (r: i32)
        ensures
            r == aura_bonus(gre@.battlefield, self.card_id),
    {
        let ghost s = gre@.battlefield;
        let n = gre.battlefield_creatures.len();
        let mut sum: i32 = 0;
        let mut i: usize = 0;
        while i < n
            invariant
                n == s.len(),
                s == gre@.battlefield,
                i <= n,
                sum == monster_auras_upto(s, self.card_id, i as nat),
            decreases n - i,
        {
            let aura = gre.battlefield_creatures.card_at(i);
            if aura.type_flags.contains(CardTypeFlags::enchantment()) && aura.type_flags.contains(CardTypeFlags::token())
                && aura.attached_to == Some(self.card_id) && str_eq(aura.name.as_str(), "Monster") {
                sum = sum.wrapping_add(1);
            }
            i += 1;
        }
        sum
    }

    /// The power bonus of the "Monster" aura tokens attached to this card.
    fn sum_aura_power_bonuses(&self, gre: &Gre) -> (r: i32)
        ensures
            r == aura_bonus(gre@.battlefield, self.card_id),
    {
        self.sum_aura_bonuses(gre)
    }

    /// The toughness bonus of the "Monster" aura tokens attached to this card.
    fn sum_aura_toughness_bonuses(&self, gre: &Gre) -> (r: i32)
        ensures
            r == aura_bonus(gre@.battlefield, self.card_id),
    {
        self.sum_aura_bonuses(gre)
    }

    /// A creature's current power (see `current_power`); zero for other cards.
    pub fn get_current_power(&self, gre: &Gre) -> (r: i32)
        ensures
            r == current_power(self@, gre@.battlefield),
    {
        match &self.card_type {
            CardType::Creature(cr) => {
                let base = cr.power.wrapping_add(cr.ephemeral_power);
                let with_counters = base.wrapping_add(self.find_plus_one_counters());
                with_counters.wrapping_add(self.sum_aura_power_bonuses(gre))
            },
            _ => 0,
        }
    }

    /// A creature's current toughness (see `current_toughness`); zero for other cards.
    pub fn get_current_toughness(&self, gre: &Gre) -> (r: i32)
        ensures
            r == current_toughness(self@, gre@.battlefield),
    {
        match &self.card_type {
            CardType::Creature(cr) => {
                let base = cr.toughness.wrapping_add(cr.ephemeral_toughness);
                let with_counters = base.wrapping_add(self.find_plus_one_counters());
                with_counters.wrapping_add(self.sum_aura_toughness_bonuses(gre))
            },
            _ => 0,
        }
    }

    /// A creature's current power and toughness; (0, 0) for other cards.
    pub fn current_power_toughness(&self, gre: &Gre) -> (r: (i32, i32))
        ensures
            r == (current_power(self@, gre@.battlefield), current_toughness(self@, gre@.battlefield)),
    {
        (self.get_current_power(gre), self.get_current_toughness(gre))
    }
}

/// Cards by name; no name occurs twice, and the entries keep the order in which they came.
#[derive(Debug)]
pub struct CardLibrary {
    entries: Vec<(String, Card)>,
}

/// Whether no name occurs twice.
pub open spec fn distinct_names(s: Seq<(Seq<char>, CardV)>) -> bool {
    forall|i: int, j: int| 0 <= i < s.len() && 0 <= j < s.len() && i != j ==> (#[trigger] s[i]).0 != (#[trigger] s[j]).0
}

/// Whether some entry has the name `k`.
pub open spec fn has_name(s: Seq<(Seq<char>, CardV)>, k: Seq<char>) -> bool {
    exists|i: int| 0 <= i < s.len() && (#[trigger] s[i]).0 == k
}

/// The names of the entries, in order.
pub open spec fn names_of(s: Seq<(Seq<char>, CardV)>) -> Seq<Seq<char>> {
    s.map_values(|p: (Seq<char>, CardV)| p.0)
}

/// The position of name `k` (meaningful where `k` occurs).
pub open spec fn name_index(s: Seq<(Seq<char>, CardV)>, k: Seq<char>) -> int {
    choose|i: int| 0 <= i < s.len() && (#[trigger] s[i]).0 == k
}

/// The card named `k` (meaningful where `k` occurs).
pub open spec fn card_named(s: Seq<(Seq<char>, CardV)>, k: Seq<char>) -> CardV {
    s[name_index(s, k)].1
}

/// Where no name occurs twice, the position of a name is the one position that holds it.
pub proof fn lemma_name_index(s: Seq<(Seq<char>, CardV)>, k: Seq<char>, i: int)
    requires
        distinct_names(s),
        0 <= i < s.len(),
        s[i].0 == k,
    ensures
        name_index(s, k) == i,
        has_name(s, k),
{
    let j = name_index(s, k);
    assert(0 <= j < s.len() && s[j].0 == k);
}

/// The entries with a card put under name `k`: in place where `k` is taken, last otherwise.
pub open spec fn insert_named(s: Seq<(Seq<char>, CardV)>, k: Seq<char>, c: CardV) -> Seq<(Seq<char>, CardV)> {
    if has_name(s, k) { s.update(name_index(s, k), (k, c)) } else { s.push((k, c)) }
}

/// The smaller of two lengths.
pub open spec fn min_len(a: nat, b: nat) -> int {
    if a <= b { a as int } else { b as int }
}

/// Among the first `n` entries, those whose flag is set, in order.
pub open spec fn kept_upto(s: Seq<(Seq<char>, CardV)>, keep: Seq<bool>, n: nat) -> Seq<(Seq<char>, CardV)>
    decreases n,
{
    if n == 0 {
        Seq::empty()
    } else {
        let r = kept_upto(s, keep, (n - 1) as nat);
        if keep[n - 1] {
            r.push(s[n - 1])
        } else {
            r
        }
    }
}

/// The entries paired with a flag each, as far as both go, whose flag is set, in order.
pub open spec fn kept_where(s: Seq<(Seq<char>, CardV)>, keep: Seq<bool>) -> Seq<(Seq<char>, CardV)> {
    kept_upto(s, keep, min_len(s.len(), keep.len()) as nat)
}

impl CardLibrary {
    /// The entries, in order, by value.
    pub closed spec fn view(&self) -> Seq<(Seq<char>, CardV)> {
        self.entries@.map_values(|p: (String, Card)| (p.0@, p.1@))
    }

    /// No name occurs twice.
    pub open spec fn wf(&self) -> bool {
        distinct_names(self.view())
    }

    pub fn new() -> (r: Self)
        ensures
            r.wf(),
            r.view() == Seq::<(Seq<char>, CardV)>::empty(),
    {
        let r = CardLibrary { entries: Vec::new() };
        assert(r.view() =~= Seq::<(Seq<char>, CardV)>::empty());
        r
    }

    /// The number of cards.
    pub fn len(&self) -> (r: usize)
        ensures
            r == self.view().len(),
    {
        self.entries.len()
    }

    /// The position of the card named `name`, if any.
    pub fn position(&self, name: &str) -> (r: Option<usize>)
        ensures
            match r {
                Some(i) => i < self.view().len() && self.view()[i as int].0 == name@,
                None => !has_name(self.view(), name@),
            },
    {
        let mut i: usize = 0;
        while i < self.entries.len()
            invariant
                i <= self.entries@.len(),
                forall|j: int| 0 <= j < i ==> self.view()[j].0 != name@,
            decreases self.entries.len() - i,
        {
            if str_eq(self.entries[i].0.as_str(), name) {
                return Some(i);
            }
            i += 1;
        }
        None
    }

    /// Whether a card is named `name`.
    pub fn contains_key(&self, name: &str) -> (r: bool)
        ensures
            r == has_name(self.view(), name@),
    {
        self.position(name).is_some()
    }

    /// The card named `name`, if any.
    pub fn get(&self, name: &str) -> (r: Option<&Card>)
        requires
            self.wf(),
        ensures
            match r {
                Some(c) => has_name(self.view(), name@) && c@ == card_named(self.view(), name@),
                None => !has_name(self.view(), name@),
            },
    {
        match self.position(name) {
            Some(i) => {
                proof {
                    lemma_name_index(self.view(), name@, i as int);
                }
                Some(&self.entries[i].1)
            },
            None => None,
        }
    }

    /// The name at a position.
    pub fn name_at(&self, i: usize) -> (r: &str)
        requires
            i < self.view().len(),
        ensures
            r@ == self.view()[i as int].0,
    {
        self.entries[i].0.as_str()
    }

    /// The card at a position.
    pub fn card_at(&self, i: usize) -> (r: &Card)
        requires
            i < self.view().len(),
        ensures
            r@ == self.view()[i as int].1,
    {
        &self.entries[i].1
    }

    /// Puts a card under a name: in place where the name is taken, last otherwise.
    pub fn insert(&mut self, name: String, card: Card)
        requires
            old(self).wf(),
        ensures
            final(self).wf(),
            final(self).view() == insert_named(old(self).view(), name@, card@),
    {
        let ghost before = self.view();
        let ghost nv = name@;
        let ghost cv = card@;
        match self.position(name.as_str()) {
            Some(i) => {
                proof {
                    lemma_name_index(before, nv, i as int);
                }
                self.entries.set(i, (name, card));
                proof {
                    assert(self.view() =~= before.update(i as int, (nv, cv)));
                }
            },
            None => {
                self.entries.push((name, card));
                proof {
                    assert(self.view() =~= before.push((nv, cv)));
                }
            },
        }
    }

    /// Replaces the card at a position, keeping its name.
    pub fn set_card_at(&mut self, i: usize, card: Card)
        requires
            old(self).wf(),
            i < old(self).view().len(),
        ensures
            final(self).wf(),
            final(self).view() == old(self).view().update(i as int, (old(self).view()[i as int].0, card@)),
    {
        let ghost before = self.view();
        let ghost cv = card@;
        let name = self.entries[i].0.clone();
        self.entries.set(i, (name, card));
        proof {
            assert(self.view() =~= before.update(i as int, (before[i as int].0, cv)));
        }
    }

    /// Removes the entry at a position, keeping the order of the others.
    pub fn remove_at(&mut self, i: usize)
        requires
            old(self).wf(),
            i < old(self).view().len(),
        ensures
            final(self).wf(),
            final(self).view() == old(self).view().remove(i as int),
    {
        let ghost before = self.view();
        self.entries.remove(i);
        proof {
            assert(self.view() =~= before.remove(i as int));
        }
    }

    /// The entries paired with a flag each, as far as both go, whose flag is set, in order.
    pub fn keep_where(&self, keep: &Vec<bool>) -> (r: CardLibrary)
        requires
            self.wf(),
        ensures
            r.wf(),
            r.view() == kept_where(self.view(), keep@),
    {
        let ghost s = self.view();
        let n = if self.entries.len() <= keep.len() { self.entries.len() } else { keep.len() };
        let mut entries: Vec<(String, Card)> = Vec::new();
        let ghost mut idx: Seq<int> = Seq::empty();
        let mut i: usize = 0;
        while i < n
            invariant
                s == self.view(),
                n as int == min_len(s.len(), keep@.len()),
                i <= n,
                entries@.map_values(|p: (String, Card)| (p.0@, p.1@)) == kept_upto(s, keep@, i as nat),
                idx.len() == entries@.len(),
                forall|a: int| 0 <= a < idx.len() ==> 0 <= #[trigger] idx[a] < i,
                forall|a: int, b: int| 0 <= a < b < idx.len() ==> #[trigger] idx[a] < #[trigger] idx[b],
                forall|a: int| 0 <= a < idx.len() ==> (#[trigger] entries@[a]).0@ == s[idx[a]].0,
            decreases n - i,
        {
            if keep[i] {
                let e = (self.entries[i].0.clone(), self.entries[i].1.clone());
                entries.push(e);
                proof {
                    idx = idx.push(i as int);
                }
            }
            proof {
                let v = entries@.map_values(|p: (String, Card)| (p.0@, p.1@));
                assert(v =~= kept_upto(s, keep@, (i + 1) as nat));
            }
            i += 1;
        }
        let r = CardLibrary { entries };
        proof {
            assert(r.view() == kept_upto(s, keep@, n as nat));
            assert forall|a: int, b: int| 0 <= a < r.view().len() && 0 <= b < r.view().len() && a != b implies
                (#[trigger] r.view()[a]).0 != (#[trigger] r.view()[b]).0 by {
                assert(r.view()[a].0 == s[idx[a]].0);
                assert(r.view()[b].0 == s[idx[b]].0);
                if a < b {
                    assert(idx[a] < idx[b]);
                } else {
                    assert(idx[b] < idx[a]);
                }
            }
        }
        r
    }

    /// Copies of the cards, in order.
    pub fn values(&self) -> (r: Vec<Card>)
        ensures
            r@.len() == self.view().len(),
            forall|i: int| 0 <= i < r@.len() ==> #[trigger] r@[i]@ == self.view()[i].1,
    {
        let mut r: Vec<Card> = Vec::new();
        let mut i: usize = 0;
        while i < self.entries.len()
            invariant
                i <= self.entries@.len(),
                r@.len() == i,
                forall|j: int| 0 <= j < i ==> #[trigger] r@[j]@ == self.view()[j].1,
            decreases self.entries.len() - i,
        {
            r.push(self.entries[i].1.clone());
            i += 1;
        }
        r
    }
}

impl Clone for CardLibrary {
    fn clone(&self) -> (r: Self)
        ensures
            r.view() == self.view(),
    {
        let mut entries: Vec<(String, Card)> = Vec::new();
        let mut i: usize = 0;
        while i < self.entries.len()
            invariant
                i <= self.entries@.len(),
                entries@.len() == i,
                forall|j: int| 0 <= j < i ==> (#[trigger] entries@[j]).0@ == self.entries@[j].0@ && entries@[j].1@
                    == self.entries@[j].1@,
            decreases self.entries.len() - i,
        {
            entries.push((self.entries[i].0.clone(), self.entries[i].1.clone()));
            i += 1;
        }
        let r = CardLibrary { entries };
        assert(r.view() =~= self.view());
        r
    }
}

/// The names of the cards of the library, in the order in which it lists them.
pub open spec fn library_names() -> Seq<Seq<char>> {
    seq![
        "Cacophony Scamp"@,
        "Monastery Swiftspear"@,
        "Electrostatic Infantry"@,
        "Heartfire Hero"@,
        "Screaming Nemesis"@,
        "Hired Claw"@,
        "Manifold Mouse"@,
        "Slickshot Show-Off"@,
        "Sunset Strikemaster"@,
        "Emberheart Challenger"@,
        "Felonious Rage"@,
        "Monstrous Rage"@,
        "Blazing Crescendo"@,
        "Demonic Ruckus"@,
        "Burst Lightning"@,
        "Lightning Strike"@,
        "Mountain"@,
        "Rockface Village"@,
    ]
}

/// What a search of the library looks at: each card's name, kind and cost, in order.
pub open spec fn catalog_of(s: Seq<(Seq<char>, CardV)>) -> Seq<(Seq<char>, CardTypeV, ManaCost)> {
    s.map_values(|p: (Seq<char>, CardV)| (p.1.name, p.1.card_type, p.1.mana_cost))
}

/// The names, kinds and costs of the cards of the library, in order.
pub open spec fn library_catalog() -> Seq<(Seq<char>, CardTypeV, ManaCost)> {
    Seq::new(library_names().len(), |i: int| (library_names()[i], library_kinds()[i].0, library_kinds()[i].1))
}

/// A creature as printed: no temporary bonus, with summoning sickness.
pub open spec fn printed_creature(power: i32, toughness: i32, abilities: Seq<KeywordAbility>, types: Seq<CreatureType>) -> CardTypeV {
    CardTypeV::Creature(
        CreatureV { power, toughness, summoning_sickness: true, abilities, types, ephemeral_power: 0, ephemeral_toughness: 0 },
    )
}

/// A mana cost of `colorless` generic and `red` red mana.
pub open spec fn red_cost(colorless: u32, red: u32) -> ManaCost {
    ManaCost { colorless, red, green: 0, blue: 0, white: 0, black: 0 }
}

/// The kind and the mana cost of each card of the library, in order.
pub open spec fn library_kinds() -> Seq<(CardTypeV, ManaCost)> {
    seq![
        (printed_creature(1, 1, seq![], seq![CreatureType::Phyrexian, CreatureType::Goblin, CreatureType::Warrior]), red_cost(0, 1)),
        (printed_creature(1, 2, seq![], seq![CreatureType::Human, CreatureType::Monk]), red_cost(0, 1)),
        (printed_creature(1, 2, seq![], seq![CreatureType::Dwarf, CreatureType::Wizard]), red_cost(1, 1)),
        (printed_creature(1, 1, seq![], seq![CreatureType::Mouse, CreatureType::Soldier]), red_cost(0, 1)),
        (printed_creature(3, 3, seq![KeywordAbility::Haste], seq![CreatureType::Spirit]), red_cost(2, 1)),
        (printed_creature(1, 2, seq![], seq![CreatureType::Lizard, CreatureType::Mercenary]), red_cost(0, 1)),
        (printed_creature(1, 2, seq![], seq![CreatureType::Mouse, CreatureType::Soldier]), red_cost(1, 1)),
        (printed_creature(1, 2, seq![KeywordAbility::Flying, KeywordAbility::Haste], seq![CreatureType::Bird, CreatureType::Wizard]), red_cost(1, 1)),
        (printed_creature(3, 1, seq![], seq![CreatureType::Human, CreatureType::Monk]), red_cost(1, 1)),
        (printed_creature(2, 2, seq![KeywordAbility::Haste], seq![CreatureType::Mouse, CreatureType::Warrior]), red_cost(1, 1)),
        (CardTypeV::Instant, red_cost(0, 1)),
        (CardTypeV::Instant, red_cost(0, 1)),
        (CardTypeV::Instant, red_cost(1, 1)),
        (CardTypeV::Enchantment, red_cost(0, 1)),
        (CardTypeV::Instant, red_cost(4, 1)),
        (CardTypeV::Instant, red_cost(1, 1)),
        (CardTypeV::Land, red_cost(0, 0)),
        (CardTypeV::Land, red_cost(0, 0)),
    ]
}

/// The triggers of each card of the library, in order: the trigger of each attribute, paired by
/// position.
pub open spec fn library_triggers() -> Seq<Seq<Trigger>> {
    seq![
        seq![
            Trigger::OnCombatDamage { filter: TargetFilter::SelfCard },
            Trigger::OnCombatDamage { filter: TargetFilter::SelfCard },
            Trigger::OnDeath { filter: TargetFilter::SelfCard },
        ],
        seq![Trigger::OnEnterBattlefield { filter: TargetFilter::SelfCard }, Trigger::OnSpellCast { filter: SpellFilter::InstantOrSorcery }],
        seq![Trigger::OnEnterBattlefield { filter: TargetFilter::SelfCard }, Trigger::OnSpellCast { filter: SpellFilter::InstantOrSorcery }],
        seq![Trigger::OnTargetedFirstTimeEachTurn { filter: TargetFilter::SelfCard }, Trigger::OnDeath { filter: TargetFilter::SelfCard }],
        seq![
            Trigger::OnEnterBattlefield { filter: TargetFilter::SelfCard },
            Trigger::OnDealtDamage { filter: TargetFilter::SelfCard },
            Trigger::OnDealtDamage { filter: TargetFilter::SelfCard },
        ],
        seq![Trigger::OnAttackWithCreatureType { creature_type: CreatureType::Lizard }],
        seq![Trigger::AtPhase { phase: GamePhase::BeginningCombat, player: PlayerSelector::Controller }, Trigger::OnCastResolved],
        seq![Trigger::OnSpellCast { filter: SpellFilter::InstantOrSorcery }],
        seq![],
        seq![Trigger::OnSpellCast { filter: SpellFilter::InstantOrSorcery }, Trigger::OnTargetedFirstTimeEachTurn { filter: TargetFilter::SelfCard }],
        seq![Trigger::OnCastResolved],
        seq![Trigger::OnCastResolved],
        seq![Trigger::OnCastResolved, Trigger::OnCastResolved],
        seq![Trigger::OnCastResolved, Trigger::OnCastResolved, Trigger::OnCastResolved, Trigger::OnDeath { filter: TargetFilter::SelfCard }],
        seq![Trigger::OnCastResolved],
        seq![Trigger::OnCastResolved],
        seq![],
        seq![],
    ]
}

/// What each card of the library does, in order (see the `*_attributes` functions).
pub open spec fn library_attributes() -> Seq<Seq<AttributeV>> {
    seq![
        cacophony_scamp_attributes(),
        seq![
            AttributeV::GrantAbility(GrantAbilityAttribute { ability: KeywordAbility::Haste, duration: Duration::EndOfTurn, target: TargetFilter::SelfCard }),
            AttributeV::Prowess(ProwessAttribute { filter: SpellFilter::InstantOrSorcery, power: 1, toughness: 1, duration: Duration::EndOfTurn }),
        ],
        seq![
            AttributeV::GrantAbility(GrantAbilityAttribute { ability: KeywordAbility::Trample, duration: Duration::Permanent, target: TargetFilter::SelfCard }),
            AttributeV::AddCounter(AddCounterAttribute { counter: CounterType::PlusOnePlusOne, amount: 1, target: TargetFilter::SelfCard }),
        ],
        heartfire_hero_attributes(),
        seq![
            AttributeV::GrantAbility(GrantAbilityAttribute { ability: KeywordAbility::Haste, duration: Duration::Permanent, target: TargetFilter::SelfCard }),
            AttributeV::TriggeredEffect(
                Trigger::OnDealtDamage { filter: TargetFilter::SelfCard },
                EffectV::Damage { amount: Amount::SourcePower, target: TargetFilter::AnyTarget },
            ),
            AttributeV::TriggeredEffect(
                Trigger::OnDealtDamage { filter: TargetFilter::SelfCard },
                EffectV::PreventLifeGain { player: PlayerSelector::Opponent, duration: Duration::Permanent },
            ),
        ],
        seq![
            AttributeV::TriggeredEffect(
                Trigger::OnAttackWithCreatureType { creature_type: CreatureType::Lizard },
                EffectV::Damage { amount: Amount::Fixed(1), target: TargetFilter::OpponentCreature },
            ),
        ],
        manifold_mouse_attributes(),
        seq![AttributeV::Buff(BuffAttribute { power: 2, toughness: 0, duration: Duration::EndOfTurn, target: TargetFilter::SelfCard })],
        seq![],
        seq![
            AttributeV::Prowess(ProwessAttribute { filter: SpellFilter::InstantOrSorcery, power: 1, toughness: 1, duration: Duration::EndOfTurn }),
            AttributeV::FirstTimePerTurn(
                Trigger::OnTargetedFirstTimeEachTurn { filter: TargetFilter::SelfCard },
                GamePhase::End,
                EffectV::ExileThenPlayFromExile { count: 1, player: PlayerSelector::Controller, duration: Duration::EndOfTurn },
                false,
            ),
        ],
        felonious_rage_attributes(),
        monstrous_rage_attributes(),
        blazing_crescendo_attributes(),
        demonic_ruckus_attributes(),
        burst_lightning_attributes(),
        lightning_strike_attributes(),
        seq![],
        seq![],
    ]
}

/// The activated abilities of each card of the library, in order: Hired Claw can put a +1/+1
/// counter on itself for {1}{R} once the opponent lost life this turn; Sunset Strikemaster adds
/// {R} for free.
pub open spec fn library_activated() -> Seq<Seq<ActivatedAbilityV>> {
    seq![
        seq![],
        seq![],
        seq![],
        seq![],
        seq![],
        seq![
            ActivatedAbilityV {
                cost: red_cost(1, 1),
                condition: Condition::OpponentLostLifeThisTurn,
                effect: EffectV::AddCounter { counter: CounterType::PlusOnePlusOne, amount: 1, target: TargetFilter::SelfCard },
                activated_this_turn: false,
                loyalty_change: 0,
            },
        ],
        seq![],
        seq![],
        seq![
            ActivatedAbilityV {
                cost: red_cost(0, 0),
                condition: Condition::Always,
                effect: EffectV::AddMana { colorless: 0, red: 1, blue: 0, green: 0, black: 0, white: 0 },
                activated_this_turn: false,
                loyalty_change: 0,
            },
        ],
        seq![],
        seq![],
        seq![],
        seq![],
        seq![],
        seq![],
        seq![],
        seq![],
        seq![],
    ]
}

/// What Cacophony Scamp does: when it deals combat damage it is sacrificed and +1/+1 counters
/// proliferate, and on death it deals damage equal to its power to any target.
pub open spec fn cacophony_scamp_attributes() -> Seq<AttributeV> {
    seq![
        AttributeV::TriggeredEffect(
            Trigger::OnCombatDamage { filter: TargetFilter::SelfCard },
            EffectV::Destroy { target: TargetFilter::SelfCard },
        ),
        AttributeV::Proliferate(ProliferateAttribute { counter: CounterType::PlusOnePlusOne, player: PlayerSelector::Controller }),
        AttributeV::TriggeredEffect(
            Trigger::OnDeath { filter: TargetFilter::SelfCard },
            EffectV::Damage { amount: Amount::SourcePower, target: TargetFilter::AnyTarget },
        ),
    ]
}

/// What Manifold Mouse does: at the beginning of combat its mice get double strike or trample
/// (the first is chosen), and on resolution it deals 0 damage or makes an offspring (the first
/// is chosen).
pub open spec fn manifold_mouse_attributes() -> Seq<AttributeV> {
    seq![
        AttributeV::ChooseOnCondition(
            1,
            seq![
                EffectV::GrantAbility {
                    ability: KeywordAbility::DoubleStrike,
                    duration: Duration::EndOfTurn,
                    target: TargetFilter::CreatureType(CreatureType::Mouse),
                },
                EffectV::GrantAbility {
                    ability: KeywordAbility::Trample,
                    duration: Duration::EndOfTurn,
                    target: TargetFilter::CreatureType(CreatureType::Mouse),
                },
            ],
        ),
        AttributeV::ChooseOnCondition(
            1,
            seq![EffectV::Damage { amount: Amount::Fixed(0), target: TargetFilter::AnyTarget }, EffectV::Offspring { cost: 2 }],
        ),
    ]
}

/// What Blazing Crescendo does on resolution: its target gets +3/+1 until end of turn, and the
/// top card of the library is exiled, playable until the end of the next turn.
pub open spec fn blazing_crescendo_attributes() -> Seq<AttributeV> {
    seq![
        AttributeV::Buff(BuffAttribute { power: 3, toughness: 1, duration: Duration::EndOfTurn, target: TargetFilter::Creature }),
        AttributeV::ExileAndPlay(ExileAndPlayAttribute { count: 1, player: PlayerSelector::Controller, duration: Duration::NextTurnEnd }),
    ]
}

/// What Demonic Ruckus does: on resolution its controller's creatures get +1/+1, menace and
/// trample for good; when it dies its controller draws a card.
pub open spec fn demonic_ruckus_attributes() -> Seq<AttributeV> {
    seq![
        AttributeV::Buff(BuffAttribute { power: 1, toughness: 1, duration: Duration::Permanent, target: TargetFilter::ControllerCreature }),
        AttributeV::GrantAbility(GrantAbilityAttribute { ability: KeywordAbility::Menace, duration: Duration::Permanent, target: TargetFilter::ControllerCreature }),
        AttributeV::GrantAbility(GrantAbilityAttribute { ability: KeywordAbility::Trample, duration: Duration::Permanent, target: TargetFilter::ControllerCreature }),
        AttributeV::TriggeredEffect(
            Trigger::OnDeath { filter: TargetFilter::SelfCard },
            EffectV::DrawCards { count: 1, player: PlayerSelector::Controller },
        ),
    ]
}

/// What Burst Lightning does on resolution: 4 damage to any target if it was kicked, 2 otherwise.
pub open spec fn burst_lightning_attributes() -> Seq<AttributeV> {
    seq![
        AttributeV::Conditional(
            Trigger::OnCastResolved,
            Condition::SpellWasKicked,
            EffectV::Damage { amount: Amount::Fixed(4), target: TargetFilter::AnyTarget },
            Some(EffectV::Damage { amount: Amount::Fixed(2), target: TargetFilter::AnyTarget }),
        ),
    ]
}

/// What Lightning Strike does on resolution: 3 damage to any target.
pub open spec fn lightning_strike_attributes() -> Seq<AttributeV> {
    seq![
        AttributeV::TriggeredEffect(
            Trigger::OnCastResolved,
            EffectV::Damage { amount: Amount::Fixed(3), target: TargetFilter::AnyTarget },
        ),
    ]
}

/// What Heartfire Hero does: the first time each turn it is targeted, it gets a +1/+1 counter;
/// when it dies, it deals damage equal to its power to the opponent.
pub open spec fn heartfire_hero_attributes() -> Seq<AttributeV> {
    seq![
        AttributeV::FirstTimePerTurn(
            Trigger::OnTargetedFirstTimeEachTurn { filter: TargetFilter::SelfCard },
            GamePhase::End,
            EffectV::AddCounter { counter: CounterType::PlusOnePlusOne, amount: 1, target: TargetFilter::SelfCard },
            false,
        ),
        AttributeV::TriggeredEffect(
            Trigger::OnDeath { filter: TargetFilter::SelfCard },
            EffectV::Damage { amount: Amount::SourcePower, target: TargetFilter::Player },
        ),
    ]
}

/// What Felonious Rage does on resolution: its target gets +2/+0 and haste until end of turn,
/// and a 2/2 Detective token comes if the target dies this turn.
pub open spec fn felonious_rage_attributes() -> Seq<AttributeV> {
    seq![
        AttributeV::TriggeredEffect(
            Trigger::OnCastResolved,
            EffectV::TargetedEffects {
                sub_effects: seq![
                    EffectV::ModifyStats { power_delta: 2, toughness_delta: 0, duration: Duration::EndOfTurn, target: TargetFilter::Creature },
                    EffectV::GrantAbility { ability: KeywordAbility::Haste, duration: Duration::EndOfTurn, target: TargetFilter::Creature },
                    EffectV::WhenTargetDiesThisTurn {
                        effect: Box::new(
                            EffectV::CreateCreatureToken {
                                name: "Detective"@,
                                power: 2,
                                toughness: 2,
                                creature_types: seq![CreatureType::Detective],
                            },
                        ),
                    },
                ],
            },
        ),
    ]
}

/// What Monstrous Rage does on resolution: its target gets +2/+0 until end of turn, and a
/// "Monster" aura token giving +1/+1 and trample is attached to it.
pub open spec fn monstrous_rage_attributes() -> Seq<AttributeV> {
    seq![
        AttributeV::TriggeredEffect(
            Trigger::OnCastResolved,
            EffectV::TargetedEffects {
                sub_effects: seq![
                    EffectV::ModifyStats { power_delta: 2, toughness_delta: 0, duration: Duration::EndOfTurn, target: TargetFilter::Creature },
                    EffectV::CreateEnchantmentToken { name: "Monster"@, power_buff: 1, toughness_buff: 1, ability: KeywordAbility::Trample },
                ],
            },
        ),
    ]
}

/// A creature card kind as printed.
fn printed(power: i32, toughness: i32, abilities: Vec<KeywordAbility>, types: Vec<CreatureType>) -> (r: CardType)
    ensures
        r@ == printed_creature(power, toughness, abilities@, types@),
{
    CardType::Creature(
        Creature { power, toughness, summoning_sickness: true, abilities, types, ephemeral_power: 0, ephemeral_toughness: 0 },
    )
}


/// A list of no items.
fn list0<T>() -> (r: Vec<T>)
    ensures
        r@ == Seq::<T>::empty(),
{
    let r: Vec<T> = Vec::new();
    assert(r@ =~= Seq::<T>::empty());
    r
}

/// A list of one item.
fn list1<T>(a: T) -> (r: Vec<T>)
    ensures
        r@ == seq![a],
{
    let mut r: Vec<T> = Vec::new();
    r.push(a);
    assert(r@ =~= seq![a]);
    r
}

/// A list of two items.
fn list2<T>(a: T, b: T) -> (r: Vec<T>)
    ensures
        r@ == seq![a, b],
{
    let mut r: Vec<T> = Vec::new();
    r.push(a);
    r.push(b);
    assert(r@ =~= seq![a, b]);
    r
}

/// A list of three items.
fn list3<T>(a: T, b: T, c: T) -> (r: Vec<T>)
    ensures
        r@ == seq![a, b, c],
{
    let mut r: Vec<T> = Vec::new();
    r.push(a);
    r.push(b);
    r.push(c);
    assert(r@ =~= seq![a, b, c]);
    r
}

/// Two effects, as a list.
fn effects2(a: Effect, b: Effect) -> (r: Vec<Effect>)
    ensures
        effects_view(r@) == seq![a@, b@],
{
    let r = list2(a, b);
    proof {
        crate::app::card_attribute::lemma_effects_view(r@);
        assert(effects_view(r@) =~= seq![a@, b@]);
    }
    r
}

/// Three effects, as a list.
fn effects3(a: Effect, b: Effect, c: Effect) -> (r: Vec<Effect>)
    ensures
        effects_view(r@) == seq![a@, b@, c@],
{
    let r = list3(a, b, c);
    proof {
        crate::app::card_attribute::lemma_effects_view(r@);
        assert(effects_view(r@) =~= seq![a@, b@, c@]);
    }
    r
}

/// "When the target dies this turn, create a 2/2 Detective token."
pub open spec fn detective_on_death_view() -> EffectV {
    EffectV::WhenTargetDiesThisTurn {
        effect: Box::new(
            EffectV::CreateCreatureToken {
                name: "Detective"@,
                power: 2,
                toughness: 2,
                creature_types: seq![CreatureType::Detective],
            },
        ),
    }
}

/// "When the target dies this turn, create a 2/2 Detective token."
fn detective_on_death() -> (r: Effect)
    ensures
        r@ == detective_on_death_view(),
{
    let token = Effect::CreateCreatureToken {
        name: "Detective".to_owned(),
        power: 2,
        toughness: 2,
        creature_types: list1(CreatureType::Detective),
    };
    let ghost tv = token@;
    assert(tv == (EffectV::CreateCreatureToken {
        name: "Detective"@,
        power: 2,
        toughness: 2,
        creature_types: seq![CreatureType::Detective],
    }));
    let r = Effect::WhenTargetDiesThisTurn { effect: Box::new(token) };
    assert(r@ == (EffectV::WhenTargetDiesThisTurn { effect: Box::new(tv) }));
    r
}

/// Appends a card under its own name.
fn add_entry(v: &mut Vec<(String, Card)>, card: Card)
    ensures
        final(v)@.len() == old(v)@.len() + 1,
        forall|i: int| 0 <= i < old(v)@.len() ==> #[trigger] final(v)@[i] == old(v)@[i],
        final(v)@[old(v)@.len() as int].0@ == card@.name,
        final(v)@[old(v)@.len() as int].1@ == card@,
{
    let name = card.name.clone();
    v.push((name, card));
}

/// The names of the library are distinct.
pub proof fn lemma_library_names_distinct()
    ensures
        forall|i: int, j: int| 0 <= i < library_names().len() && 0 <= j < library_names().len() && i != j
            ==> #[trigger] library_names()[i] != #[trigger] library_names()[j],
{
        reveal_strlit("Cacophony Scamp");
        reveal_strlit("Monastery Swiftspear");
        reveal_strlit("Electrostatic Infantry");
        reveal_strlit("Heartfire Hero");
        reveal_strlit("Screaming Nemesis");
        reveal_strlit("Hired Claw");
        reveal_strlit("Manifold Mouse");
        reveal_strlit("Slickshot Show-Off");
        reveal_strlit("Sunset Strikemaster");
        reveal_strlit("Emberheart Challenger");
        reveal_strlit("Felonious Rage");
        reveal_strlit("Monstrous Rage");
        reveal_strlit("Blazing Crescendo");
        reveal_strlit("Demonic Ruckus");
        reveal_strlit("Burst Lightning");
        reveal_strlit("Lightning Strike");
        reveal_strlit("Mountain");
        reveal_strlit("Rockface Village");
        assert("Cacophony Scamp"@.len() == 15);
        assert("Monastery Swiftspear"@.len() == 20);
        assert("Electrostatic Infantry"@.len() == 22);
        assert("Heartfire Hero"@.len() == 14);
        assert("Screaming Nemesis"@.len() == 17);
        assert("Hired Claw"@.len() == 10);
        assert("Manifold Mouse"@.len() == 14);
        assert("Slickshot Show-Off"@.len() == 18);
        assert("Sunset Strikemaster"@.len() == 19);
        assert("Emberheart Challenger"@.len() == 21);
        assert("Felonious Rage"@.len() == 14);
        assert("Monstrous Rage"@.len() == 14);
        assert("Blazing Crescendo"@.len() == 17);
        assert("Demonic Ruckus"@.len() == 14);
        assert("Burst Lightning"@.len() == 15);
        assert("Lightning Strike"@.len() == 16);
        assert("Mountain"@.len() == 8);
        assert("Rockface Village"@.len() == 16);
        assert("Manifold Mouse"@[0] != "Heartfire Hero"@[0]);
        assert("Felonious Rage"@[0] != "Heartfire Hero"@[0]);
        assert("Felonious Rage"@[0] != "Manifold Mouse"@[0]);
        assert("Monstrous Rage"@[0] != "Heartfire Hero"@[0]);
        assert("Monstrous Rage"@[1] != "Manifold Mouse"@[1]);
        assert("Monstrous Rage"@[0] != "Felonious Rage"@[0]);
        assert("Blazing Crescendo"@[0] != "Screaming Nemesis"@[0]);
        assert("Demonic Ruckus"@[0] != "Heartfire Hero"@[0]);
        assert("Demonic Ruckus"@[0] != "Manifold Mouse"@[0]);
        assert("Demonic Ruckus"@[0] != "Felonious Rage"@[0]);
        assert("Demonic Ruckus"@[0] != "Monstrous Rage"@[0]);
        assert("Burst Lightning"@[0] != "Cacophony Scamp"@[0]);
        assert("Rockface Village"@[0] != "Lightning Strike"@[0]);
    }

/// Whether `c` is the library's card at position `i`: its name, kind, cost, triggers,
/// attributes and activated abilities, no identifier yet and attached to nothing.
pub open spec fn is_library_card(c: CardV, i: int) -> bool {
    &&& c.name == library_names()[i]
    &&& c.card_id == 0
    &&& c.type_flags == (CardTypeFlags { bits: type_flag_of(library_kinds()[i].0) })
    &&& c.attached_to is None
    &&& c.card_type == library_kinds()[i].0
    &&& c.mana_cost == library_kinds()[i].1
    &&& c.triggers == library_triggers()[i]
    &&& c.attributes == library_attributes()[i]
    &&& c.activated_abilities == library_activated()[i]
}

/// The library's card at position `i`: its name, kind, cost, triggers with their attributes
/// and activated abilities as listed, the type flag of its kind, no identifier and attached to
/// nothing.
pub open spec fn library_card(i: int) -> CardV {
    CardV {
        card_id: 0,
        name: library_names()[i],
        card_type: library_kinds()[i].0,
        type_flags: CardTypeFlags { bits: type_flag_of(library_kinds()[i].0) },
        mana_cost: library_kinds()[i].1,
        attributes: library_attributes()[i],
        triggers: library_triggers()[i],
        activated_abilities: library_activated()[i],
        attached_to: None,
    }
}

/// The card library: each card of `library_card` under its name, in order.
pub open spec fn library_view() -> Seq<(Seq<char>, CardV)> {
    Seq::new(library_names().len(), |i: int| (library_names()[i], library_card(i)))
}

/// The library's card at position 0, as `is_library_card` describes it.
fn cacophony_scamp() -> (r: Card)
    ensures
        is_library_card(r@, 0),
{
    let r = Card::new(
        "Cacophony Scamp",
        printed(1, 1, list0(), list3(CreatureType::Phyrexian, CreatureType::Goblin, CreatureType::Warrior)),
        ManaCost::new(0, 1, 0, 0, 0, 0),
    ).with(
        Trigger::OnCombatDamage { filter: TargetFilter::SelfCard },
        AnyAttribute::TriggeredEffect(
            TriggeredEffectAttribute {
                trigger: Trigger::OnCombatDamage { filter: TargetFilter::SelfCard },
                effect: Effect::Destroy { target: TargetFilter::SelfCard },
            },
        ),
    ).with(
        Trigger::OnCombatDamage { filter: TargetFilter::SelfCard },
        AnyAttribute::Proliferate(ProliferateAttribute { counter: CounterType::PlusOnePlusOne, player: PlayerSelector::Controller }),
    ).with(
        Trigger::OnDeath { filter: TargetFilter::SelfCard },
        AnyAttribute::TriggeredEffect(
            TriggeredEffectAttribute {
                trigger: Trigger::OnDeath { filter: TargetFilter::SelfCard },
                effect: Effect::Damage { amount: Amount::SourcePower, target: TargetFilter::AnyTarget },
            },
        ),
    );
    proof {
        assert(r@.triggers =~= library_triggers()[0]);
        assert(r@.attributes =~= library_attributes()[0]);
        assert(r@.activated_abilities =~= library_activated()[0]);
    }
    r
}

/// The library's card at position 1, as `is_library_card` describes it.
fn monastery_swiftspear() -> (r: Card)
    ensures
        is_library_card(r@, 1),
{
    let r = Card::new(
        "Monastery Swiftspear",
        printed(1, 2, list0(), list2(CreatureType::Human, CreatureType::Monk)),
        ManaCost::new(0, 1, 0, 0, 0, 0),
    ).with(
        Trigger::OnEnterBattlefield { filter: TargetFilter::SelfCard },
        AnyAttribute::GrantAbility(
            GrantAbilityAttribute { ability: KeywordAbility::Haste, duration: Duration::EndOfTurn, target: TargetFilter::SelfCard },
        ),
    ).with(
        Trigger::OnSpellCast { filter: SpellFilter::InstantOrSorcery },
        AnyAttribute::Prowess(
            ProwessAttribute { filter: SpellFilter::InstantOrSorcery, power: 1, toughness: 1, duration: Duration::EndOfTurn },
        ),
    );
    proof {
        assert(r@.triggers =~= library_triggers()[1]);
        assert(r@.attributes =~= library_attributes()[1]);
        assert(r@.activated_abilities =~= library_activated()[1]);
    }
    r
}

/// The library's card at position 2, as `is_library_card` describes it.
fn electrostatic_infantry() -> (r: Card)
    ensures
        is_library_card(r@, 2),
{
    let r = Card::new(
        "Electrostatic Infantry",
        printed(1, 2, list0(), list2(CreatureType::Dwarf, CreatureType::Wizard)),
        ManaCost::new(1, 1, 0, 0, 0, 0),
    ).with(
        Trigger::OnEnterBattlefield { filter: TargetFilter::SelfCard },
        AnyAttribute::GrantAbility(
            GrantAbilityAttribute { ability: KeywordAbility::Trample, duration: Duration::Permanent, target: TargetFilter::SelfCard },
        ),
    ).with(
        Trigger::OnSpellCast { filter: SpellFilter::InstantOrSorcery },
        AnyAttribute::AddCounter(
            AddCounterAttribute { counter: CounterType::PlusOnePlusOne, amount: 1, target: TargetFilter::SelfCard },
        ),
    );
    proof {
        assert(r@.triggers =~= library_triggers()[2]);
        assert(r@.attributes =~= library_attributes()[2]);
        assert(r@.activated_abilities =~= library_activated()[2]);
    }
    r
}

/// The library's card at position 3, as `is_library_card` describes it.
fn heartfire_hero() -> (r: Card)
    ensures
        is_library_card(r@, 3),
{
    let r = Card::new(
        "Heartfire Hero",
        printed(1, 1, list0(), list2(CreatureType::Mouse, CreatureType::Soldier)),
        ManaCost::new(0, 1, 0, 0, 0, 0),
    ).with(
        Trigger::OnTargetedFirstTimeEachTurn { filter: TargetFilter::SelfCard },
        AnyAttribute::FirstTimePerTurn(
            FirstTimePerTurnAttribute {
                base_trigger: Trigger::OnTargetedFirstTimeEachTurn { filter: TargetFilter::SelfCard },
                reset_phase: GamePhase::End,
                action: Effect::AddCounter { counter: CounterType::PlusOnePlusOne, amount: 1, target: TargetFilter::SelfCard },
                used: false,
            },
        ),
    ).with(
        Trigger::OnDeath { filter: TargetFilter::SelfCard },
        AnyAttribute::TriggeredEffect(
            TriggeredEffectAttribute {
                trigger: Trigger::OnDeath { filter: TargetFilter::SelfCard },
                effect: Effect::Damage { amount: Amount::SourcePower, target: TargetFilter::Player },
            },
        ),
    );
    proof {
        assert(r@.triggers =~= library_triggers()[3]);
        assert(r@.attributes =~= library_attributes()[3]);
        assert(r@.activated_abilities =~= library_activated()[3]);
    }
    r
}

/// The library's card at position 4, as `is_library_card` describes it.
fn screaming_nemesis() -> (r: Card)
    ensures
        is_library_card(r@, 4),
{
    let r = Card::new(
        "Screaming Nemesis",
        printed(3, 3, list1(KeywordAbility::Haste), list1(CreatureType::Spirit)),
        ManaCost::new(2, 1, 0, 0, 0, 0),
    ).with(
        Trigger::OnEnterBattlefield { filter: TargetFilter::SelfCard },
        AnyAttribute::GrantAbility(
            GrantAbilityAttribute { ability: KeywordAbility::Haste, duration: Duration::Permanent, target: TargetFilter::SelfCard },
        ),
    ).with(
        Trigger::OnDealtDamage { filter: TargetFilter::SelfCard },
        AnyAttribute::TriggeredEffect(
            TriggeredEffectAttribute {
                trigger: Trigger::OnDealtDamage { filter: TargetFilter::SelfCard },
                effect: Effect::Damage { amount: Amount::SourcePower, target: TargetFilter::AnyTarget },
            },
        ),
    ).with(
        Trigger::OnDealtDamage { filter: TargetFilter::SelfCard },
        AnyAttribute::TriggeredEffect(
            TriggeredEffectAttribute {
                trigger: Trigger::OnDealtDamage { filter: TargetFilter::SelfCard },
                effect: Effect::PreventLifeGain { player: PlayerSelector::Opponent, duration: Duration::Permanent },
            },
        ),
    );
    proof {
        assert(r@.triggers =~= library_triggers()[4]);
        assert(r@.attributes =~= library_attributes()[4]);
        assert(r@.activated_abilities =~= library_activated()[4]);
    }
    r
}

/// The library's card at position 5, as `is_library_card` describes it.
fn hired_claw() -> (r: Card)
    ensures
        is_library_card(r@, 5),
{
    let r = Card::new(
        "Hired Claw",
        printed(1, 2, list0(), list2(CreatureType::Lizard, CreatureType::Mercenary)),
        ManaCost::new(0, 1, 0, 0, 0, 0),
    ).with(
        Trigger::OnAttackWithCreatureType { creature_type: CreatureType::Lizard },
        AnyAttribute::TriggeredEffect(
            TriggeredEffectAttribute {
                trigger: Trigger::OnAttackWithCreatureType { creature_type: CreatureType::Lizard },
                effect: Effect::Damage { amount: Amount::Fixed(1), target: TargetFilter::OpponentCreature },
            },
        ),
    ).with_activated(
        ActivatedAbility {
            cost: ManaCost::new(1, 1, 0, 0, 0, 0),
            condition: Condition::OpponentLostLifeThisTurn,
            effect: Effect::AddCounter { counter: CounterType::PlusOnePlusOne, amount: 1, target: TargetFilter::SelfCard },
            activated_this_turn: false,
            loyalty_change: 0,
        },
    );
    proof {
        assert(r@.triggers =~= library_triggers()[5]);
        assert(r@.attributes =~= library_attributes()[5]);
        assert(r@.activated_abilities =~= library_activated()[5]);
    }
    r
}

/// The library's card at position 6, as `is_library_card` describes it.
fn manifold_mouse() -> (r: Card)
    ensures
        is_library_card(r@, 6),
{
    let r = Card::new(
        "Manifold Mouse",
        printed(1, 2, list0(), list2(CreatureType::Mouse, CreatureType::Soldier)),
        ManaCost::new(1, 1, 0, 0, 0, 0),
    ).with_added_type(CardTypeFlags::creature()).with(
        Trigger::AtPhase { phase: GamePhase::BeginningCombat, player: PlayerSelector::Controller },
        AnyAttribute::ChooseOnCondition(
            ChooseOnConditionAttribute {
                choose: 1,
                options: effects2(
                    Effect::GrantAbility {
                        ability: KeywordAbility::DoubleStrike,
                        duration: Duration::EndOfTurn,
                        target: TargetFilter::CreatureType(CreatureType::Mouse),
                    },
                    Effect::GrantAbility {
                        ability: KeywordAbility::Trample,
                        duration: Duration::EndOfTurn,
                        target: TargetFilter::CreatureType(CreatureType::Mouse),
                    }),
            },
        ),
    ).with(
        Trigger::OnCastResolved,
        AnyAttribute::ChooseOnCondition(
            ChooseOnConditionAttribute {
                choose: 1,
                options: effects2(
                    Effect::Damage { amount: Amount::Fixed(0), target: TargetFilter::AnyTarget },
                    Effect::Offspring { cost: 2 }),
            },
        ),
    );
    proof {
        assert(2u32 | 2u32 == 2u32) by (bit_vector);
        assert(r@.triggers =~= library_triggers()[6]);
        assert(r@.attributes =~= library_attributes()[6]);
        assert(r@.activated_abilities =~= library_activated()[6]);
    }
    r
}

/// The library's card at position 7, as `is_library_card` describes it.
fn slickshot_show_off() -> (r: Card)
    ensures
        is_library_card(r@, 7),
{
    let r = Card::new(
        "Slickshot Show-Off",
        printed(1, 2, list2(KeywordAbility::Flying, KeywordAbility::Haste), list2(CreatureType::Bird, CreatureType::Wizard)),
        ManaCost::new(1, 1, 0, 0, 0, 0),
    ).with(
        Trigger::OnSpellCast { filter: SpellFilter::InstantOrSorcery },
        AnyAttribute::Buff(BuffAttribute { power: 2, toughness: 0, duration: Duration::EndOfTurn, target: TargetFilter::SelfCard }),
    );
    proof {
        assert(r@.triggers =~= library_triggers()[7]);
        assert(r@.attributes =~= library_attributes()[7]);
        assert(r@.activated_abilities =~= library_activated()[7]);
    }
    r
}

/// The library's card at position 8, as `is_library_card` describes it.
fn sunset_strikemaster() -> (r: Card)
    ensures
        is_library_card(r@, 8),
{
    let r = Card::new(
        "Sunset Strikemaster",
        printed(3, 1, list0(), list2(CreatureType::Human, CreatureType::Monk)),
        ManaCost::new(1, 1, 0, 0, 0, 0),
    ).with_activated(
        ActivatedAbility {
            cost: ManaCost::free(),
            condition: Condition::Always,
            effect: Effect::AddMana { colorless: 0, red: 1, blue: 0, green: 0, black: 0, white: 0 },
            activated_this_turn: false,
            loyalty_change: 0,
        },
    );
    proof {
        assert(r@.triggers =~= library_triggers()[8]);
        assert(r@.attributes =~= library_attributes()[8]);
        assert(r@.activated_abilities =~= library_activated()[8]);
    }
    r
}

/// The library's card at position 9, as `is_library_card` describes it.
fn emberheart_challenger() -> (r: Card)
    ensures
        is_library_card(r@, 9),
{
    let r = Card::new(
        "Emberheart Challenger",
        printed(2, 2, list1(KeywordAbility::Haste), list2(CreatureType::Mouse, CreatureType::Warrior)),
        ManaCost::new(1, 1, 0, 0, 0, 0),
    ).with(
        Trigger::OnSpellCast { filter: SpellFilter::InstantOrSorcery },
        AnyAttribute::Prowess(
            ProwessAttribute { filter: SpellFilter::InstantOrSorcery, power: 1, toughness: 1, duration: Duration::EndOfTurn },
        ),
    ).with(
        Trigger::OnTargetedFirstTimeEachTurn { filter: TargetFilter::SelfCard },
        AnyAttribute::FirstTimePerTurn(
            FirstTimePerTurnAttribute {
                base_trigger: Trigger::OnTargetedFirstTimeEachTurn { filter: TargetFilter::SelfCard },
                reset_phase: GamePhase::End,
                action: Effect::ExileThenPlayFromExile {
                    count: 1,
                    player: PlayerSelector::Controller,
                    duration: Duration::EndOfTurn,
                },
                used: false,
            },
        ),
    );
    proof {
        assert(r@.triggers =~= library_triggers()[9]);
        assert(r@.attributes =~= library_attributes()[9]);
        assert(r@.activated_abilities =~= library_activated()[9]);
    }
    r
}

/// The library's card at position 10, as `is_library_card` describes it.
fn felonious_rage() -> (r: Card)
    ensures
        is_library_card(r@, 10),
{
    proof {
        reveal_strlit("Detective");
        reveal_strlit("Monster");
    }
    let r = Card::new("Felonious Rage", CardType::Instant, ManaCost::new(0, 1, 0, 0, 0, 0)).with(
        Trigger::OnCastResolved,
        AnyAttribute::TriggeredEffect(
            TriggeredEffectAttribute {
                trigger: Trigger::OnCastResolved,
                effect: Effect::TargetedEffects {
                    sub_effects: effects3(
                        Effect::ModifyStats {
                            power_delta: 2,
                            toughness_delta: 0,
                            duration: Duration::EndOfTurn,
                            target: TargetFilter::Creature,
                        },
                        Effect::GrantAbility {
                            ability: KeywordAbility::Haste,
                            duration: Duration::EndOfTurn,
                            target: TargetFilter::Creature,
                        },
                        detective_on_death()),
                },
            },
        ),
    );
    proof {
        assert(r@.triggers =~= library_triggers()[10]);
        assert(r@.attributes =~= library_attributes()[10]);
        assert(r@.activated_abilities =~= library_activated()[10]);
    }
    r
}

/// The library's card at position 11, as `is_library_card` describes it.
fn monstrous_rage() -> (r: Card)
    ensures
        is_library_card(r@, 11),
{
    proof {
        reveal_strlit("Detective");
        reveal_strlit("Monster");
    }
    let r = Card::new("Monstrous Rage", CardType::Instant, ManaCost::new(0, 1, 0, 0, 0, 0)).with(
        Trigger::OnCastResolved,
        AnyAttribute::TriggeredEffect(
            TriggeredEffectAttribute {
                trigger: Trigger::OnCastResolved,
                effect: Effect::TargetedEffects {
                    sub_effects: effects2(
                        Effect::ModifyStats {
                            power_delta: 2,
                            toughness_delta: 0,
                            duration: Duration::EndOfTurn,
                            target: TargetFilter::Creature,
                        },
                        Effect::CreateEnchantmentToken {
                            name: "Monster".to_owned(),
                            power_buff: 1,
                            toughness_buff: 1,
                            ability: KeywordAbility::Trample,
                        }),
                },
            },
        ),
    );
    proof {
        assert(r@.triggers =~= library_triggers()[11]);
        assert(r@.attributes =~= library_attributes()[11]);
        assert(r@.activated_abilities =~= library_activated()[11]);
    }
    r
}

/// The library's card at position 12, as `is_library_card` describes it.
fn blazing_crescendo() -> (r: Card)
    ensures
        is_library_card(r@, 12),
{
    let r = Card::new("Blazing Crescendo", CardType::Instant, ManaCost::new(1, 1, 0, 0, 0, 0)).with(
        Trigger::OnCastResolved,
        AnyAttribute::Buff(BuffAttribute { power: 3, toughness: 1, duration: Duration::EndOfTurn, target: TargetFilter::Creature }),
    ).with(
        Trigger::OnCastResolved,
        AnyAttribute::ExileAndPlay(
            ExileAndPlayAttribute { count: 1, player: PlayerSelector::Controller, duration: Duration::NextTurnEnd },
        ),
    );
    proof {
        assert(r@.triggers =~= library_triggers()[12]);
        assert(r@.attributes =~= library_attributes()[12]);
        assert(r@.activated_abilities =~= library_activated()[12]);
    }
    r
}

/// The library's card at position 13, as `is_library_card` describes it.
#[verifier::rlimit(40)]
fn demonic_ruckus() -> (r: Card)
    ensures
        is_library_card(r@, 13),
{
    let r = Card::new("Demonic Ruckus", CardType::Enchantment, ManaCost::new(0, 1, 0, 0, 0, 0)).with(
        Trigger::OnCastResolved,
        AnyAttribute::Buff(
            BuffAttribute { power: 1, toughness: 1, duration: Duration::Permanent, target: TargetFilter::ControllerCreature },
        ),
    ).with(
        Trigger::OnCastResolved,
        AnyAttribute::GrantAbility(
            GrantAbilityAttribute {
                ability: KeywordAbility::Menace,
                duration: Duration::Permanent,
                target: TargetFilter::ControllerCreature,
            },
        ),
    ).with(
        Trigger::OnCastResolved,
        AnyAttribute::GrantAbility(
            GrantAbilityAttribute {
                ability: KeywordAbility::Trample,
                duration: Duration::Permanent,
                target: TargetFilter::ControllerCreature,
            },
        ),
    ).with(
        Trigger::OnDeath { filter: TargetFilter::SelfCard },
        AnyAttribute::TriggeredEffect(
            TriggeredEffectAttribute {
                trigger: Trigger::OnDeath { filter: TargetFilter::SelfCard },
                effect: Effect::DrawCards { count: 1, player: PlayerSelector::Controller },
            },
        ),
    );
    proof {
        assert(r@.triggers =~= library_triggers()[13]);
        assert(r@.attributes =~= library_attributes()[13]);
        assert(r@.activated_abilities =~= library_activated()[13]);
    }
    r
}

/// The library's card at position 14, as `is_library_card` describes it.
fn burst_lightning() -> (r: Card)
    ensures
        is_library_card(r@, 14),
{
    let r = Card::new("Burst Lightning", CardType::Instant, ManaCost::new(4, 1, 0, 0, 0, 0)).with(
        Trigger::OnCastResolved,
        AnyAttribute::Conditional(
            ConditionalAttribute {
                trigger: Trigger::OnCastResolved,
                condition: Condition::SpellWasKicked,
                effect_if_true: Effect::Damage { amount: Amount::Fixed(4), target: TargetFilter::AnyTarget },
                effect_if_false: Some(Effect::Damage { amount: Amount::Fixed(2), target: TargetFilter::AnyTarget }),
            },
        ),
    );
    proof {
        assert(r@.triggers =~= library_triggers()[14]);
        assert(r@.attributes =~= library_attributes()[14]);
        assert(r@.activated_abilities =~= library_activated()[14]);
    }
    r
}

/// The library's card at position 15, as `is_library_card` describes it.
fn lightning_strike() -> (r: Card)
    ensures
        is_library_card(r@, 15),
{
    let r = Card::new("Lightning Strike", CardType::Instant, ManaCost::new(1, 1, 0, 0, 0, 0)).with(
        Trigger::OnCastResolved,
        AnyAttribute::TriggeredEffect(
            TriggeredEffectAttribute {
                trigger: Trigger::OnCastResolved,
                effect: Effect::Damage { amount: Amount::Fixed(3), target: TargetFilter::AnyTarget },
            },
        ),
    );
    proof {
        assert(r@.triggers =~= library_triggers()[15]);
        assert(r@.attributes =~= library_attributes()[15]);
        assert(r@.activated_abilities =~= library_activated()[15]);
    }
    r
}

/// The library's card at position 16, as `is_library_card` describes it.
fn mountain() -> (r: Card)
    ensures
        is_library_card(r@, 16),
{
    let r = Card::new("Mountain", CardType::Land, ManaCost::free());
    proof {
        assert(r@.triggers =~= library_triggers()[16]);
        assert(r@.attributes =~= library_attributes()[16]);
        assert(r@.activated_abilities =~= library_activated()[16]);
    }
    r
}

/// The library's card at position 17, as `is_library_card` describes it.
fn rockface_village() -> (r: Card)
    ensures
        is_library_card(r@, 17),
{
    let r = Card::new("Rockface Village", CardType::Land, ManaCost::free());
    proof {
        assert(r@.triggers =~= library_triggers()[17]);
        assert(r@.attributes =~= library_attributes()[17]);
        assert(r@.activated_abilities =~= library_activated()[17]);
    }
    r
}

/// The entries of the card library, in order (see `build_card_library`).
fn library_entries() -> (r: Vec<(String, Card)>)
    ensures
        r@.len() == library_names().len(),
        forall|i: int| 0 <= i < r@.len() ==> #[trigger] is_library_card(r@[i].1@, i) && r@[i].0@ == library_names()[i],
{
    let mut v: Vec<(String, Card)> = Vec::new();
    add_entry(&mut v, cacophony_scamp());
    add_entry(&mut v, monastery_swiftspear());
    add_entry(&mut v, electrostatic_infantry());
    add_entry(&mut v, heartfire_hero());
    add_entry(&mut v, screaming_nemesis());
    add_entry(&mut v, hired_claw());
    add_entry(&mut v, manifold_mouse());
    add_entry(&mut v, slickshot_show_off());
    add_entry(&mut v, sunset_strikemaster());
    add_entry(&mut v, emberheart_challenger());
    add_entry(&mut v, felonious_rage());
    add_entry(&mut v, monstrous_rage());
    add_entry(&mut v, blazing_crescendo());
    add_entry(&mut v, demonic_ruckus());
    add_entry(&mut v, burst_lightning());
    add_entry(&mut v, lightning_strike());
    add_entry(&mut v, mountain());
    add_entry(&mut v, rockface_village());
    v
}

/// Every card of the library has as many triggers as attributes.
pub proof fn lemma_library_pairs()
    ensures
        library_triggers().len() == 18,
        library_attributes().len() == 18,
        forall|i: int| 0 <= i < 18 ==> (#[trigger] library_triggers()[i]).len() == library_attributes()[i].len(),
{
    assert forall|i: int| 0 <= i < 18 implies (#[trigger] library_triggers()[i]).len() == library_attributes()[i].len() by {
        if i < 9 {
            if i < 3 {} else if i < 6 {} else {}
        } else {
            if i < 12 {} else if i < 15 {} else {}
        }
    }
}

/// The card library: every card the bot knows, by name (see `library_names` and
/// `library_kinds`).
pub fn build_card_library() -> (r: CardLibrary)
    ensures
        r.wf(),
        r.view() == library_view(),
        names_of(r.view()) == library_names(),
        catalog_of(r.view()) == library_catalog(),
        forall|i: int| 0 <= i < r.view().len() ==> {
            let c = #[trigger] r.view()[i].1;
            &&& c.name == r.view()[i].0
            &&& c.card_id == 0
            &&& c.attached_to is None
            &&& c.card_type == library_kinds()[i].0
            &&& c.mana_cost == library_kinds()[i].1
            &&& c.triggers == library_triggers()[i]
            &&& c.attributes == library_attributes()[i]
            &&& c.activated_abilities == library_activated()[i]
            &&& c.triggers.len() == c.attributes.len()
        },
{
    let entries = library_entries();
    let ghost ev = entries@;
    let r = CardLibrary { entries };
    proof {
        lemma_library_pairs();
        assert forall|i: int| 0 <= i < r.view().len() implies #[trigger] is_library_card(r.view()[i].1, i)
            && r.view()[i].0 == library_names()[i] && r.view()[i].1.triggers.len() == r.view()[i].1.attributes.len() by {
            assert(r.view().len() == ev.len());
            assert(0 <= i < ev.len());
            assert(is_library_card(ev[i].1@, i));
            assert(ev[i].0@ == library_names()[i]);
            assert(r.view()[i] == (ev[i].0@, ev[i].1@));
            assert(library_names().len() == 18);
            assert(library_triggers()[i].len() == library_attributes()[i].len());
        }
        lemma_library_names_distinct();
        assert(r.view() =~= library_view()) by {
            assert forall|i: int| 0 <= i < r.view().len() implies r.view()[i] == library_view()[i] by {
                assert(is_library_card(r.view()[i].1, i));
            }
        }
        assert(names_of(r.view()) =~= library_names()) by {
            assert forall|i: int| 0 <= i < r.view().len() implies names_of(r.view())[i] == library_names()[i] by {
                assert(is_library_card(r.view()[i].1, i));
            }
        }
        assert(catalog_of(r.view()) =~= library_catalog()) by {
            assert forall|i: int| 0 <= i < r.view().len() implies catalog_of(r.view())[i] == library_catalog()[i] by {
                assert(is_library_card(r.view()[i].1, i));
            }
        }
        assert forall|i: int, j: int| 0 <= i < r.view().len() && 0 <= j < r.view().len() && i != j implies (#[trigger] r.view()[i]).0
            != (#[trigger] r.view()[j]).0 by {
            assert(r.view()[i].0 == library_names()[i]);
            assert(r.view()[j].0 == library_names()[j]);
        }
        assert forall|i: int| 0 <= i < r.view().len() implies {
            let c = #[trigger] r.view()[i].1;
            &&& c.name == r.view()[i].0
            &&& c.card_id == 0
            &&& c.attached_to is None
            &&& c.card_type == library_kinds()[i].0
            &&& c.mana_cost == library_kinds()[i].1
            &&& c.triggers == library_triggers()[i]
            &&& c.attributes == library_attributes()[i]
            &&& c.activated_abilities == library_activated()[i]
            &&& c.triggers.len() == c.attributes.len()
        } by {
            assert(is_library_card(r.view()[i].1, i));
        }
    }
    r
}

/// Counting the Monster auras attached to `id` looks only at the entries counted.
proof fn lemma_auras_prefix(s: Seq<(u64, CardV)>, t: Seq<(u64, CardV)>, id: u64, n: nat)
    requires
        n <= s.len(),
        n <= t.len(),
        forall|i: int| 0 <= i < n ==> #[trigger] s[i] == t[i],
    ensures
        monster_auras_upto(s, id, n) == monster_auras_upto(t, id, n),
    decreases n,
{
    if n > 0 {
        lemma_auras_prefix(s, t, id, (n - 1) as nat);
        assert(s[n - 1] == t[n - 1]);
    }
}

/// A permanent that is not attached to a card does not change that card's current power or
/// toughness: adding it to the battlefield leaves them as they were, whatever it is (a Monster
/// aura on another creature included).
pub proof fn lemma_unattached_permanent_no_bonus(c: CardV, s: Seq<(u64, CardV)>, k: u64, a: CardV)
    requires
        a.attached_to != Some(c.card_id),
    ensures
        current_power(c, s.push((k, a))) == current_power(c, s),
        current_toughness(c, s.push((k, a))) == current_toughness(c, s),
{
    let t = s.push((k, a));
    lemma_auras_prefix(s, t, c.card_id, s.len());
    assert(t[s.len() as int] == (k, a));
    assert(aura_bonus(t, c.card_id) == aura_bonus(s, c.card_id));
}

} // verus!
