//! Card definitions: the printed faces of cards and the registry they are
//! looked up in.

use vstd::prelude::*;
use crate::ids::CardId;
use crate::types::{
    CardType, Color, ContinuousEffect, CounterType, EffectScope, Keyword, ManaCost, ManaSymbol, ManaType,
    Supertype, Zone, CreatureFilter,
};
use crate::util::str_eq;
use crate::text::views;

verus! {

/// A mana ability as a card prints it.
#[derive(Debug)]
pub struct ManaAbilityDef {
    /// Which of the card's mana abilities this is.
    pub ability_index: usize,
    pub description: String,
    /// The mana it adds: (type, amount) pairs.
    pub produced: Vec<(ManaType, u32)>,
    pub requires_tap: bool,
    pub has_side_effects: bool,
}

/// What a spell or ability may target (CR 115.1).
#[derive(Debug)]
pub enum TargetRequirement {
    Untargeted,
    Creature,
    Permanent,
    PlayerOnly,
    OpponentOnly,
    AnyTarget,
    GraveyardCard,
    GraveyardCreature,
    GraveyardCreatureOfSubtype(String),
    GraveyardCardOwnedByCaster,
    GraveyardCardOwnedByOpponent,
    GraveyardCardOwnedByTargetPlayer,
    ExileCard,
    /// One of several modes, each with its own requirement.
    ModalChoice(Vec<TargetRequirement>),
    /// Two targets, each with its own requirement.
    TwoTargets(Box<TargetRequirement>, Box<TargetRequirement>),
    /// Up to this many targets sharing one requirement.
    UpToTargets(u32, Box<TargetRequirement>),
}

/// The event a triggered ability triggers on.
#[derive(Debug, Clone, Copy, PartialEq, Eq, Structural)]
pub enum TriggerKind {
    SelfDies,
    AnyCreatureDies,
    EntersBattlefield,
    AnyCreatureEnters,
    CombatDamageToPlayer,
    AnyCombatDamageToPlayer,
    AnyDamageToPlayer,
    DealsCombatDamageToCreature,
    SpellCast,
    Attacks,
    AnyCreatureAttacks,
    Blocks,
    BecomesBlocked,
    CreatureCardMilled,
    LeavesBattlefield,
    Upkeep,
    EndStep,
    EndCombat,
}

/// A triggered ability as a card prints it.
#[derive(Debug)]
pub struct TriggeredAbilityDef {
    pub kind: TriggerKind,
    pub description: String,
    pub target_requirement: Option<TargetRequirement>,
}

/// A replacement effect a card's static ability creates (CR 614), as data.
#[derive(Debug, Clone, Copy, PartialEq, Eq, Structural)]
pub enum ReplacementDef {
    /// "This permanent enters tapped" (CR 614.1c).
    EntersTapped,
    /// "This permanent enters with N counters" (CR 614.1c).
    EntersWithCounters { counter: CounterType, count: u32 },
    /// "If an effect would create one or more tokens under your control, it
    /// creates twice that many instead" (CR 614.1a).
    DoublesTokens,
    /// "You may have this enter as a copy of a creature" (CR 614.12b): the
    /// choice made for the object becomes the copy it enters as.
    EntersAsChosenCopy,
}

/// One face of a card, as printed.
#[derive(Debug)]
pub struct CardData {
    pub name: String,
    pub card_types: Vec<CardType>,
    pub supertypes: Vec<Supertype>,
    pub subtypes: Vec<String>,
    pub power: Option<i32>,
    pub toughness: Option<i32>,
    pub keywords: Vec<Keyword>,
    pub cost: Option<ManaCost>,
    /// The colors a face without a mana cost states (CR 204.2).
    pub color_indicator: Vec<Color>,
    pub oracle_text: String,
    pub continuous_effects: Vec<ContinuousEffect>,
    pub triggered_abilities: Vec<TriggeredAbilityDef>,
}

/// A card: its faces and what the engine needs to know about how it
/// behaves.
#[derive(Debug)]
pub struct CardDef {
    pub id: CardId,
    pub front: CardData,
    /// The back face of a double-faced card.
    pub back: Option<CardData>,
    /// What the card targets when cast (an Aura: what it enchants).
    pub target_requirement: TargetRequirement,
    /// "You may have this enter as a copy of ..." (CR 614.12b).
    pub chooses_copy_as_it_enters: bool,
    /// "You have hexproof" while it is on the battlefield.
    pub grants_player_hexproof: bool,
    /// The replacement effect its static ability creates, if any.
    pub replacement: Option<ReplacementDef>,
    /// The zones the replacement effect works from.
    pub replacement_zones: Vec<Zone>,
    /// "You have protection from <color>" while it is on the battlefield.
    pub grants_player_protection_from: Vec<Color>,
}

impl CardDef {
    /// The front face.
    pub fn card_data(&self) -> (d: &CardData)
        ensures
            *d == self.front,
    {
        &self.front
    }

    /// The back face, for a double-faced card.
    pub fn back_face_data(&self) -> (d: Option<&CardData>)
        ensures
            match d {
                Some(b) => self.back == Some(*b),
                None => self.back is None,
            },
    {
        self.back.as_ref()
    }

    /// What the card targets when cast.
    pub fn target_requirement(&self) -> (r: &TargetRequirement)
        ensures
            *r == self.target_requirement,
    {
        &self.target_requirement
    }

    /// Whether the card chooses what to enter as a copy of as it enters.
    pub fn chooses_copy_as_it_enters(&self) -> (b: bool)
        ensures
            b == self.chooses_copy_as_it_enters,
    {
        self.chooses_copy_as_it_enters
    }
}

/// The position of the first card with this id.
pub open spec fn spec_card_index(cards: Seq<CardDef>, id: CardId) -> Option<int>
    decreases cards.len(),
{
    if cards.len() == 0 {
        None
    } else if cards[0].id == id {
        Some(0)
    } else {
        match spec_card_index(cards.drop_first(), id) {
            Some(i) => Some(i + 1),
            None => None,
        }
    }
}

/// Every card the engine knows, by id.
#[derive(Debug)]
pub struct CardRegistry {
    pub cards: Vec<CardDef>,
}

impl CardRegistry {
    /// The card with this id, if the registry has one.
    pub open spec fn spec_get(&self, id: CardId) -> Option<CardDef> {
        match spec_card_index(self.cards@, id) {
            Some(i) => Some(self.cards@[i]),
            None => None,
        }
    }

    /// The card with this id, if the registry has one.
    pub fn get(&self, id: CardId) -> (r: Option<&CardDef>)
        ensures
            match r {
                Some(d) => self.spec_get(id) == Some(*d),
                None => self.spec_get(id) is None,
            },
    {
        let mut i: usize = 0;
        proof {
            assert(self.cards@.skip(0) =~= self.cards@);
        }
        while i < self.cards.len()
            invariant
                i <= self.cards@.len(),
                spec_card_index(self.cards@, id) == (match spec_card_index(self.cards@.skip(i as int), id) {
                    Some(k) => Some(k + i),
                    None => None,
                }),
            decreases self.cards@.len() - i,
        {
            proof {
                assert(self.cards@.skip(i as int).drop_first() =~= self.cards@.skip(i + 1));
            }
            if self.cards[i].id == id {
                return Some(&self.cards[i]);
            }
            i = i + 1;
        }
        None
    }

    /// The front face of the card with this id.
    pub fn card_data(&self, id: CardId) -> (r: Option<&CardData>)
        ensures
            match r {
                Some(d) => self.spec_get(id) matches Some(c) && c.front == *d,
                None => self.spec_get(id) is None,
            },
    {
        match self.get(id) {
            Some(c) => Some(&c.front),
            None => None,
        }
    }

    /// The id of the first card whose front face has this name.
    pub fn get_id_by_name(&self, name: &str) -> (r: Option<CardId>)
        ensures
            match r {
                Some(id) => exists|i: int| 0 <= i < self.cards@.len() && self.cards@[i].id == id
                    && self.cards@[i].front.name@ == name@
                    && forall|j: int| 0 <= j < i ==> self.cards@[j].front.name@ != name@,
                None => forall|i: int| 0 <= i < self.cards@.len() ==> self.cards@[i].front.name@ != name@,
            },
    {
        let mut i: usize = 0;
        while i < self.cards.len()
            invariant
                i <= self.cards@.len(),
                forall|j: int| 0 <= j < i ==> self.cards@[j].front.name@ != name@,
            decreases self.cards@.len() - i,
        {
            if str_eq(self.cards[i].front.name.as_str(), name) {
                return Some(self.cards[i].id);
            }
            i = i + 1;
        }
        None
    }

    /// Every card the engine knows: Grizzly Bears, Forest, Plains,
    /// Pacifism, Runechanter's Pike, Daybreak Ranger (with its back face
    /// Nightfall Predator) and Glorious Anthem, with ids 1 to 7 in that
    /// order.
    pub fn with_all_cards() -> (r: CardRegistry)
        ensures
            r.cards@.len() == 7,
            forall|i: int| 0 <= i < 7 ==> r.cards@[i].id == CardId((i + 1) as u32),
            is_grizzly_bears(r.cards@[0]),
            is_basic_land(r.cards@[1], CardId(2), "Forest"@),
            is_basic_land(r.cards@[2], CardId(3), "Plains"@),
            is_pacifism(r.cards@[3]),
            is_runechanters_pike(r.cards@[4]),
            is_daybreak_ranger(r.cards@[5]),
            is_glorious_anthem(r.cards@[6]),
    {
        let mut cards: Vec<CardDef> = Vec::new();
        cards.push(grizzly_bears());
        cards.push(basic_land(CardId(2), "Forest"));
        cards.push(basic_land(CardId(3), "Plains"));
        cards.push(pacifism());
        cards.push(runechanters_pike());
        cards.push(daybreak_ranger());
        cards.push(glorious_anthem());
        CardRegistry { cards }
    }
}

/// A face: its name, types, subtypes, power and toughness, cost, colour
/// indicator and continuous effects, with no keywords or triggered
/// abilities.
pub open spec fn face_is(d: CardData, name: Seq<char>, card_types: Seq<CardType>, supertypes: Seq<Supertype>,
    subtypes: Seq<Seq<char>>, power: Option<i32>, toughness: Option<i32>, cost: Option<Seq<ManaSymbol>>,
    color_indicator: Seq<Color>, effects: Seq<ContinuousEffect>) -> bool {
    &&& d.name@ == name && d.card_types@ == card_types && d.supertypes@ == supertypes
    &&& views(d.subtypes@) == subtypes && d.power == power && d.toughness == toughness
    &&& match cost {
        Some(c) => d.cost matches Some(m) && m.symbols@ == c,
        None => d.cost is None,
    }
    &&& d.color_indicator@ == color_indicator && d.continuous_effects@ == effects
    &&& d.keywords@.len() == 0 && d.triggered_abilities@.len() == 0
}

/// A single-faced card with nothing beyond its face: no targets, no copy
/// choice, no player-wide grant and no replacement effect.
pub open spec fn plain_with(c: CardDef, id: CardId, target: TargetRequirement) -> bool {
    &&& c.id == id && c.back is None && c.target_requirement == target
    &&& !c.chooses_copy_as_it_enters && !c.grants_player_hexproof && c.grants_player_protection_from@.len() == 0
    &&& c.replacement is None && c.replacement_zones@.len() == 0
}

/// Grizzly Bears: a 2/2 Bear creature costing {1}{G}.
pub open spec fn is_grizzly_bears(c: CardDef) -> bool {
    &&& plain_with(c, CardId(1), TargetRequirement::Untargeted)
    &&& face_is(c.front, "Grizzly Bears"@, seq![CardType::Creature], Seq::empty(), seq!["Bear"@], Some(2), Some(2),
        Some(seq![ManaSymbol::Generic(1), ManaSymbol::Colored(Color::Green)]), Seq::empty(), Seq::empty())
}

/// A basic land of the named type.
pub open spec fn is_basic_land(c: CardDef, id: CardId, name: Seq<char>) -> bool {
    &&& plain_with(c, id, TargetRequirement::Untargeted)
    &&& face_is(c.front, name, seq![CardType::Land], seq![Supertype::Basic], seq![name], None, None, None,
        Seq::empty(), Seq::empty())
}

/// Pacifism: an Aura costing {1}{W}, enchanting a creature that can
/// neither attack nor block.
pub open spec fn is_pacifism(c: CardDef) -> bool {
    &&& plain_with(c, CardId(4), TargetRequirement::Creature)
    &&& face_is(c.front, "Pacifism"@, seq![CardType::Enchantment], Seq::empty(), seq!["Aura"@], None, None,
        Some(seq![ManaSymbol::Generic(1), ManaSymbol::Colored(Color::White)]), Seq::empty(),
        seq![ContinuousEffect::PreventAttack { scope: EffectScope::Attached },
            ContinuousEffect::PreventBlock { scope: EffectScope::Attached }])
}

/// Runechanter's Pike: Equipment costing {2} that gives first strike.
pub open spec fn is_runechanters_pike(c: CardDef) -> bool {
    &&& plain_with(c, CardId(5), TargetRequirement::Untargeted)
    &&& face_is(c.front, "Runechanter's Pike"@, seq![CardType::Artifact], Seq::empty(), seq!["Equipment"@], None, None,
        Some(seq![ManaSymbol::Generic(2)]), Seq::empty(),
        seq![ContinuousEffect::GrantKeyword { keyword: Keyword::FirstStrike, scope: EffectScope::Attached }])
}

/// Daybreak Ranger, a 2/2 Human Archer Werewolf costing {2}{G}, whose back
/// face is Nightfall Predator, a green 4/4 Werewolf.
pub open spec fn is_daybreak_ranger(c: CardDef) -> bool {
    &&& c.id == CardId(6) && c.target_requirement == TargetRequirement::Untargeted
    &&& !c.chooses_copy_as_it_enters && !c.grants_player_hexproof && c.grants_player_protection_from@.len() == 0
    &&& c.replacement is None && c.replacement_zones@.len() == 0
    &&& face_is(c.front, "Daybreak Ranger"@, seq![CardType::Creature], Seq::empty(), seq!["Human"@, "Archer"@, "Werewolf"@],
        Some(2), Some(2), Some(seq![ManaSymbol::Generic(2), ManaSymbol::Colored(Color::Green)]), Seq::empty(), Seq::empty())
    &&& c.back matches Some(b) && face_is(b, "Nightfall Predator"@, seq![CardType::Creature], Seq::empty(), seq!["Werewolf"@],
        Some(4), Some(4), None, seq![Color::Green], Seq::empty())
}

/// Glorious Anthem: an enchantment costing {1}{W}{W} that gives the
/// creatures its controller controls +1/+1.
pub open spec fn is_glorious_anthem(c: CardDef) -> bool {
    &&& plain_with(c, CardId(7), TargetRequirement::Untargeted)
    &&& face_is(c.front, "Glorious Anthem"@, seq![CardType::Enchantment], Seq::empty(), Seq::empty(), None, None,
        Some(seq![ManaSymbol::Generic(1), ManaSymbol::Colored(Color::White), ManaSymbol::Colored(Color::White)]),
        Seq::empty(),
        seq![ContinuousEffect::ModifyPT { power: 1, toughness: 1, scope: EffectScope::Global(CreatureFilter::ControlledByYou) }])
}

fn text(s: &str) -> (r: String)
    ensures
        r@ == s@,
{
    String::from_str(s)
}

fn face(name: &str, card_types: Vec<CardType>, subtypes: Vec<String>, power: Option<i32>, toughness: Option<i32>, cost: Option<ManaCost>) -> (d: CardData)
    ensures
        d.name@ == name@,
        d.card_types@ == card_types@,
        d.subtypes@ == subtypes@,
        d.power == power,
        d.toughness == toughness,
        d.cost == cost,
        d.supertypes@.len() == 0,
        d.keywords@.len() == 0,
        d.color_indicator@.len() == 0,
        d.continuous_effects@.len() == 0,
        d.triggered_abilities@.len() == 0,
{
    CardData {
        name: text(name),
        card_types,
        supertypes: Vec::new(),
        subtypes,
        power,
        toughness,
        keywords: Vec::new(),
        cost,
        color_indicator: Vec::new(),
        oracle_text: String::new(),
        continuous_effects: Vec::new(),
        triggered_abilities: Vec::new(),
    }
}

fn plain_card(id: CardId, front: CardData) -> (c: CardDef)
    ensures
        plain_with(c, id, TargetRequirement::Untargeted),
        c.front == front,
{
    let c = CardDef { id, front, back: None, target_requirement: TargetRequirement::Untargeted, chooses_copy_as_it_enters: false,
        grants_player_hexproof: false, grants_player_protection_from: Vec::new(),
        replacement: None, replacement_zones: Vec::new() };
    proof {
        assert(c.grants_player_protection_from@.len() == 0);
        assert(c.replacement_zones@.len() == 0);
    }
    c
}

fn grizzly_bears() -> (c: CardDef)
    ensures
        is_grizzly_bears(c),
{
    let symbols = vec![ManaSymbol::Generic(1), ManaSymbol::Colored(Color::Green)];
    let cost = ManaCost::new(symbols);
    let subtypes = vec![text("Bear")];
    let types = vec![CardType::Creature];
    proof {
        assert(views(subtypes@) =~= seq!["Bear"@]);
        assert(types@ =~= seq![CardType::Creature]);
        assert(cost.symbols@ =~= seq![ManaSymbol::Generic(1), ManaSymbol::Colored(Color::Green)]);
    }
    let front = face("Grizzly Bears", types, subtypes, Some(2), Some(2), Some(cost));
    proof {
        assert(front.supertypes@ =~= Seq::<Supertype>::empty());
        assert(front.color_indicator@ =~= Seq::<Color>::empty());
        assert(front.continuous_effects@ =~= Seq::<ContinuousEffect>::empty());
    }
    plain_card(CardId(1), front)
}

fn basic_land(id: CardId, name: &str) -> (c: CardDef)
    ensures
        is_basic_land(c, id, name@),
{
    let subtypes = vec![text(name)];
    let types = vec![CardType::Land];
    proof {
        assert(views(subtypes@) =~= seq![name@]);
        assert(types@ =~= seq![CardType::Land]);
    }
    let mut front = face(name, types, subtypes, None, None, None);
    front.supertypes = vec![Supertype::Basic];
    proof {
        assert(front.supertypes@ =~= seq![Supertype::Basic]);
        assert(front.color_indicator@ =~= Seq::<Color>::empty());
        assert(front.continuous_effects@ =~= Seq::<ContinuousEffect>::empty());
    }
    plain_card(id, front)
}

fn pacifism() -> (c: CardDef)
    ensures
        is_pacifism(c),
{
    let cost = ManaCost::new(vec![ManaSymbol::Generic(1), ManaSymbol::Colored(Color::White)]);
    let subtypes = vec![text("Aura")];
    let types = vec![CardType::Enchantment];
    proof {
        assert(views(subtypes@) =~= seq!["Aura"@]);
        assert(types@ =~= seq![CardType::Enchantment]);
        assert(cost.symbols@ =~= seq![ManaSymbol::Generic(1), ManaSymbol::Colored(Color::White)]);
    }
    let mut front = face("Pacifism", types, subtypes, None, None, Some(cost));
    front.continuous_effects = vec![
        ContinuousEffect::PreventAttack { scope: EffectScope::Attached },
        ContinuousEffect::PreventBlock { scope: EffectScope::Attached },
    ];
    proof {
        assert(front.supertypes@ =~= Seq::<Supertype>::empty());
        assert(front.color_indicator@ =~= Seq::<Color>::empty());
        assert(front.continuous_effects@ =~= seq![ContinuousEffect::PreventAttack { scope: EffectScope::Attached },
            ContinuousEffect::PreventBlock { scope: EffectScope::Attached }]);
    }
    let c = CardDef { id: CardId(4), front, back: None, target_requirement: TargetRequirement::Creature, chooses_copy_as_it_enters: false,
        grants_player_hexproof: false, grants_player_protection_from: Vec::new(),
        replacement: None, replacement_zones: Vec::new() };
    proof {
        assert(c.grants_player_protection_from@.len() == 0);
        assert(c.replacement_zones@.len() == 0);
    }
    c
}

fn runechanters_pike() -> (c: CardDef)
    ensures
        is_runechanters_pike(c),
{
    let cost = ManaCost::new(vec![ManaSymbol::Generic(2)]);
    let subtypes = vec![text("Equipment")];
    let types = vec![CardType::Artifact];
    proof {
        assert(views(subtypes@) =~= seq!["Equipment"@]);
        assert(types@ =~= seq![CardType::Artifact]);
        assert(cost.symbols@ =~= seq![ManaSymbol::Generic(2)]);
    }
    let mut front = face("Runechanter's Pike", types, subtypes, None, None, Some(cost));
    front.continuous_effects = vec![
        ContinuousEffect::GrantKeyword { keyword: Keyword::FirstStrike, scope: EffectScope::Attached },
    ];
    proof {
        assert(front.supertypes@ =~= Seq::<Supertype>::empty());
        assert(front.color_indicator@ =~= Seq::<Color>::empty());
        assert(front.continuous_effects@ =~= seq![ContinuousEffect::GrantKeyword { keyword: Keyword::FirstStrike, scope: EffectScope::Attached }]);
    }
    plain_card(CardId(5), front)
}

fn daybreak_ranger() -> (c: CardDef)
    ensures
        is_daybreak_ranger(c),
{
    let cost = ManaCost::new(vec![ManaSymbol::Generic(2), ManaSymbol::Colored(Color::Green)]);
    let subtypes = vec![text("Human"), text("Archer"), text("Werewolf")];
    let types = vec![CardType::Creature];
    proof {
        assert(views(subtypes@) =~= seq!["Human"@, "Archer"@, "Werewolf"@]);
        assert(types@ =~= seq![CardType::Creature]);
        assert(cost.symbols@ =~= seq![ManaSymbol::Generic(2), ManaSymbol::Colored(Color::Green)]);
    }
    let front = face("Daybreak Ranger", types, subtypes, Some(2), Some(2), Some(cost));
    let back_subtypes = vec![text("Werewolf")];
    let back_types = vec![CardType::Creature];
    proof {
        assert(views(back_subtypes@) =~= seq!["Werewolf"@]);
        assert(back_types@ =~= seq![CardType::Creature]);
    }
    let mut back = face("Nightfall Predator", back_types, back_subtypes, Some(4), Some(4), None);
    back.color_indicator = vec![Color::Green];
    proof {
        assert(front.supertypes@ =~= Seq::<Supertype>::empty());
        assert(front.color_indicator@ =~= Seq::<Color>::empty());
        assert(front.continuous_effects@ =~= Seq::<ContinuousEffect>::empty());
        assert(back.supertypes@ =~= Seq::<Supertype>::empty());
        assert(back.color_indicator@ =~= seq![Color::Green]);
        assert(back.continuous_effects@ =~= Seq::<ContinuousEffect>::empty());
    }
    let c = CardDef { id: CardId(6), front, back: Some(back), target_requirement: TargetRequirement::Untargeted, chooses_copy_as_it_enters: false,
        grants_player_hexproof: false, grants_player_protection_from: Vec::new(),
        replacement: None, replacement_zones: Vec::new() };
    proof {
        assert(c.grants_player_protection_from@.len() == 0);
        assert(c.replacement_zones@.len() == 0);
    }
    c
}

fn glorious_anthem() -> (c: CardDef)
    ensures
        is_glorious_anthem(c),
{
    let cost = ManaCost::new(vec![ManaSymbol::Generic(1), ManaSymbol::Colored(Color::White), ManaSymbol::Colored(Color::White)]);
    let types = vec![CardType::Enchantment];
    proof {
        assert(types@ =~= seq![CardType::Enchantment]);
        assert(cost.symbols@ =~= seq![ManaSymbol::Generic(1), ManaSymbol::Colored(Color::White), ManaSymbol::Colored(Color::White)]);
    }
    let mut front = face("Glorious Anthem", types, Vec::new(), None, None, Some(cost));
    front.continuous_effects = vec![
        ContinuousEffect::ModifyPT { power: 1, toughness: 1, scope: EffectScope::Global(CreatureFilter::ControlledByYou) },
    ];
    proof {
        assert(views(front.subtypes@) =~= Seq::<Seq<char>>::empty());
        assert(front.supertypes@ =~= Seq::<Supertype>::empty());
        assert(front.color_indicator@ =~= Seq::<Color>::empty());
        assert(front.continuous_effects@ =~= seq![ContinuousEffect::ModifyPT { power: 1, toughness: 1,
            scope: EffectScope::Global(CreatureFilter::ControlledByYou) }]);
    }
    plain_card(CardId(7), front)
}

} // verus!
