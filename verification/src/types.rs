use vstd::prelude::*;
use crate::util::{sum_of, lemma_sum_take_step, lemma_sum_prefix_le, lemma_take_full};

verus! {

/// The five colors (CR 105.1).
#[derive(Debug, Clone, Copy, PartialEq, Eq, Structural, PartialOrd, Ord, Hash)]
pub enum Color {
    White,
    Blue,
    Black,
    Red,
    Green,
}

/// A type of mana: one of the five colors, or colorless (CR 106.1).
#[derive(Debug, Clone, Copy, PartialEq, Eq, Structural, PartialOrd, Ord, Hash)]
pub enum ManaType {
    White,
    Blue,
    Black,
    Red,
    Green,
    Colorless,
}

/// The mana type a color's mana has.
pub open spec fn spec_mana_of(color: Color) -> ManaType {
    match color {
        Color::White => ManaType::White,
        Color::Blue => ManaType::Blue,
        Color::Black => ManaType::Black,
        Color::Red => ManaType::Red,
        Color::Green => ManaType::Green,
    }
}

/// The color of a mana type, `None` for colorless.
pub open spec fn spec_color_of(mt: ManaType) -> Option<Color> {
    match mt {
        ManaType::White => Some(Color::White),
        ManaType::Blue => Some(Color::Blue),
        ManaType::Black => Some(Color::Black),
        ManaType::Red => Some(Color::Red),
        ManaType::Green => Some(Color::Green),
        ManaType::Colorless => None,
    }
}

/// The mana type a color's mana has.
#[verifier::when_used_as_spec(spec_mana_of)]
pub fn mana_of(color: Color) -> (mt: ManaType)
    ensures
        mt == spec_mana_of(color),
{
    match color {
        Color::White => ManaType::White,
        Color::Blue => ManaType::Blue,
        Color::Black => ManaType::Black,
        Color::Red => ManaType::Red,
        Color::Green => ManaType::Green,
    }
}

/// The color of a mana type, `None` for colorless.
#[verifier::when_used_as_spec(spec_color_of)]
pub fn color_of(mt: ManaType) -> (c: Option<Color>)
    ensures
        c == spec_color_of(mt),
{
    match mt {
        ManaType::White => Some(Color::White),
        ManaType::Blue => Some(Color::Blue),
        ManaType::Black => Some(Color::Black),
        ManaType::Red => Some(Color::Red),
        ManaType::Green => Some(Color::Green),
        ManaType::Colorless => None,
    }
}

/// One symbol of a mana cost (CR 107.4).
#[derive(Debug, Clone, Copy, PartialEq, Eq, Structural)]
pub enum ManaSymbol {
    /// One mana of this color.
    Colored(Color),
    /// This much mana of any type.
    Generic(u32),
    /// This much colorless mana specifically ({C}).
    Colorless(u32),
    /// The variable X.
    X,
}

/// What a symbol adds to the `{C}` total.
pub open spec fn colorless_val(sym: ManaSymbol) -> int {
    match sym {
        ManaSymbol::Colorless(n) => n as int,
        _ => 0,
    }
}

/// What a symbol adds to the generic total.
pub open spec fn generic_val(sym: ManaSymbol) -> int {
    match sym {
        ManaSymbol::Generic(n) => n as int,
        _ => 0,
    }
}

/// Sum of the `{C}` symbols of a symbol sequence.
pub open spec fn spec_colorless_sum(s: Seq<ManaSymbol>) -> int {
    sum_of(s.map_values(|x: ManaSymbol| colorless_val(x)))
}

/// Sum of the generic symbols of a symbol sequence.
pub open spec fn spec_generic_sum(s: Seq<ManaSymbol>) -> int {
    sum_of(s.map_values(|x: ManaSymbol| generic_val(x)))
}

/// How many colored pips of `c` a symbol sequence has.
pub open spec fn spec_pips(s: Seq<ManaSymbol>, c: Color) -> int
    decreases s.len(),
{
    if s.len() == 0 {
        0
    } else {
        (if s[0] == ManaSymbol::Colored(c) {
            1int
        } else {
            0
        }) + spec_pips(s.drop_first(), c)
    }
}

/// Whether a symbol sequence has an X.
pub open spec fn spec_has_x(s: Seq<ManaSymbol>) -> bool {
    exists|i: int| 0 <= i < s.len() && s[i] == ManaSymbol::X
}

/// The colored symbols of a sequence, in order.
pub open spec fn spec_colored(s: Seq<ManaSymbol>) -> Seq<Color>
    decreases s.len(),
{
    if s.len() == 0 {
        Seq::empty()
    } else {
        match s[0] {
            ManaSymbol::Colored(c) => seq![c] + spec_colored(s.drop_first()),
            _ => spec_colored(s.drop_first()),
        }
    }
}

pub proof fn lemma_colorless_sum_nonneg(s: Seq<ManaSymbol>)
    ensures
        spec_colorless_sum(s) >= 0,
{
    crate::util::lemma_sum_nonneg(s.map_values(|x: ManaSymbol| colorless_val(x)));
}

pub proof fn lemma_generic_sum_nonneg(s: Seq<ManaSymbol>)
    ensures
        spec_generic_sum(s) >= 0,
{
    crate::util::lemma_sum_nonneg(s.map_values(|x: ManaSymbol| generic_val(x)));
}

/// The colors in WUBRG order.
pub open spec fn spec_wubrg() -> Seq<Color> {
    seq![Color::White, Color::Blue, Color::Black, Color::Red, Color::Green]
}

/// A mana cost: a list of symbols.
#[derive(Debug, Clone, PartialEq, Eq)]
pub struct ManaCost {
    pub symbols: Vec<ManaSymbol>,
}

impl ManaCost {
    /// The cost's `{C}` part and generic part each fit in a `u32`, which is
    /// how they are counted.
    pub open spec fn wf(&self) -> bool {
        &&& spec_colorless_sum(self.symbols@) <= u32::MAX
        &&& spec_generic_sum(self.symbols@) <= u32::MAX
    }

    /// A cost made of these symbols.
    pub fn new(symbols: Vec<ManaSymbol>) -> (c: ManaCost)
        ensures
            c.symbols@ == symbols@,
    {
        ManaCost { symbols }
    }

    /// The empty cost {0}.
    pub fn free() -> (c: ManaCost)
        ensures
            c.symbols@.len() == 0,
    {
        ManaCost { symbols: Vec::new() }
    }

    /// Total of the `{C}` symbols.
    pub fn colorless_amount(&self) -> (n: u32)
        requires
            spec_colorless_sum(self.symbols@) <= u32::MAX,
        ensures
            n == spec_colorless_sum(self.symbols@),
    {
        let ghost vals = self.symbols@.map_values(|x: ManaSymbol| colorless_val(x));
        let mut total: u32 = 0;
        let mut i: usize = 0;
        while i < self.symbols.len()
            invariant
                i <= self.symbols@.len(),
                vals == self.symbols@.map_values(|x: ManaSymbol| colorless_val(x)),
                sum_of(vals) <= u32::MAX,
                total == sum_of(vals.take(i as int)),
            decreases self.symbols@.len() - i,
        {
            proof {
                lemma_sum_take_step(vals, i as int);
                lemma_sum_prefix_le(vals, i + 1);
            }
            match self.symbols[i] {
                ManaSymbol::Colorless(n) => {
                    total = total + n;
                },
                _ => {},
            }
            i = i + 1;
        }
        proof { lemma_take_full(vals); }
        total
    }

    /// Total of the generic symbols.
    pub fn generic_amount(&self) -> (n: u32)
        requires
            spec_generic_sum(self.symbols@) <= u32::MAX,
        ensures
            n == spec_generic_sum(self.symbols@),
    {
        let ghost vals = self.symbols@.map_values(|x: ManaSymbol| generic_val(x));
        let mut total: u32 = 0;
        let mut i: usize = 0;
        while i < self.symbols.len()
            invariant
                i <= self.symbols@.len(),
                vals == self.symbols@.map_values(|x: ManaSymbol| generic_val(x)),
                sum_of(vals) <= u32::MAX,
                total == sum_of(vals.take(i as int)),
            decreases self.symbols@.len() - i,
        {
            proof {
                lemma_sum_take_step(vals, i as int);
                lemma_sum_prefix_le(vals, i + 1);
            }
            match self.symbols[i] {
                ManaSymbol::Generic(n) => {
                    total = total + n;
                },
                _ => {},
            }
            i = i + 1;
        }
        proof { lemma_take_full(vals); }
        total
    }


    /// How many colored pips of each color the cost has, one entry per
    /// color in WUBRG order.
    pub fn colored_requirements(&self) -> (r: Vec<(Color, u32)>)
        requires
            self.symbols@.len() <= u32::MAX,
        ensures
            r@.len() == 5,
            forall|i: int| 0 <= i < 5 ==> r@[i] == (spec_wubrg()[i], spec_pips(self.symbols@, spec_wubrg()[i]) as u32),
    {
        let mut r: Vec<(Color, u32)> = Vec::new();
        r.push((Color::White, self.pips(Color::White)));
        r.push((Color::Blue, self.pips(Color::Blue)));
        r.push((Color::Black, self.pips(Color::Black)));
        r.push((Color::Red, self.pips(Color::Red)));
        r.push((Color::Green, self.pips(Color::Green)));
        r
    }

    /// How many pips of one color the cost has.
    pub fn pips(&self, c: Color) -> (n: u32)
        requires
            self.symbols@.len() <= u32::MAX,
        ensures
            n == spec_pips(self.symbols@, c),
    {
        let mut n: u32 = 0;
        let mut i: usize = self.symbols.len();
        while i > 0
            invariant
                i <= self.symbols@.len() <= u32::MAX,
                n == spec_pips(self.symbols@.skip(i as int), c),
                n <= self.symbols@.len() - i,
            decreases i,
        {
            i = i - 1;
            proof { assert(self.symbols@.skip(i as int).drop_first() =~= self.symbols@.skip(i + 1)); }
            if self.symbols[i] == ManaSymbol::Colored(c) {
                n = n + 1;
            }
        }
        proof { assert(self.symbols@.skip(0) =~= self.symbols@); }
        n
    }

    /// Whether the cost has an X in it.
    pub fn has_x(&self) -> (b: bool)
        ensures
            b == spec_has_x(self.symbols@),
    {
        let mut i: usize = 0;
        while i < self.symbols.len()
            invariant
                i <= self.symbols@.len(),
                forall|j: int| 0 <= j < i ==> self.symbols@[j] != ManaSymbol::X,
            decreases self.symbols@.len() - i,
        {
            if self.symbols[i] == ManaSymbol::X {
                return true;
            }
            i = i + 1;
        }
        false
    }
}


/// Mana a player has floating, by type (CR 106.4).
#[derive(Debug, Clone, Copy, PartialEq, Eq, Structural)]
pub struct ManaPool {
    pub white: u32,
    pub blue: u32,
    pub black: u32,
    pub red: u32,
    pub green: u32,
    pub colorless: u32,
}

impl ManaPool {
    /// How much mana of this type the pool holds.
    pub open spec fn amount(self, mt: ManaType) -> u32 {
        match mt {
            ManaType::White => self.white,
            ManaType::Blue => self.blue,
            ManaType::Black => self.black,
            ManaType::Red => self.red,
            ManaType::Green => self.green,
            ManaType::Colorless => self.colorless,
        }
    }

    /// The pool with the amount of one type replaced.
    pub open spec fn with(self, mt: ManaType, n: u32) -> ManaPool {
        match mt {
            ManaType::White => ManaPool { white: n, ..self },
            ManaType::Blue => ManaPool { blue: n, ..self },
            ManaType::Black => ManaPool { black: n, ..self },
            ManaType::Red => ManaPool { red: n, ..self },
            ManaType::Green => ManaPool { green: n, ..self },
            ManaType::Colorless => ManaPool { colorless: n, ..self },
        }
    }

    /// All the mana in the pool.
    pub open spec fn spec_total(self) -> int {
        self.white + self.blue + self.black + self.red + self.green + self.colorless
    }

    /// The empty pool.
    pub open spec fn spec_new() -> ManaPool {
        ManaPool { white: 0, blue: 0, black: 0, red: 0, green: 0, colorless: 0 }
    }

    /// An empty pool.
    pub fn new() -> (p: ManaPool)
        ensures
            p == ManaPool::spec_new(),
            p.spec_total() == 0,
            forall|mt: ManaType| p.amount(mt) == 0,
    {
        ManaPool { white: 0, blue: 0, black: 0, red: 0, green: 0, colorless: 0 }
    }

    /// How much mana of this type the pool holds.
    pub fn get(&self, mt: ManaType) -> (n: u32)
        ensures
            n == self.amount(mt),
    {
        match mt {
            ManaType::White => self.white,
            ManaType::Blue => self.blue,
            ManaType::Black => self.black,
            ManaType::Red => self.red,
            ManaType::Green => self.green,
            ManaType::Colorless => self.colorless,
        }
    }

    /// Set the amount of one type.
    pub fn set(&mut self, mt: ManaType, n: u32)
        ensures
            *final(self) == old(self).with(mt, n),
    {
        match mt {
            ManaType::White => self.white = n,
            ManaType::Blue => self.blue = n,
            ManaType::Black => self.black = n,
            ManaType::Red => self.red = n,
            ManaType::Green => self.green = n,
            ManaType::Colorless => self.colorless = n,
        }
    }

    /// Add `amount` mana of one type.
    pub fn add(&mut self, mt: ManaType, amount: u32)
        requires
            old(self).amount(mt) + amount <= u32::MAX,
        ensures
            *final(self) == old(self).with(mt, (old(self).amount(mt) + amount) as u32),
    {
        let cur = self.get(mt);
        self.set(mt, cur + amount);
    }

    /// All the mana in the pool.
    pub fn total(&self) -> (n: u64)
        ensures
            n == self.spec_total(),
    {
        self.white as u64 + self.blue as u64 + self.black as u64 + self.red as u64
            + self.green as u64 + self.colorless as u64
    }

    /// Empty the pool (CR 500.4).
    pub fn clear(&mut self)
        ensures
            final(self).spec_total() == 0,
            forall|mt: ManaType| final(self).amount(mt) == 0,
    {
        *self = ManaPool::new();
    }
}

/// A zone (CR 400.1).
#[derive(Debug, Clone, Copy, PartialEq, Eq, Structural, PartialOrd, Ord, Hash)]
pub enum Zone {
    Library,
    Hand,
    Battlefield,
    Graveyard,
    Stack,
    Exile,
    Command,
}

/// A step of the turn (CR 500.1).
#[derive(Debug, Clone, Copy, PartialEq, Eq, Structural)]
pub enum Step {
    Untap,
    Upkeep,
    Draw,
    PrecombatMain,
    BeginCombat,
    DeclareAttackers,
    DeclareBlockers,
    CombatDamage,
    EndCombat,
    PostcombatMain,
    End,
    Cleanup,
}

/// A keyword ability (CR 702).
#[derive(Debug, Clone, Copy, PartialEq, Eq, Structural, PartialOrd, Ord, Hash)]
pub enum Keyword {
    Flying,
    Reach,
    Haste,
    Vigilance,
    Trample,
    Deathtouch,
    Lifelink,
    FirstStrike,
    DoubleStrike,
    Hexproof,
    Indestructible,
    Defender,
    Menace,
    Intimidate,
    Flash,
}

/// A card type (CR 300.1).
#[derive(Debug, Clone, Copy, PartialEq, Eq, Structural, PartialOrd, Ord, Hash)]
pub enum CardType {
    Artifact,
    Creature,
    Enchantment,
    Instant,
    Land,
    Planeswalker,
    Sorcery,
}

impl CardType {
    /// Whether objects of this type are permanents (CR 110.4).
    pub open spec fn spec_is_permanent(&self) -> bool {
        !(*self == CardType::Instant || *self == CardType::Sorcery)
    }

    /// Whether objects of this type are permanents (CR 110.4).
    #[verifier::when_used_as_spec(spec_is_permanent)]
    pub fn is_permanent(&self) -> (b: bool)
        ensures
            b == self.spec_is_permanent(),
    {
        !matches!(self, CardType::Instant | CardType::Sorcery)
    }
}

/// A supertype (CR 205.4).
#[derive(Debug, Clone, Copy, PartialEq, Eq, Structural, PartialOrd, Ord, Hash)]
pub enum Supertype {
    Legendary,
    Basic,
    Snow,
}

/// A kind of counter (CR 122).
#[derive(Debug, Clone, Copy, PartialEq, Eq, Structural, PartialOrd, Ord, Hash)]
pub enum CounterType {
    PlusOnePlusOne,
    MinusOneMinusOne,
    Loyalty,
    Charge,
    Slime,
}

/// Which creatures an effect is about, seen from the effect's source.
#[derive(Debug)]
pub enum CreatureFilter {
    ControlledByYou,
    ControlledByOpponent,
    ControlledByYouToken,
    HasSubtype(String),
    HasCardType(CardType),
    HasKeyword(Keyword),
    And(Vec<CreatureFilter>),
    Or(Vec<CreatureFilter>),
    Not(Box<CreatureFilter>),
    Attacking,
    Blocking,
    /// Controlled by the player the source is attached to (a Curse).
    ControlledByAttachedPlayer,
}

/// What a continuous effect applies to.
#[derive(Debug)]
pub enum EffectScope {
    /// The source itself.
    OnSelf,
    /// What the source is attached to.
    Attached,
    /// Every creature matching the filter.
    Global(CreatureFilter),
    /// Every other creature matching the filter.
    GlobalOther(CreatureFilter),
}

/// A condition a continuous effect holds under.
#[derive(Debug)]
pub enum EffectCondition {
    YouControlSubtype(String),
    OpponentControlsSubtype(String),
    SelfHasKeyword(Keyword),
    AttachedHasSubtype(String),
    AttachedLacksSubtype(String),
}

/// A continuous effect a permanent's static ability generates (CR 611.3).
#[derive(Debug)]
pub enum ContinuousEffect {
    ModifyPT { power: i32, toughness: i32, scope: EffectScope },
    GrantKeyword { keyword: Keyword, scope: EffectScope },
    PreventAttack { scope: EffectScope },
    PreventBlock { scope: EffectScope },
    ForceAttack { scope: EffectScope },
    CantBeBlocked { scope: EffectScope },
    PreventUntap { scope: EffectScope },
    ProtectionFrom { filter: CreatureFilter, scope: EffectScope },
    ProtectionFromSubtype { subtype: String, scope: EffectScope },
    /// Spells of this type cost this much less to cast.
    CostReduction { card_type: CardType, amount: u32 },
    /// The inner effect applies only while the condition holds.
    When { condition: EffectCondition, effect: Box<ContinuousEffect> },
}

impl ContinuousEffect {
    /// The scope of an effect that applies to permanents; `None` for a rule
    /// modification.
    pub open spec fn spec_scope(&self) -> Option<&EffectScope> {
        match self {
            ContinuousEffect::ModifyPT { scope, .. } => Some(scope),
            ContinuousEffect::GrantKeyword { scope, .. } => Some(scope),
            ContinuousEffect::PreventAttack { scope } => Some(scope),
            ContinuousEffect::PreventBlock { scope } => Some(scope),
            ContinuousEffect::ForceAttack { scope } => Some(scope),
            ContinuousEffect::CantBeBlocked { scope } => Some(scope),
            ContinuousEffect::PreventUntap { scope } => Some(scope),
            ContinuousEffect::ProtectionFrom { scope, .. } => Some(scope),
            ContinuousEffect::ProtectionFromSubtype { scope, .. } => Some(scope),
            ContinuousEffect::CostReduction { .. } => None,
            ContinuousEffect::When { .. } => None,
        }
    }

    /// The scope of an effect that applies to permanents; `None` for a rule
    /// modification.
    #[verifier::when_used_as_spec(spec_scope)]
    pub fn scope(&self) -> (r: Option<&EffectScope>)
        ensures
            r == self.spec_scope(),
    {
        match self {
            ContinuousEffect::ModifyPT { scope, .. } => Some(scope),
            ContinuousEffect::GrantKeyword { scope, .. } => Some(scope),
            ContinuousEffect::PreventAttack { scope } => Some(scope),
            ContinuousEffect::PreventBlock { scope } => Some(scope),
            ContinuousEffect::ForceAttack { scope } => Some(scope),
            ContinuousEffect::CantBeBlocked { scope } => Some(scope),
            ContinuousEffect::PreventUntap { scope } => Some(scope),
            ContinuousEffect::ProtectionFrom { scope, .. } => Some(scope),
            ContinuousEffect::ProtectionFromSubtype { scope, .. } => Some(scope),
            ContinuousEffect::CostReduction { .. } => None,
            ContinuousEffect::When { .. } => None,
        }
    }

    /// The effect with one `When` wrapper taken off, and its condition.
    pub open spec fn spec_unwrap_condition(&self) -> (&ContinuousEffect, Option<&EffectCondition>) {
        match self {
            ContinuousEffect::When { condition, effect } => (&**effect, Some(condition)),
            _ => (self, None),
        }
    }

    /// The effect with one `When` wrapper taken off, and its condition.
    #[verifier::when_used_as_spec(spec_unwrap_condition)]
    pub fn unwrap_condition(&self) -> (r: (&ContinuousEffect, Option<&EffectCondition>))
        ensures
            r == self.spec_unwrap_condition(),
    {
        match self {
            ContinuousEffect::When { condition, effect } => (&**effect, Some(condition)),
            _ => (self, None),
        }
    }
}

} // verus!
