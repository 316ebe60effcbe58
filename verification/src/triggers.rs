//! Triggered abilities between triggering and resolving: what triggered,
//! whose ability it is, and how the stack shows it.

use vstd::prelude::*;
use crate::actions::Target;
use crate::cards::{CardRegistry, TargetRequirement, TriggerKind, TriggeredAbilityDef};
use crate::ids::{CardId, ObjectId, PlayerId};
use crate::objects::logged;
use crate::state::{GameState, LogLevel};
use crate::types::Zone;
use crate::zones::moved;

verus! {

/// The object whose triggered ability this is, captured when the trigger is
/// created (last known information, CR 603.10a).
#[derive(Debug)]
pub struct TriggerSource {
    pub id: ObjectId,
    pub card_id: CardId,
    /// Who controls the ability. For a leave-the-battlefield trigger this is
    /// who controlled the permanent immediately before it left (CR 603.10c).
    pub controller: PlayerId,
    /// The ability's description, for the stack view.
    pub description: String,
    /// Targets chosen as the trigger goes on the stack (CR 603.3d).
    pub chosen_targets: Vec<Target>,
    /// Whether the permanent was on its back face when this triggered.
    pub from_back_face: bool,
}

impl TriggerSource {
    /// A source with no targets chosen yet, from the front face.
    pub fn new(id: ObjectId, card_id: CardId, controller: PlayerId, description: String) -> (s: TriggerSource)
        ensures
            s.id == id,
            s.card_id == card_id,
            s.controller == controller,
            s.description == description,
            s.chosen_targets@.len() == 0,
            !s.from_back_face,
    {
        TriggerSource { id, card_id, controller, description, chosen_targets: Vec::new(), from_back_face: false }
    }

    /// Record which face this triggered from (CR 712.8).
    pub fn from_face(self, is_transformed: bool) -> (s: TriggerSource)
        ensures
            s == (TriggerSource { from_back_face: is_transformed, ..self }),
    {
        let mut s = self;
        s.from_back_face = is_transformed;
        s
    }
}

/// Last known information about a creature that died (CR 603.10a).
#[derive(Debug)]
pub struct DeadCreature {
    pub id: ObjectId,
    pub controller: PlayerId,
    pub damaged_by: Vec<ObjectId>,
    pub toughness: i32,
    pub is_token: bool,
}

/// What the trigger triggered on.
#[derive(Debug)]
pub enum TriggerEvent {
    SelfDies,
    CreatureDied { dead: DeadCreature },
    SelfEntered,
    CreatureEntered { entered: ObjectId, entered_controller: PlayerId },
    CombatDamageToPlayer { damaged_player: PlayerId, amount: u32 },
    AnyCombatDamageToPlayer { dealer: ObjectId, damaged_player: PlayerId, amount: u32 },
    AnyDamageToPlayer { dealer: ObjectId, damaged_player: PlayerId, amount: u32 },
    CombatDamageToCreature { damaged_creature: ObjectId, amount: u32 },
    SpellCast { caster: PlayerId, spell_id: ObjectId },
    Attacks { attacker: ObjectId, defending_player: PlayerId },
    CreatureAttacked { attacker: ObjectId, attacker_controller: PlayerId },
    Blocks { blocked_attacker: ObjectId },
    BecomesBlocked { blocker_id: ObjectId },
    CreatureCardMilled { milled_object: ObjectId, milled_player: PlayerId },
    LeftBattlefield,
    Upkeep,
    EndStep,
    EndCombat,
    /// A state-triggered ability (CR 603.8).
    StateTriggered,
    /// A delayed ability that exiles a token at end of combat (CR 603.7).
    DelayedTokenExile { target_id: ObjectId },
}

impl TriggerEvent {
    /// The kind of printed ability that describes this trigger; `None` for
    /// the two the engine raises itself.
    pub open spec fn spec_kind(&self) -> Option<TriggerKind> {
        match self {
            TriggerEvent::SelfDies => Some(TriggerKind::SelfDies),
            TriggerEvent::CreatureDied { .. } => Some(TriggerKind::AnyCreatureDies),
            TriggerEvent::SelfEntered => Some(TriggerKind::EntersBattlefield),
            TriggerEvent::CreatureEntered { .. } => Some(TriggerKind::AnyCreatureEnters),
            TriggerEvent::CombatDamageToPlayer { .. } => Some(TriggerKind::CombatDamageToPlayer),
            TriggerEvent::AnyCombatDamageToPlayer { .. } => Some(TriggerKind::AnyCombatDamageToPlayer),
            TriggerEvent::AnyDamageToPlayer { .. } => Some(TriggerKind::AnyDamageToPlayer),
            TriggerEvent::CombatDamageToCreature { .. } => Some(TriggerKind::DealsCombatDamageToCreature),
            TriggerEvent::SpellCast { .. } => Some(TriggerKind::SpellCast),
            TriggerEvent::Attacks { .. } => Some(TriggerKind::Attacks),
            TriggerEvent::CreatureAttacked { .. } => Some(TriggerKind::AnyCreatureAttacks),
            TriggerEvent::Blocks { .. } => Some(TriggerKind::Blocks),
            TriggerEvent::BecomesBlocked { .. } => Some(TriggerKind::BecomesBlocked),
            TriggerEvent::CreatureCardMilled { .. } => Some(TriggerKind::CreatureCardMilled),
            TriggerEvent::LeftBattlefield => Some(TriggerKind::LeavesBattlefield),
            TriggerEvent::Upkeep => Some(TriggerKind::Upkeep),
            TriggerEvent::EndStep => Some(TriggerKind::EndStep),
            TriggerEvent::EndCombat => Some(TriggerKind::EndCombat),
            TriggerEvent::StateTriggered => None,
            TriggerEvent::DelayedTokenExile { .. } => None,
        }
    }

    /// The kind of printed ability that describes this trigger.
    #[verifier::when_used_as_spec(spec_kind)]
    pub fn kind(&self) -> (k: Option<TriggerKind>)
        ensures
            k == self.spec_kind(),
    {
        match self {
            TriggerEvent::SelfDies => Some(TriggerKind::SelfDies),
            TriggerEvent::CreatureDied { .. } => Some(TriggerKind::AnyCreatureDies),
            TriggerEvent::SelfEntered => Some(TriggerKind::EntersBattlefield),
            TriggerEvent::CreatureEntered { .. } => Some(TriggerKind::AnyCreatureEnters),
            TriggerEvent::CombatDamageToPlayer { .. } => Some(TriggerKind::CombatDamageToPlayer),
            TriggerEvent::AnyCombatDamageToPlayer { .. } => Some(TriggerKind::AnyCombatDamageToPlayer),
            TriggerEvent::AnyDamageToPlayer { .. } => Some(TriggerKind::AnyDamageToPlayer),
            TriggerEvent::CombatDamageToCreature { .. } => Some(TriggerKind::DealsCombatDamageToCreature),
            TriggerEvent::SpellCast { .. } => Some(TriggerKind::SpellCast),
            TriggerEvent::Attacks { .. } => Some(TriggerKind::Attacks),
            TriggerEvent::CreatureAttacked { .. } => Some(TriggerKind::AnyCreatureAttacks),
            TriggerEvent::Blocks { .. } => Some(TriggerKind::Blocks),
            TriggerEvent::BecomesBlocked { .. } => Some(TriggerKind::BecomesBlocked),
            TriggerEvent::CreatureCardMilled { .. } => Some(TriggerKind::CreatureCardMilled),
            TriggerEvent::LeftBattlefield => Some(TriggerKind::LeavesBattlefield),
            TriggerEvent::Upkeep => Some(TriggerKind::Upkeep),
            TriggerEvent::EndStep => Some(TriggerKind::EndStep),
            TriggerEvent::EndCombat => Some(TriggerKind::EndCombat),
            TriggerEvent::StateTriggered => None,
            TriggerEvent::DelayedTokenExile { .. } => None,
        }
    }

    /// How the stack view names a trigger of this kind.
    pub open spec fn spec_phrase(&self) -> Seq<char> {
        match self {
            TriggerEvent::SelfDies => "dies trigger"@,
            TriggerEvent::CreatureDied { .. } => "triggered ability"@,
            TriggerEvent::CreatureEntered { .. } => "triggered ability"@,
            TriggerEvent::AnyCombatDamageToPlayer { .. } => "triggered ability"@,
            TriggerEvent::AnyDamageToPlayer { .. } => "triggered ability"@,
            TriggerEvent::SpellCast { .. } => "triggered ability"@,
            TriggerEvent::SelfEntered => "ETB trigger"@,
            TriggerEvent::CombatDamageToPlayer { .. } => "combat damage trigger"@,
            TriggerEvent::CombatDamageToCreature { .. } => "combat damage trigger"@,
            TriggerEvent::Attacks { .. } => "attack trigger"@,
            TriggerEvent::CreatureAttacked { .. } => "attack trigger"@,
            TriggerEvent::Blocks { .. } => "block trigger"@,
            TriggerEvent::BecomesBlocked { .. } => "block trigger"@,
            TriggerEvent::CreatureCardMilled { .. } => "mill-watcher trigger"@,
            TriggerEvent::LeftBattlefield => "LTB trigger"@,
            TriggerEvent::Upkeep => "upkeep trigger"@,
            TriggerEvent::EndStep => "end step trigger"@,
            TriggerEvent::EndCombat => "end of combat trigger"@,
            TriggerEvent::StateTriggered => "state-triggered ability"@,
            TriggerEvent::DelayedTokenExile { .. } => "delayed exile trigger"@,
        }
    }

    /// How the stack view names a trigger of this kind.
    pub fn phrase(&self) -> (s: &'static str)
        ensures
            s@ == self.spec_phrase(),
    {
        match self {
            TriggerEvent::SelfDies => "dies trigger",
            TriggerEvent::CreatureDied { .. } => "triggered ability",
            TriggerEvent::CreatureEntered { .. } => "triggered ability",
            TriggerEvent::AnyCombatDamageToPlayer { .. } => "triggered ability",
            TriggerEvent::AnyDamageToPlayer { .. } => "triggered ability",
            TriggerEvent::SpellCast { .. } => "triggered ability",
            TriggerEvent::SelfEntered => "ETB trigger",
            TriggerEvent::CombatDamageToPlayer { .. } => "combat damage trigger",
            TriggerEvent::CombatDamageToCreature { .. } => "combat damage trigger",
            TriggerEvent::Attacks { .. } => "attack trigger",
            TriggerEvent::CreatureAttacked { .. } => "attack trigger",
            TriggerEvent::Blocks { .. } => "block trigger",
            TriggerEvent::BecomesBlocked { .. } => "block trigger",
            TriggerEvent::CreatureCardMilled { .. } => "mill-watcher trigger",
            TriggerEvent::LeftBattlefield => "LTB trigger",
            TriggerEvent::Upkeep => "upkeep trigger",
            TriggerEvent::EndStep => "end step trigger",
            TriggerEvent::EndCombat => "end of combat trigger",
            TriggerEvent::StateTriggered => "state-triggered ability",
            TriggerEvent::DelayedTokenExile { .. } => "delayed exile trigger",
        }
    }
}

/// A triggered ability collected but not yet resolved: its source and the
/// event it triggered on.
#[derive(Debug)]
pub struct PendingTrigger {
    pub source: TriggerSource,
    pub event: TriggerEvent,
}

impl PendingTrigger {
    pub fn new(source: TriggerSource, event: TriggerEvent) -> (t: PendingTrigger)
        ensures
            t == (PendingTrigger { source, event }),
    {
        PendingTrigger { source, event }
    }

    /// The player who controls this trigger.
    pub fn controller(&self) -> (p: PlayerId)
        ensures
            p == self.source.controller,
    {
        self.source.controller
    }

    /// The object the trigger fires from.
    pub fn source_object(&self) -> (id: ObjectId)
        ensures
            id == self.source.id,
    {
        self.source.id
    }

    /// The card whose ability this is.
    pub fn behavior_card_id(&self) -> (c: CardId)
        ensures
            c == self.source.card_id,
    {
        self.source.card_id
    }

    /// The kind of printed ability that describes this trigger.
    pub fn kind(&self) -> (k: Option<TriggerKind>)
        ensures
            k == self.event.spec_kind(),
    {
        self.event.kind()
    }

    /// The targets chosen as the trigger went on the stack.
    pub fn chosen_targets(&self) -> (t: &[Target])
        ensures
            t@ == self.source.chosen_targets@,
    {
        self.source.chosen_targets.as_slice()
    }

    /// The name the stack shows: the source card's name (its back face's
    /// when `transformed`), the kind of trigger, and the description.
    pub open spec fn spec_display_name(&self, registry: &CardRegistry, transformed: bool) -> Seq<char> {
        let name = match registry.spec_get(self.source.card_id) {
            Some(c) => if transformed && c.back is Some { c.back.unwrap().name@ } else { c.front.name@ },
            None => "Unknown"@,
        };
        if self.source.description@.len() == 0 {
            name + "'s "@ + self.event.spec_phrase()
        } else {
            name + "'s "@ + self.event.spec_phrase() + " ("@ + self.source.description@ + ")"@
        }
    }

    /// Display name for the stack view.
    pub fn display_name(&self, registry: &CardRegistry) -> (s: String)
        ensures
            s@ == self.spec_display_name(registry, false),
    {
        self.display_name_with_state(registry, None)
    }

    /// Display name for the stack view; given the game, a transformed source
    /// shows its back face's name.
    pub fn display_name_with_state(&self, registry: &CardRegistry, state: Option<&GameState>) -> (s: String)
        ensures
            s@ == self.spec_display_name(registry, match state {
                Some(st) => st.spec_obj(self.source.id) matches Some(o) && o.is_transformed,
                None => false,
            }),
    {
        let transformed = match state {
            Some(st) => match st.get_object(self.source.id) {
                Some(o) => o.is_transformed,
                None => false,
            },
            None => false,
        };
        let mut s = match registry.get(self.source.card_id) {
            Some(c) => {
                if transformed && c.back.is_some() {
                    match &c.back {
                        Some(b) => b.name.clone(),
                        None => c.front.name.clone(),
                    }
                } else {
                    c.front.name.clone()
                }
            },
            None => String::from_str("Unknown"),
        };
        proof {
            reveal_strlit("Unknown");
            reveal_strlit("'s ");
            reveal_strlit(" (");
            reveal_strlit(")");
        }
        s.append("'s ");
        s.append(self.event.phrase());
        if !self.source.description.as_str().is_empty() {
            s.append(" (");
            s.append(self.source.description.as_str());
            s.append(")");
        }
        s
    }
}


/// The position of the first ability of this kind.
pub open spec fn first_of_kind(abilities: Seq<TriggeredAbilityDef>, kind: TriggerKind) -> Option<int>
    decreases abilities.len(),
{
    if abilities.len() == 0 {
        None
    } else {
        match first_of_kind(abilities.drop_last(), kind) {
            Some(i) => Some(i),
            None => if abilities.last().kind == kind { Some(abilities.len() - 1) } else { None },
        }
    }
}

/// The description of the first ability of this kind, or nothing.
pub open spec fn description_of_kind(abilities: Seq<TriggeredAbilityDef>, kind: TriggerKind) -> Option<Seq<char>> {
    match first_of_kind(abilities, kind) {
        Some(i) => Some(abilities[i].description@),
        None => None,
    }
}

/// A trigger's description from the card: the front face's ability of the
/// kind, else, on a transformed card, the back face's; else empty.
pub open spec fn spec_trigger_description(reg: CardRegistry, card_id: CardId, kind: TriggerKind, is_transformed: bool) -> Seq<char> {
    match reg.spec_get(card_id) {
        Some(d) => match description_of_kind(d.front.triggered_abilities@, kind) {
            Some(t) => t,
            None => if is_transformed && d.back is Some {
                match description_of_kind(d.back.unwrap().triggered_abilities@, kind) {
                    Some(t) => t,
                    None => Seq::empty(),
                }
            } else {
                Seq::empty()
            },
        },
        None => Seq::empty(),
    }
}

/// A trigger's description from the face showing only.
pub open spec fn spec_face_trigger_description(reg: CardRegistry, card_id: CardId, kind: TriggerKind, is_transformed: bool) -> Seq<char> {
    match reg.spec_get(card_id) {
        Some(d) => {
            let abilities = if is_transformed {
                match d.back {
                    Some(b) => b.triggered_abilities@,
                    None => Seq::empty(),
                }
            } else {
                d.front.triggered_abilities@
            };
            match description_of_kind(abilities, kind) {
                Some(t) => t,
                None => Seq::empty(),
            }
        },
        None => Seq::empty(),
    }
}

/// Whether either face of the card has an ability of this kind.
pub open spec fn spec_card_has_trigger(reg: CardRegistry, card_id: CardId, kind: TriggerKind) -> bool {
    match reg.spec_get(card_id) {
        Some(d) => first_of_kind(d.front.triggered_abilities@, kind) is Some
            || (d.back matches Some(b) && first_of_kind(b.triggered_abilities@, kind) is Some),
        None => false,
    }
}

fn find_of_kind(abilities: &Vec<TriggeredAbilityDef>, kind: TriggerKind) -> (r: Option<usize>)
    ensures
        match r {
            Some(i) => first_of_kind(abilities@, kind) == Some(i as int) && i < abilities@.len(),
            None => first_of_kind(abilities@, kind) is None,
        },
{
    let mut i: usize = 0;
    while i < abilities.len()
        invariant
            i <= abilities@.len(),
            first_of_kind(abilities@.take(i as int), kind) is None,
        decreases abilities@.len() - i,
    {
        proof {
            assert(abilities@.take(i + 1).drop_last() =~= abilities@.take(i as int));
        }
        if abilities[i].kind == kind {
            proof {
                lemma_first_of_kind_prefix(abilities@, kind, i + 1);
            }
            return Some(i);
        }
        i = i + 1;
    }
    proof {
        assert(abilities@.take(i as int) =~= abilities@);
    }
    None
}

/// A match in a prefix is the first match overall.
proof fn lemma_first_of_kind_prefix(a: Seq<TriggeredAbilityDef>, kind: TriggerKind, n: int)
    requires
        0 <= n <= a.len(),
        first_of_kind(a.take(n), kind) is Some,
    ensures
        first_of_kind(a, kind) == first_of_kind(a.take(n), kind),
    decreases a.len() - n,
{
    if n < a.len() {
        assert(a.take(n + 1).drop_last() =~= a.take(n));
        lemma_first_of_kind_prefix(a, kind, n + 1);
    } else {
        assert(a.take(n) =~= a);
    }
}

fn description_in(abilities: &Vec<TriggeredAbilityDef>, kind: TriggerKind) -> (r: Option<String>)
    ensures
        match r {
            Some(t) => description_of_kind(abilities@, kind) == Some(t@),
            None => description_of_kind(abilities@, kind) is None,
        },
{
    match find_of_kind(abilities, kind) {
        Some(i) => Some(abilities[i].description.clone()),
        None => None,
    }
}

/// The description of a trigger of this kind, from the card's front face,
/// or its back face when it is transformed; empty when neither has one.
pub fn trigger_description(registry: &CardRegistry, card_id: CardId, kind: TriggerKind, is_transformed: bool) -> (s: String)
    ensures
        s@ == spec_trigger_description(*registry, card_id, kind, is_transformed),
{
    match registry.get(card_id) {
        Some(d) => {
            match description_in(&d.front.triggered_abilities, kind) {
                Some(t) => return t,
                None => {},
            }
            if is_transformed {
                match &d.back {
                    Some(b) => match description_in(&b.triggered_abilities, kind) {
                        Some(t) => return t,
                        None => {},
                    },
                    None => {},
                }
            }
            String::new()
        },
        None => String::new(),
    }
}

/// Whether the card has an ability of this kind on either face.
pub fn card_has_trigger(registry: &CardRegistry, card_id: CardId, kind: TriggerKind) -> (b: bool)
    ensures
        b == spec_card_has_trigger(*registry, card_id, kind),
{
    match registry.get(card_id) {
        Some(d) => {
            if find_of_kind(&d.front.triggered_abilities, kind).is_some() {
                return true;
            }
            match &d.back {
                Some(b) => find_of_kind(&b.triggered_abilities, kind).is_some(),
                None => false,
            }
        },
        None => false,
    }
}

/// The description of a trigger of this kind from the face showing only;
/// empty when that face has none.
pub fn face_trigger_description(registry: &CardRegistry, card_id: CardId, kind: TriggerKind, is_transformed: bool) -> (s: String)
    ensures
        s@ == spec_face_trigger_description(*registry, card_id, kind, is_transformed),
{
    match registry.get(card_id) {
        Some(d) => {
            let found = if is_transformed {
                match &d.back {
                    Some(b) => description_in(&b.triggered_abilities, kind),
                    None => None,
                }
            } else {
                description_in(&d.front.triggered_abilities, kind)
            };
            match found {
                Some(t) => t,
                None => String::new(),
            }
        },
        None => String::new(),
    }
}

/// The target requirement of the card's front-face ability of this kind,
/// if it has one.
pub fn target_requirement<'a>(registry: &'a CardRegistry, card_id: CardId, kind: Option<TriggerKind>) -> (r: Option<&'a TargetRequirement>)
    ensures
        match r {
            Some(t) => kind matches Some(k) && (registry.spec_get(card_id) matches Some(d)
                && (first_of_kind(d.front.triggered_abilities@, k) matches Some(i)
                    && d.front.triggered_abilities@[i].target_requirement == Some(*t))),
            None => match kind {
                Some(k) => match registry.spec_get(card_id) {
                    Some(d) => match first_of_kind(d.front.triggered_abilities@, k) {
                        Some(i) => d.front.triggered_abilities@[i].target_requirement is None,
                        None => true,
                    },
                    None => true,
                },
                None => true,
            },
        },
{
    let k = match kind {
        Some(k) => k,
        None => return None,
    };
    let d = match registry.get(card_id) {
        Some(d) => d,
        None => return None,
    };
    match find_of_kind(&d.front.triggered_abilities, k) {
        Some(i) => match &d.front.triggered_abilities[i].target_requirement {
            Some(t) => Some(t),
            None => None,
        },
        None => None,
    }
}

/// The log line of a token exiled at end of combat.
pub open spec fn delayed_exile_line() -> Seq<char> {
    "Token exiled by delayed end-of-combat trigger"@
}

/// CR 603.7d: the delayed ability exiles the token it was created for, if
/// that token is still on the battlefield, and says so.
pub fn exile_delayed_token(state: &mut GameState, target_id: ObjectId, registry: &CardRegistry)
    requires
        match old(state).spec_obj(target_id) {
            Some(o) => o.zone == Zone::Battlefield ==> (o.owner.0 as int) < old(state).players@.len(),
            None => true,
        },
    ensures
        if old(state).in_zone(target_id, Zone::Battlefield) {
            exists|mid: GameState| #[trigger] moved(*old(state), mid, target_id, Zone::Exile, None, *registry, true)
                && logged(mid.game_log@, final(state).game_log@, LogLevel::Event, delayed_exile_line())
                && *final(state) == (GameState { game_log: final(state).game_log, ..mid })
        } else {
            *final(state) == *old(state)
        },
{
    let on_battlefield = match state.get_object(target_id) {
        Some(o) => o.zone == Zone::Battlefield,
        None => false,
    };
    if on_battlefield {
        let r = state.move_object(target_id, Zone::Exile, registry);
        proof {
            reveal_strlit("Token exiled by delayed end-of-combat trigger");
        }
        let ghost mid = *state;
        state.log(LogLevel::Event, String::from_str("Token exiled by delayed end-of-combat trigger"));
        proof {
            assert(r);
            assert(moved(*old(state), mid, target_id, Zone::Exile, None, *registry, true));
        }
    }
}
} // verus!
