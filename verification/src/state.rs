//! The game state: every object, every player, the stack, combat, and the
//! bookkeeping effects keep. Objects are held in one vector ordered by id.

use vstd::prelude::*;
use crate::actions::Target;
use crate::cards::{CardRegistry, TargetRequirement};
use crate::events::{GameEvent, LossReason};
use crate::ids::{CardId, ObjectId, PlayerId};
use crate::text::{decimal, spec_decimal};
use crate::triggers::PendingTrigger;
use crate::types::{
    CardType, Color, ContinuousEffect, CounterType, CreatureFilter, Keyword, ManaCost, ManaPool,
    Step, Zone,
};

verus! {

/// An entry on the stack: a spell, a triggered ability, or an activated
/// ability.
#[derive(Debug)]
pub enum StackEntry {
    Spell(ObjectId),
    Trigger(PendingTrigger),
    /// An activated ability (CR 602.2a).
    Ability {
        source_id: ObjectId,
        ability_index: usize,
        behavior_card_id: CardId,
        targets: Vec<Target>,
        activator: PlayerId,
        x_value: Option<u32>,
        /// What the ability asks of its target, captured when it went on the
        /// stack (CR 601.2c, re-checked per CR 608.2b).
        target_requirement: Option<TargetRequirement>,
        /// The creature sacrificed to pay the cost, if any.
        sacrificed: Option<ObjectId>,
        /// Its toughness as it last existed on the battlefield (CR 608.2h).
        sacrificed_toughness: Option<i32>,
        /// A planeswalker loyalty ability (CR 606.5).
        loyalty: bool,
    },
}

impl StackEntry {
    /// The spell's object, if this is a spell.
    pub fn as_spell(&self) -> (r: Option<ObjectId>)
        ensures
            r == (match self {
                StackEntry::Spell(id) => Some(*id),
                _ => None,
            }),
    {
        match self {
            StackEntry::Spell(id) => Some(*id),
            _ => None,
        }
    }

    /// The trigger, if this is a triggered ability.
    pub fn as_trigger(&self) -> (r: Option<&PendingTrigger>)
        ensures
            match self {
                StackEntry::Trigger(t) => r == Some(t),
                _ => r is None,
            },
    {
        match self {
            StackEntry::Trigger(t) => Some(t),
            _ => None,
        }
    }

    /// How the stack view names this entry.
    pub open spec fn spec_display_name(&self, registry: &CardRegistry) -> Seq<char> {
        match self {
            StackEntry::Spell(id) => "Spell("@ + spec_decimal(id.0 as nat) + ")"@,
            StackEntry::Trigger(t) => t.spec_display_name(registry, false),
            StackEntry::Ability { behavior_card_id, .. } => {
                let name = match registry.spec_get(*behavior_card_id) {
                    Some(c) => c.front.name@,
                    None => "Unknown"@,
                };
                name + " ability"@
            },
        }
    }

    /// How the stack view names this entry.
    pub fn display_name(&self, registry: &CardRegistry) -> (s: String)
        ensures
            s@ == self.spec_display_name(registry),
    {
        proof {
            reveal_strlit("Spell(");
            reveal_strlit(")");
            reveal_strlit("Unknown");
            reveal_strlit(" ability");
        }
        match self {
            StackEntry::Spell(id) => {
                let mut s = String::from_str("Spell(");
                let n = decimal(id.0);
                s.append(n.as_str());
                s.append(")");
                s
            },
            StackEntry::Trigger(t) => t.display_name(registry),
            StackEntry::Ability { behavior_card_id, .. } => {
                let mut s = match registry.card_data(*behavior_card_id) {
                    Some(d) => d.name.clone(),
                    None => String::from_str("Unknown"),
                };
                s.append(" ability");
                s
            },
        }
    }
}

/// A delayed end-of-combat exile trigger waiting for the end of combat step
/// (CR 603.7).
#[derive(Debug)]
pub struct EndOfCombatExileEntry {
    pub target_id: ObjectId,
    pub source_id: ObjectId,
    pub source_card_id: CardId,
    pub controller: PlayerId,
    pub description: String,
}

/// How much a log line matters, from one player's private information up
/// to the moments that decide a game.
#[derive(Debug, Clone, Copy, PartialEq, Eq, Structural, PartialOrd, Ord)]
pub enum LogLevel {
    Private,
    Debug,
    Info,
    Event,
    Milestone,
}

/// A single log line.
#[derive(Debug)]
pub struct LogEntry {
    pub level: LogLevel,
    pub message: String,
}

/// An effect that lasts until the cleanup step.
#[derive(Debug)]
pub enum TemporaryEffect {
    ModifyPT { target: ObjectId, power_mod: i32, toughness_mod: i32 },
    GrantKeyword { target: ObjectId, keyword: Keyword },
    RemoveKeyword { target: ObjectId, keyword: Keyword },
    CantBlock { target: ObjectId },
    GrantProtection { target: ObjectId, filter: CreatureFilter },
    /// An until-end-of-turn control change (CR 611.2b, 613.7a).
    ChangeControl { target: ObjectId, controller: PlayerId, timestamp: u64 },
    GrantFlashback { target: ObjectId, cost: ManaCost },
    /// Prevent all combat damage this turn by creatures other than those
    /// matching the filter.
    PreventCombatDamageExcept { filter: CreatureFilter },
    /// A P/T modifier that lasts only while its source is on the battlefield.
    ModifyPTWhileSourceInPlay { target: ObjectId, source: ObjectId, power_mod: i32, toughness_mod: i32 },
}

/// The battlefield permanent an until-end-of-turn effect is about, if any.
pub open spec fn spec_until_eot_object_target(effect: &TemporaryEffect) -> Option<ObjectId> {
    match effect {
        TemporaryEffect::ModifyPT { target, .. } => Some(*target),
        TemporaryEffect::GrantKeyword { target, .. } => Some(*target),
        TemporaryEffect::RemoveKeyword { target, .. } => Some(*target),
        TemporaryEffect::CantBlock { target } => Some(*target),
        TemporaryEffect::GrantProtection { target, .. } => Some(*target),
        TemporaryEffect::ChangeControl { target, .. } => Some(*target),
        TemporaryEffect::ModifyPTWhileSourceInPlay { target, .. } => Some(*target),
        TemporaryEffect::GrantFlashback { .. } => None,
        TemporaryEffect::PreventCombatDamageExcept { .. } => None,
    }
}

/// The battlefield permanent an until-end-of-turn effect is about, if any:
/// such effects end when it leaves (CR 400.7).
pub(crate) fn until_eot_object_target(effect: &TemporaryEffect) -> (r: Option<ObjectId>)
    ensures
        r == spec_until_eot_object_target(effect),
{
    match effect {
        TemporaryEffect::ModifyPT { target, .. } => Some(*target),
        TemporaryEffect::GrantKeyword { target, .. } => Some(*target),
        TemporaryEffect::RemoveKeyword { target, .. } => Some(*target),
        TemporaryEffect::CantBlock { target } => Some(*target),
        TemporaryEffect::GrantProtection { target, .. } => Some(*target),
        TemporaryEffect::ChangeControl { target, .. } => Some(*target),
        TemporaryEffect::ModifyPTWhileSourceInPlay { target, .. } => Some(*target),
        TemporaryEffect::GrantFlashback { .. } => None,
        TemporaryEffect::PreventCombatDamageExcept { .. } => None,
    }
}

/// The seed a game starts from when nobody chose one.
pub open spec fn spec_default_rng_seed() -> u64 {
    0x2545_F491_4F6C_DD1Du64
}

/// The seed a game starts from when nobody chose one: fixed, so a game
/// built the same way is the same game.
pub fn default_rng_seed() -> (s: u64)
    ensures
        s == spec_default_rng_seed(),
{
    0x2545_F491_4F6C_DD1Du64
}

/// Whether a permanent that chooses what to enter as has been asked yet,
/// and what its controller answered (CR 614.12b).
#[derive(Debug, Clone, Copy, PartialEq, Eq, Structural)]
pub enum EnterAsCopyChoice {
    /// Not asked yet: the entry waits for the answer.
    Unasked,
    /// Asked, and declined.
    Declined,
    /// Asked, and answered with the permanent to copy.
    Copy(ObjectId),
}

impl Default for EnterAsCopyChoice {
    fn default() -> (c: EnterAsCopyChoice)
        ensures
            c == EnterAsCopyChoice::Unasked,
    {
        EnterAsCopyChoice::Unasked
    }
}

/// The printed half of a token: what the effect that created it said it was
/// (CR 111.4, CR 707.2).
#[derive(Debug)]
pub struct TokenFace {
    pub name: String,
    pub power: Option<i32>,
    pub toughness: Option<i32>,
    pub colors: Vec<Color>,
    pub keywords: Vec<Keyword>,
    pub card_types: Vec<CardType>,
    pub subtypes: Vec<String>,
}

/// A single game object: a card or token in some zone.
#[derive(Debug)]
pub struct GameObject {
    pub id: ObjectId,
    pub card_id: CardId,
    pub name: String,
    pub owner: PlayerId,
    pub controller: PlayerId,
    /// The player who put this permanent onto the battlefield (CR 110.2a).
    pub base_controller: PlayerId,
    pub zone: Zone,
    pub tapped: bool,
    pub summoning_sick: bool,
    /// Who controlled it immediately before it left the battlefield.
    pub last_controller: Option<PlayerId>,
    /// The turn it was last declared as an attacker (CR 508.1).
    pub attacked_on_turn: Option<u32>,
    pub damage_marked: u32,
    /// The creatures that dealt it damage this turn.
    pub damaged_by: Vec<ObjectId>,
    pub dealt_deathtouch_damage: bool,
    pub power: Option<i32>,
    pub toughness: Option<i32>,
    /// Granted colors (a token's start as its printed ones).
    pub colors: Vec<Color>,
    pub keywords: Vec<Keyword>,
    pub card_types: Vec<CardType>,
    pub subtypes: Vec<String>,
    /// Targets chosen when it was cast.
    pub targets: Vec<Target>,
    pub attached_to: Option<ObjectId>,
    pub attached_to_player: Option<PlayerId>,
    pub last_attached_to_player: Option<PlayerId>,
    pub zone_change_count: u32,
    /// The card a copy is printed as, while it is a copy (CR 706.2).
    pub copy_grantor: Option<CardId>,
    pub is_token: bool,
    pub is_legendary: bool,
    pub cast_with_flashback: bool,
    pub cast_from_zone: Option<Zone>,
    pub instance_oracle_text: Option<String>,
    /// Continuous effects this object was given beyond its face's.
    pub instance_continuous_effects: Option<Vec<ContinuousEffect>>,
    /// Card-specific state, keyed by purpose.
    pub card_state: Vec<(String, ObjectId)>,
    /// Counters on it, one entry per kind.
    pub counters: Vec<(CounterType, u32)>,
    pub regeneration_shields: u32,
    pub is_transformed: bool,
    pub state_trigger_on_stack: bool,
    pub x_value: Option<u32>,
    pub chosen_mode: Option<usize>,
    pub abilities_activated_this_turn: Vec<usize>,
    pub entering_copy_choice: EnterAsCopyChoice,
    /// A token's printed characteristics; `None` for a card.
    pub token_face: Option<TokenFace>,
}

/// A player's state.
#[derive(Debug)]
pub struct PlayerState {
    pub id: PlayerId,
    pub life: i32,
    pub mana_pool: ManaPool,
    pub land_plays_remaining: u32,
    pub lost: bool,
    pub loss_reason: Option<LossReason>,
    pub has_drawn_from_empty: bool,
    /// The library, top card first.
    pub library_order: Vec<ObjectId>,
    /// The graveyard in arrival order, most recent last (CR 404.2).
    pub graveyard_order: Vec<ObjectId>,
    pub mulligan_count: u32,
    pub mulligan_kept: bool,
}

impl PlayerState {
    /// A player at the starting life total with nothing anywhere.
    pub fn new(id: PlayerId) -> (p: PlayerState)
        ensures
            p.id == id,
            p.life == 40,
            p.mana_pool == ManaPool::spec_new(),
            p.land_plays_remaining == 1,
            !p.lost,
            p.loss_reason is None,
            !p.has_drawn_from_empty,
            p.library_order@.len() == 0,
            p.graveyard_order@.len() == 0,
            p.mulligan_count == 0,
            !p.mulligan_kept,
    {
        PlayerState {
            id,
            life: 40,
            mana_pool: ManaPool::new(),
            land_plays_remaining: 1,
            lost: false,
            loss_reason: None,
            has_drawn_from_empty: false,
            library_order: Vec::new(),
            graveyard_order: Vec::new(),
            mulligan_count: 0,
            mulligan_kept: false,
        }
    }

    /// Draw the top card of the library; with an empty library, record the
    /// attempt (CR 704.5b) and draw nothing.
    pub fn draw_top_card(&mut self) -> (r: Option<ObjectId>)
        ensures
            old(self).library_order@.len() == 0 ==> r is None
                && *final(self) == (PlayerState { has_drawn_from_empty: true, ..*old(self) }),
            old(self).library_order@.len() > 0 ==> r == Some(old(self).library_order@[0])
                && *final(self) == (PlayerState { library_order: final(self).library_order, ..*old(self) })
                && final(self).library_order@ == old(self).library_order@.drop_first(),
    {
        if self.library_order.len() == 0 {
            self.has_drawn_from_empty = true;
            None
        } else {
            Some(self.library_order.remove(0))
        }
    }

    /// Take the top card off the library without it being a draw.
    pub fn reveal_top_card(&mut self) -> (r: Option<ObjectId>)
        ensures
            old(self).library_order@.len() == 0 ==> r is None && *final(self) == *old(self),
            old(self).library_order@.len() > 0 ==> r == Some(old(self).library_order@[0])
                && *final(self) == (PlayerState { library_order: final(self).library_order, ..*old(self) })
                && final(self).library_order@ == old(self).library_order@.drop_first(),
    {
        if self.library_order.len() == 0 {
            None
        } else {
            Some(self.library_order.remove(0))
        }
    }
}

/// Where a card goes when an effect puts it into a library.
#[derive(Debug, Clone, Copy, PartialEq, Eq, Structural)]
pub enum LibraryPosition {
    Top,
    Bottom,
}

/// "Gain control of X for as long as you control this permanent"
/// (CR 611.2b).
#[derive(Debug, Clone, Copy, PartialEq, Eq, Structural)]
pub struct ControlEffect {
    pub object: ObjectId,
    pub controller: PlayerId,
    pub original_controller: PlayerId,
    pub source: ObjectId,
    pub source_controller: PlayerId,
    pub timestamp: u64,
}

/// A layer-7b effect setting power and/or toughness (CR 613.4b).
#[derive(Debug, Clone, Copy, PartialEq, Eq, Structural)]
pub struct SetPtEffect {
    pub object: ObjectId,
    pub power: Option<i32>,
    pub toughness: Option<i32>,
    pub timestamp: u64,
}

/// Who attacks whom and who blocks what.
#[derive(Debug)]
pub struct CombatState {
    /// Attacker and the player it attacks.
    pub attackers: Vec<(ObjectId, PlayerId)>,
    /// Attacker and the planeswalker it attacks.
    pub planeswalker_defenders: Vec<(ObjectId, ObjectId)>,
    /// Attacker and its blockers, in declaration order.
    pub blocker_assignments: Vec<(ObjectId, Vec<ObjectId>)>,
    /// Attacker and its blockers in damage assignment order (CR 509.2).
    pub damage_assignment_order: Vec<(ObjectId, Vec<ObjectId>)>,
    /// Attackers that became blocked (CR 509.2).
    pub blocked_attackers: Vec<ObjectId>,
    /// Creatures that dealt first-strike damage (CR 510.5).
    pub dealt_first_strike: Vec<ObjectId>,
    pub any_attackers_declared: bool,
}

impl CombatState {
    /// A combat with nobody in it.
    pub fn new() -> (c: CombatState)
        ensures
            c.attackers@.len() == 0,
            c.planeswalker_defenders@.len() == 0,
            c.blocker_assignments@.len() == 0,
            c.damage_assignment_order@.len() == 0,
            c.blocked_attackers@.len() == 0,
            c.dealt_first_strike@.len() == 0,
            !c.any_attackers_declared,
    {
        CombatState {
            attackers: Vec::new(),
            planeswalker_defenders: Vec::new(),
            blocker_assignments: Vec::new(),
            damage_assignment_order: Vec::new(),
            blocked_attackers: Vec::new(),
            dealt_first_strike: Vec::new(),
            any_attackers_declared: false,
        }
    }
}

/// An X-cost activated ability waiting for X to be funded.
#[derive(Debug)]
pub struct PendingAbilityEffect {
    pub source_id: ObjectId,
    pub ability_index: usize,
    pub behavior_card_id: CardId,
    pub targets: Vec<Target>,
    pub description: String,
    pub activator: PlayerId,
    pub target_requirement: Option<TargetRequirement>,
}

/// An X-cost spell waiting for X to be funded; it stays in its origin zone
/// until then (CR 601.2h).
#[derive(Debug)]
pub struct PendingSpellCast {
    pub object_id: ObjectId,
    pub player: PlayerId,
    pub card_id: CardId,
    pub targets: Vec<Target>,
    pub sacrifice: Option<ObjectId>,
    pub exile_ids: Vec<ObjectId>,
    pub exile_count: Option<u32>,
    /// The sources to tap: (object, ability index).
    pub tap_plan: Vec<(ObjectId, usize)>,
    pub alternative_cost: Option<ManaCost>,
    pub non_x_mana_cost: ManaCost,
    pub is_flashback: bool,
    pub cast_from_graveyard: bool,
}

/// What the engine is waiting for a player to do.
#[derive(Debug)]
pub enum AwaitingAction {
    DeclareAttackers,
    DeclareBlockers { defending_player: PlayerId },
    DiscardToHandSize { player: PlayerId, discard_count: usize },
    ResolutionChoice { player: PlayerId, source: ObjectId, choice: ResolutionChoiceKind },
    MulliganDecision { player: PlayerId },
    BottomAfterMulligan { player: PlayerId, count: usize },
}

/// A choice a player makes in the middle of a resolution.
#[derive(Debug)]
pub enum ResolutionChoiceKind {
    PayOrNot { description: String, spell_id: ObjectId, source_spell_id: ObjectId, cost: ManaCost },
    ChooseTarget { description: String, options: Vec<Target>, optional: bool, effect: PendingEffect },
    YesNo { description: String, source_card: ObjectId },
    ChooseCardFromHand {
        description: String,
        player: PlayerId,
        cards: Vec<ObjectId>,
        discard_immediately: bool,
        remaining: usize,
    },
    ChooseFromLookedAt { description: String, looked_at: Vec<ObjectId> },
    ChooseFromLibrary {
        description: String,
        options: Vec<ObjectId>,
        searcher: PlayerId,
        source_id: ObjectId,
        destination: Zone,
        tapped: bool,
    },
    ChooseCardType { description: String, options: Vec<String>, controller: PlayerId },
    ChooseTriggerOrder { description: String, options: Vec<String>, ap_queue: bool, indices: Vec<usize> },
    ChooseDamageAssignmentOrder {
        description: String,
        attacker: ObjectId,
        remaining: Vec<ObjectId>,
        options: Vec<String>,
    },
    DividePermanentsIntoPiles {
        description: String,
        permanents: Vec<ObjectId>,
        target_player: PlayerId,
        source_id: ObjectId,
    },
    ChoosePile { description: String, pile_1: Vec<ObjectId>, pile_2: Vec<ObjectId>, source_id: ObjectId },
    ChooseCardName { description: String, options: Vec<String>, source_id: ObjectId },
    ChooseExileFromGraveyard {
        description: String,
        options: Vec<ObjectId>,
        min: usize,
        max: usize,
        source_id: ObjectId,
    },
}

/// What happens to the chosen target when a choice is answered.
#[derive(Debug)]
pub enum PendingEffect {
    DealDamage { amount: u32, source_id: ObjectId },
    Destroy { source_name: String },
    DebuffUntilEOT { power: i32, toughness: i32, source_name: String },
    CantBlockThisTurn { source_name: String },
    DestroyCreature { source_name: String },
    ReturnToHand { source_name: String },
    SacrificeCreature { source_name: String },
    /// The answer to an enters-as-a-copy choice (CR 614.12b).
    EnterAsCopy { object: ObjectId },
    /// The legend rule: the chosen permanent is kept (CR 704.5j).
    LegendRuleKeep { player: PlayerId, legend_name: String },
    /// Finish a library search (CR 701.19).
    FinishLibrarySearch { searcher: PlayerId, destination: Zone, tapped: bool },
    /// A deferred resolution that belongs to the card that queued it.
    CardEffect { source_id: ObjectId, key: String },
    AttachTargetToPendingTrigger,
    /// A token put onto the battlefield attacking chooses what it attacks
    /// (CR 508.4b).
    TokenAttacks { token_id: ObjectId, remaining: Vec<ObjectId>, source_id: ObjectId },
}

/// How a game ended.
#[derive(Debug, Clone, Copy, PartialEq, Eq, Structural)]
pub enum GameResult {
    Winner(PlayerId),
    Draw,
}

/// Day or night, for werewolves.
#[derive(Debug, Clone, Copy, PartialEq, Eq, Structural)]
pub enum DayNight {
    Day,
    Night,
}

/// The complete game state.
#[derive(Debug)]
pub struct GameState {
    /// Every game object, in increasing id order.
    pub objects: Vec<GameObject>,
    /// The id the next object gets.
    pub next_object_id: u64,
    /// The state of the game's random stream.
    pub rng_state: u64,
    /// Players, indexed by `PlayerId.0`.
    pub players: Vec<PlayerState>,
    pub turn_number: u32,
    pub active_player: PlayerId,
    pub priority_player: Option<PlayerId>,
    pub step: Step,
    /// The stack; the last element is the top.
    pub stack: Vec<StackEntry>,
    pub combat: Option<CombatState>,
    pub end_of_combat_exiles: Vec<EndOfCombatExileEntry>,
    pub awaiting_action: Option<AwaitingAction>,
    pub combat_damage_step_pending: bool,
    pub resolving_spell: Option<ObjectId>,
    pub result: Option<GameResult>,
    pub consecutive_passes: u32,
    pub is_first_turn: bool,
    /// Events generated by the most recent action.
    pub events: Vec<GameEvent>,
    pub game_log: Vec<LogEntry>,
    /// Effects that end in the cleanup step.
    pub until_end_of_turn: Vec<TemporaryEffect>,
    /// "For as long as" control effects in force.
    pub control_effects: Vec<ControlEffect>,
    pub creature_died_this_turn: bool,
    pub day_night: Option<DayNight>,
    pub pending_ability_effect: Option<PendingAbilityEffect>,
    pub pending_spell_cast: Option<PendingSpellCast>,
    /// Triggered abilities waiting to be put on the stack, in APNAP order.
    pub pending_triggers: Vec<PendingTrigger>,
    /// Permanents whose entry waits on an enters-as-a-copy choice.
    pub pending_entry_choices: Vec<ObjectId>,
    /// The controller a deferred entry was requested under.
    pub pending_entry_controllers: Vec<(ObjectId, PlayerId)>,
    /// The last timestamp handed to an effect (CR 613.7a).
    pub next_effect_timestamp: u64,
    /// Layer-7b set-P/T effects in force.
    pub set_pt_effects: Vec<SetPtEffect>,
    /// The engine's records of turns, actions and queues that no rule in
    /// this library reads.
    pub book: Bookkeeping,
}

/// Records the engine keeps beside the game state proper: who activated
/// what is resolving, per-turn spell counts, the trigger and action
/// counters, the queues of triggers to put on the stack and of mulligan
/// bottoms, and the cleanup-step flag.
#[derive(Debug)]
pub struct Bookkeeping {
    /// Who activated the activated ability resolving, if one is (CR 602.2a).
    pub resolving_ability_activator: Option<PlayerId>,
    /// Which face the trigger resolving fired from, if one is (CR 603.4).
    pub resolving_trigger_from_back_face: Option<bool>,
    /// Spells each player has cast this turn, and last turn.
    pub num_spells_cast_this_turn: Vec<(PlayerId, u32)>,
    pub num_spells_cast_last_turn: Vec<(PlayerId, u32)>,
    /// What the activated ability resolving was activated with: the X
    /// paid, the permanent sacrificed and its last toughness.
    pub last_activated_x_value: Option<u32>,
    pub last_activated_sacrifice: Option<ObjectId>,
    pub last_activated_sacrifice_toughness: Option<i32>,
    /// How many of `events` the trigger pass has looked at.
    pub trigger_event_index: usize,
    /// How many actions have been submitted.
    pub submit_seq: u64,
    /// Whether an observer sees every submitted action.
    pub observe_every_submit: bool,
    /// Triggered abilities waiting to be put on the stack, the active
    /// player's and the other's (CR 603.3b).
    pub pending_trigger_pushes_ap: Vec<PendingTrigger>,
    pub pending_trigger_pushes_nap: Vec<PendingTrigger>,
    /// Players still to put cards on the bottom after a mulligan, with how
    /// many (CR 103.5).
    pub pending_mulligan_bottoms: Vec<(PlayerId, usize)>,
    /// Where the mulligan round is, and whether anyone took one in it.
    pub mulligan_round_position: u8,
    pub mulligan_round_mulled: bool,
    /// Whether the cleanup step repeats (CR 514.3a).
    pub cleanup_repeat: bool,
}

/// The index of the first object with this id, looking from `k` on.
pub open spec fn find_from(objs: Seq<GameObject>, id: ObjectId, k: int) -> Option<int>
    decreases objs.len() - k,
{
    if k < 0 || k >= objs.len() {
        None
    } else if objs[k].id == id {
        Some(k)
    } else {
        find_from(objs, id, k + 1)
    }
}

/// What `find_from` finds: the first match from `k` on, or that there is
/// none.
pub proof fn lemma_find_from(objs: Seq<GameObject>, id: ObjectId, k: int)
    requires
        0 <= k,
    ensures
        match find_from(objs, id, k) {
            Some(j) => k <= j < objs.len() && objs[j].id == id
                && forall|m: int| k <= m < j ==> objs[m].id != id,
            None => forall|m: int| k <= m < objs.len() ==> objs[m].id != id,
        },
    decreases objs.len() - k,
{
    if k < objs.len() && objs[k].id != id {
        lemma_find_from(objs, id, k + 1);
    }
}

/// Lookups only look at ids: two vectors with the same ids, position by
/// position, find the same positions.
pub proof fn lemma_find_same_ids(a: Seq<GameObject>, b: Seq<GameObject>, id: ObjectId, k: int)
    requires
        a.len() == b.len(),
        forall|j: int| 0 <= j < a.len() ==> #[trigger] a[j].id == b[j].id,
    ensures
        find_from(a, id, k) == find_from(b, id, k),
    decreases a.len() - k,
{
    if 0 <= k < a.len() {
        lemma_find_same_ids(a, b, id, k + 1);
    }
}

/// Ids strictly increase along the vector, and all are below `next`.
pub open spec fn objects_wf(objs: Seq<GameObject>, next: u64) -> bool {
    &&& forall|i: int, j: int| 0 <= i < j < objs.len() ==> objs[i].id.0 < objs[j].id.0
    &&& forall|i: int| 0 <= i < objs.len() ==> objs[i].id.0 < next
}

/// With distinct ids, the object found is the only one with its id.
pub proof fn lemma_find_unique(objs: Seq<GameObject>, next: u64, id: ObjectId, i: int)
    requires
        objects_wf(objs, next),
        0 <= i < objs.len(),
        objs[i].id == id,
    ensures
        find_from(objs, id, 0) == Some(i),
{
    lemma_find_from(objs, id, 0);
    match find_from(objs, id, 0) {
        Some(j) => {
            if j < i {
                assert(objs[j].id.0 < objs[i].id.0);
            }
        },
        None => {},
    }
}

impl GameState {
    /// The position of the object with this id.
    pub open spec fn spec_index(&self, id: ObjectId) -> Option<int> {
        find_from(self.objects@, id, 0)
    }

    /// The object with this id.
    pub open spec fn spec_obj(&self, id: ObjectId) -> Option<GameObject> {
        match self.spec_index(id) {
            Some(i) => Some(self.objects@[i]),
            None => None,
        }
    }

    /// The object with this id is in this zone.
    pub open spec fn in_zone(&self, id: ObjectId, zone: Zone) -> bool {
        self.spec_obj(id) matches Some(o) && o.zone == zone
    }

    /// The state's own consistency: object ids are distinct, ordered and
    /// below the next id to hand out.
    pub open spec fn wf(&self) -> bool {
        objects_wf(self.objects@, self.next_object_id)
    }

    /// The position of the object with this id.
    pub fn find_index(&self, id: ObjectId) -> (r: Option<usize>)
        ensures
            match r {
                Some(i) => self.spec_index(id) == Some(i as int) && i < self.objects@.len()
                    && self.objects@[i as int].id == id,
                None => self.spec_index(id) is None,
            },
    {
        let mut i: usize = 0;
        while i < self.objects.len()
            invariant
                i <= self.objects@.len(),
                find_from(self.objects@, id, 0) == find_from(self.objects@, id, i as int),
            decreases self.objects@.len() - i,
        {
            if self.objects[i].id == id {
                return Some(i);
            }
            i = i + 1;
        }
        None
    }

    /// The object with this id, if it exists.
    pub fn get_object(&self, id: ObjectId) -> (r: Option<&GameObject>)
        ensures
            match r {
                Some(o) => self.spec_obj(id) == Some(*o),
                None => self.spec_obj(id) is None,
            },
    {
        match self.find_index(id) {
            Some(i) => Some(&self.objects[i]),
            None => None,
        }
    }

    /// The object with this id, to change in place.
    pub fn get_object_mut(&mut self, id: ObjectId) -> (r: Option<&mut GameObject>)
        ensures
            match r {
                Some(o) => old(self).spec_index(id) matches Some(i)
                    && *o == old(self).objects@[i]
                    && final(self).objects@ == old(self).objects@.update(i, *final(o))
                    && *final(self) == (GameState { objects: final(self).objects, ..*old(self) }),
                None => old(self).spec_index(id) is None && *final(self) == *old(self),
            },
    {
        match self.find_index(id) {
            Some(i) => Some(&mut self.objects[i]),
            None => None,
        }
    }
}

} // verus!
